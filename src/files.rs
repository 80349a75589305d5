use vstd::prelude::*;

verus! {

/// Default size in bytes of the buffer each worker copies through.
pub const DEFAULT_BUF_SIZE: u32 = 10240;

/// Default number of copy workers.
pub const DEFAULT_THREAD_COUNT: i8 = 3;

/// A modification time, as seconds and nanoseconds since the Unix epoch.
#[derive(Clone, Copy, Debug, PartialEq, Eq, Structural)]
pub struct Timestamp {
    pub secs: i64,
    pub nanos: u32,
}

/// One regular file found under the source root.
#[derive(Clone, Debug)]
pub struct SourceFile {
    pub file_path: String,
    pub size: u64,
    pub modified: Option<Timestamp>,
}

/// A chunk of bytes to be written at `offset` of a destination file.
#[derive(Debug)]
pub struct Data {
    pub data: Vec<u8>,
    pub offset: u64,
}

/// Failure to create a destination file, or to open a source file.
#[derive(Debug)]
pub enum FileError {
    CannotCreate(String),
    FileNotCreate(String),
}

/// The run's configuration, as the command surface hands it over.
#[derive(Clone, Debug)]
pub struct CmdArgs {
    pub source: String,
    pub destination: String,
    pub read_thread: i8,
    pub threads: i8,
    pub buffer_size: u32,
}

/// True when the two optional times are both known and equal.
pub open spec fn same_known_time(a: Option<Timestamp>, b: Option<Timestamp>) -> bool {
    a is Some && b is Some && a->0 == b->0
}

/// Compares two optional modification times; unknown times never match.
pub fn times_match(a: &Option<Timestamp>, b: &Option<Timestamp>) -> (r: bool)
    ensures
        r == same_known_time(*a, *b),
{
    match (a, b) {
        (Some(x), Some(y)) => x.secs == y.secs && x.nanos == y.nanos,
        _ => false,
    }
}

} // verus!
