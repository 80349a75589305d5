use vstd::prelude::*;

use crate::files::Data;
use vstd::arithmetic::div_mod::lemma_div_plus_one;

verus! {

/// The state of copying one file: where the next read starts, and how much it may read.
#[derive(Clone, Copy, Debug)]
pub struct CopyTask {
    pub offset: u64,
    pub buffer_size: usize,
}

/// The bytes a read of at most `b` bytes at `offset` returns from a file holding `src`.
pub open spec fn read_at(src: Seq<u8>, offset: nat, b: nat) -> Seq<u8> {
    if offset >= src.len() {
        Seq::empty()
    } else if offset + b >= src.len() {
        src.skip(offset as int)
    } else {
        src.subrange(offset as int, (offset + b) as int)
    }
}

/// A file holding `dst` after `data` was written at `offset` (no further than its end).
pub open spec fn write_at(dst: Seq<u8>, offset: nat, data: Seq<u8>) -> Seq<u8> {
    if offset + data.len() >= dst.len() {
        dst.take(offset as int) + data
    } else {
        dst.take(offset as int) + data + dst.skip((offset + data.len()) as int)
    }
}

/// The task after a read of `n` bytes: the next read starts `n` bytes further on.
pub open spec fn advanced(t: CopyTask, n: nat) -> CopyTask {
    CopyTask { offset: (t.offset + n) as u64, buffer_size: t.buffer_size }
}

impl CopyTask {
    /// A copy of a fresh file through a buffer of `buffer_size` bytes: the first read
    /// starts at offset 0.
    pub fn new(buffer_size: usize) -> (r: CopyTask)
        requires
            buffer_size > 0,
        ensures
            r.offset == 0,
            r.buffer_size == buffer_size,
    {
        CopyTask { offset: 0, buffer_size }
    }
}

/// Takes the bytes that a read at `task.offset` returned. Nothing read means the file is
/// fully copied: nothing changes and `None` comes back. Otherwise those exact bytes are
/// to be written at the same offset, and the offset advances by their number (not by
/// the buffer size). Nothing is counted here: bytes count once they are written.
pub fn copy_data(task: &mut CopyTask, read: Vec<u8>) -> (r: Option<Data>)
    requires
        read.len() <= old(task).buffer_size,
        old(task).offset + read.len() <= u64::MAX,
    ensures
        read.len() == 0 ==> r is None && *final(task) == *old(task),
        read.len() > 0 ==> r == Some(Data { data: read, offset: old(task).offset }),
        read.len() > 0 ==> *final(task) == advanced(*old(task), read.len() as nat),
{
    let n = read.len();
    if n == 0 {
        return None;
    }
    let offset = task.offset;
    task.offset = offset + n as u64;
    Some(Data { data: read, offset })
}

/// Number of reads of at most `b` bytes it takes to cover `n` bytes.
pub open spec fn cycles_for(n: nat, b: nat) -> int {
    (n + b - 1) / b as int
}

pub(crate) proof fn lemma_cycles_step(r: nat, b: nat)
    requires
        b > 0,
        r > 0,
    ensures
        cycles_for(r, b) == 1 + cycles_for((r - if r <= b { r } else { b }) as nat, b),
{
    if r <= b {
        assert((r + b - 1) / b as int == 1) by (nonlinear_arith)
            requires
                b > 0,
                0 < r <= b,
        ;
        assert((b - 1) / b as int == 0) by (nonlinear_arith)
            requires
                b > 0,
        ;
    } else {
        lemma_div_plus_one((r - b + b - 1) as int, b as int);
    }
}

} // verus!
