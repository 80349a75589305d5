//! Parallel, resumable copying of a file tree: the scan of the source, the shared work
//! queue, the decision to skip or recreate a destination, the chunked copy of each file
//! and the shared progress counters.

pub mod copy;
pub mod files;
pub mod paths;
pub mod progress;
pub mod queue;
pub mod resume;
pub mod scan;
pub mod worker;

pub use copy::{copy_data, CopyTask};
pub use files::{CmdArgs, Data, FileError, SourceFile, Timestamp, DEFAULT_BUF_SIZE, DEFAULT_THREAD_COUNT};
pub use paths::{destination_paths, file_name, get_reative_path, is_under, rewrite_destination};
pub use progress::CopyStats;
pub use queue::WorkQueue;
pub use resume::{decide_destination, DestinationDecision, DestinationState};
pub use scan::{EntryMeta, PendingDir, Scanner};
pub use worker::{FileJob, JobAction, JobEvent, JobState};
