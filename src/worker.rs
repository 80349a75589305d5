use vstd::prelude::*;

use crate::copy::{
    advanced, copy_data, cycles_for, lemma_cycles_step, read_at, write_at, CopyTask,
};
use crate::files::Data;
use crate::progress::CopyStats;
use crate::resume::DestinationDecision;

verus! {

/// Where a worker stands with the file it holds.
#[derive(Clone, Copy, Debug)]
pub enum JobState {
    /// The destination is to be created and the source opened.
    Opening(CopyTask),
    /// Chunks are being read and written; the next read starts at the task's offset.
    Copying(CopyTask),
    /// A chunk of this many bytes is being written; the next read starts at the task's
    /// offset, just past it.
    Writing(CopyTask, u64),
    /// Every byte is written; the modification time is still to be carried over.
    Stamping,
    /// Done and counted: copied in full and stamped, or skipped.
    Completed,
    /// Given up after an I/O failure; the worker goes on with the next file.
    Abandoned,
}

/// What the worker is to do next.
#[derive(Debug)]
pub enum JobAction {
    /// Create (or recreate) the destination as decided, and open the source.
    Open,
    /// Read at most `len` bytes of the source at `offset`.
    Read { offset: u64, len: usize },
    /// Write these bytes to the destination at their offset.
    Write(Data),
    /// Set the destination's modification time to the source's.
    SetModified,
    /// Nothing more for this file.
    Finish { completed: bool },
}

/// What came of the last action.
#[derive(Debug)]
pub enum JobEvent {
    Opened,
    ReadDone(Vec<u8>),
    Written,
    Stamped,
    Failed,
}

/// The copy of one file by one worker, driven by the events of the I/O it asks for.
#[derive(Debug)]
pub struct FileJob {
    pub state: JobState,
    pub size: u64,
}

/// How a job starts for a file of `size` bytes under `decision`: a skip completes it at
/// once and accounts for its size; anything else opens it, to copy from offset 0.
pub open spec fn starts_as(
    decision: DestinationDecision,
    size: u64,
    buffer_size: usize,
    job: FileJob,
    action: JobAction,
    before: CopyStats,
    after: CopyStats,
) -> bool {
    &&& job.size == size
    &&& if decision is Skip {
        &&& job.state is Completed
        &&& action == (JobAction::Finish { completed: true })
        &&& after == before.with_skip(size as nat)
    } else {
        &&& job.state == JobState::Opening(CopyTask { offset: 0, buffer_size })
        &&& action is Open
        &&& after == before
    }
}

/// The bounds an event must respect in `state`: a read returns no more than the buffer
/// holds, and the counters have room for what a write or a completion adds.
pub open spec fn event_fits(state: JobState, event: JobEvent, stats: CopyStats) -> bool {
    &&& (state matches JobState::Copying(t) ==> (event matches JobEvent::ReadDone(bytes) ==> {
        &&& bytes.len() <= t.buffer_size
        &&& t.offset + bytes.len() <= u64::MAX
    }))
    &&& (state matches JobState::Writing(_, n) ==> {
        &&& stats.bytes_copied + n <= u64::MAX
        &&& stats.bytes_done + n <= u64::MAX
    })
    &&& (state is Stamping ==> stats.files_copied < u64::MAX)
}

/// Where a job copying with task `t` goes after a read of `n` bytes: nothing read means
/// every byte is written; otherwise the chunk is to be written and the next read starts
/// past it.
pub open spec fn after_read(t: CopyTask, n: nat) -> JobState {
    if n == 0 {
        JobState::Stamping
    } else {
        JobState::Writing(advanced(t, n), n as u64)
    }
}

/// One step of a job: from `state`, on `event`, to `next`, asking for `action`, with the
/// counters going from `before` to `after`.
pub open spec fn steps_to(
    state: JobState,
    event: JobEvent,
    next: JobState,
    action: JobAction,
    before: CopyStats,
    after: CopyStats,
) -> bool {
    match (state, event) {
        (JobState::Opening(t), JobEvent::Opened) => {
            &&& next == JobState::Copying(t)
            &&& action == (JobAction::Read { offset: t.offset, len: t.buffer_size })
            &&& after == before
        },
        (JobState::Copying(t), JobEvent::ReadDone(bytes)) => {
            &&& next == after_read(t, bytes.len() as nat)
            &&& after == before
            &&& bytes.len() == 0 ==> action is SetModified
            &&& bytes.len() > 0 ==> action == JobAction::Write(
                Data { data: bytes, offset: t.offset },
            )
        },
        (JobState::Writing(t, n), JobEvent::Written) => {
            &&& next == JobState::Copying(t)
            &&& action == (JobAction::Read { offset: t.offset, len: t.buffer_size })
            &&& after == before.with_bytes(n as nat)
        },
        (JobState::Stamping, JobEvent::Stamped) => {
            &&& next is Completed
            &&& action == (JobAction::Finish { completed: true })
            &&& after == before.with_file()
        },
        (JobState::Completed, _) => {
            &&& next is Completed
            &&& action == (JobAction::Finish { completed: true })
            &&& after == before
        },
        _ => {
            &&& next is Abandoned
            &&& action == (JobAction::Finish { completed: false })
            &&& after == before
        },
    }
}

impl FileJob {
    /// Starts work on a file of `size` bytes for which `decision` was made. A skipped
    /// file is completed at once: its size is accounted for and it counts as done, with
    /// nothing written. Any other file is opened next, to be copied from offset 0
    /// through a buffer of `buffer_size` bytes.
    pub fn start(
        decision: &DestinationDecision,
        size: u64,
        buffer_size: usize,
        stats: &mut CopyStats,
    ) -> (r: (FileJob, JobAction))
        requires
            buffer_size > 0,
            old(stats).bytes_done + size <= u64::MAX,
            old(stats).files_copied < u64::MAX,
        ensures
            starts_as(*decision, size, buffer_size, r.0, r.1, *old(stats), *final(stats)),
    {
        match decision {
            DestinationDecision::Skip => {
                stats.record_skip(size);
                (FileJob { state: JobState::Completed, size }, JobAction::Finish { completed: true })
            },
            _ => {
                let task = CopyTask::new(buffer_size);
                (FileJob { state: JobState::Opening(task), size }, JobAction::Open)
            },
        }
    }

    /// Takes what came of the last action and says what to do next. A failure at any
    /// point abandons the file, which is then not counted, and leaves the counters as
    /// they are. Once the source is open, reads follow at the task's offset; each read's
    /// bytes are written back at the offset they were read from, and count as copied
    /// once that write succeeded; a read of nothing means every byte is written, and the
    /// modification time is set; once that is done the file counts as completed.
    /// An event that does not answer the last action also abandons the file.
    pub fn on_event(&mut self, event: JobEvent, stats: &mut CopyStats) -> (r: JobAction)
        requires
            event_fits(old(self).state, event, *old(stats)),
        ensures
            final(self).size == old(self).size,
            steps_to(old(self).state, event, final(self).state, r, *old(stats), *final(stats)),
    {
        let state = self.state;
        match (state, event) {
            (JobState::Opening(t), JobEvent::Opened) => {
                self.state = JobState::Copying(t);
                JobAction::Read { offset: t.offset, len: t.buffer_size }
            },
            (JobState::Copying(t), JobEvent::ReadDone(bytes)) => {
                let mut task = t;
                let n = bytes.len() as u64;
                match copy_data(&mut task, bytes) {
                    None => {
                        self.state = JobState::Stamping;
                        JobAction::SetModified
                    },
                    Some(d) => {
                        self.state = JobState::Writing(task, n);
                        JobAction::Write(d)
                    },
                }
            },
            (JobState::Writing(t, n), JobEvent::Written) => {
                stats.add_bytes(n);
                self.state = JobState::Copying(t);
                JobAction::Read { offset: t.offset, len: t.buffer_size }
            },
            (JobState::Stamping, JobEvent::Stamped) => {
                stats.increment_files();
                self.state = JobState::Completed;
                JobAction::Finish { completed: true }
            },
            (JobState::Completed, _) => JobAction::Finish { completed: true },
            _ => {
                self.state = JobState::Abandoned;
                JobAction::Finish { completed: false }
            },
        }
    }
}

/// What a job copying with task `t` into a destination holding `dst`, with the counters
/// at `stats`, ends with when each read returns the next `read_at` chunk of `src` and
/// each write succeeds: the destination, the number of read/write cycles, and the
/// counters. Each cycle takes the steps that `steps_to` gives for a read of that chunk
/// (`after_read`) and for the write of it, which lands at the read's offset and adds its
/// length to the counters.
pub open spec fn copy_run(src: Seq<u8>, t: CopyTask, dst: Seq<u8>, stats: CopyStats) -> (
    Seq<u8>,
    nat,
    CopyStats,
)
    decreases src.len() - t.offset,
{
    let bytes = read_at(src, t.offset as nat, t.buffer_size as nat);
    match after_read(t, bytes.len()) {
        JobState::Writing(next, n) => if t.offset < next.offset && t.offset <= dst.len()
            && t.offset < src.len() {
            let (out, k, s) = copy_run(
                src,
                next,
                write_at(dst, t.offset as nat, bytes),
                stats.with_bytes(n as nat),
            );
            (out, k + 1, s)
        } else {
            (dst, 0, stats)
        },
        _ => (dst, 0, stats),
    }
}

proof fn lemma_copy_run_from(src: Seq<u8>, t: CopyTask, dst: Seq<u8>, stats: CopyStats)
    requires
        t.buffer_size > 0,
        t.offset <= src.len() <= u64::MAX,
        dst == src.take(t.offset as int),
        stats.bytes_copied + (src.len() - t.offset) <= u64::MAX,
        stats.bytes_done + (src.len() - t.offset) <= u64::MAX,
    ensures
        copy_run(src, t, dst, stats).0 == src,
        copy_run(src, t, dst, stats).1 == cycles_for(
            (src.len() - t.offset) as nat,
            t.buffer_size as nat,
        ),
        copy_run(src, t, dst, stats).2 == stats.with_bytes((src.len() - t.offset) as nat),
    decreases src.len() - t.offset,
{
    let bytes = read_at(src, t.offset as nat, t.buffer_size as nat);
    let b = t.buffer_size as nat;
    if t.offset == src.len() {
        assert(dst =~= src);
        assert((b - 1) / b as int == 0) by (nonlinear_arith)
            requires
                b > 0,
        ;
    } else {
        let c = bytes.len();
        let next = advanced(t, c);
        let written = write_at(dst, t.offset as nat, bytes);
        assert(written =~= src.take(t.offset + c));
        lemma_copy_run_from(src, next, written, stats.with_bytes(c));
        lemma_cycles_step((src.len() - t.offset) as nat, b);
    }
}

/// A job fed, from offset 0, reads of `src` through a buffer of `buffer_size` bytes and
/// writes that all succeed reproduces `src` byte for byte, whether or not its size is a
/// multiple of the buffer size: the last, shorter chunk lands at the right offset and
/// nothing is written past the end. It takes one read/write cycle per started buffer's
/// worth of bytes, and the counters grow by exactly the size of `src`.
pub proof fn lemma_chunked_copy_is_exact(src: Seq<u8>, buffer_size: usize, stats: CopyStats)
    requires
        buffer_size > 0,
        src.len() <= u64::MAX,
        stats.bytes_copied + src.len() <= u64::MAX,
        stats.bytes_done + src.len() <= u64::MAX,
    ensures
        ({
            let (out, cycles, end) = copy_run(
                src,
                CopyTask { offset: 0, buffer_size },
                Seq::empty(),
                stats,
            );
            &&& out == src
            &&& cycles == cycles_for(src.len(), buffer_size as nat)
            &&& end == stats.with_bytes(src.len())
        }),
{
    assert(src.take(0) =~= Seq::<u8>::empty());
    lemma_copy_run_from(src, CopyTask { offset: 0, buffer_size }, Seq::empty(), stats);
}

} // verus!
