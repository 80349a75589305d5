use vstd::prelude::*;

use crate::copy::CopyTask;
use crate::files::{SourceFile, Timestamp, same_known_time, times_match};
use crate::progress::CopyStats;
use crate::queue::sum_sizes;
use crate::worker::{copy_run, lemma_chunked_copy_is_exact, starts_as, FileJob, JobAction};

verus! {

/// What the filesystem shows at a destination file's path.
#[derive(Clone, Copy, Debug)]
pub enum DestinationState {
    /// Nothing is there.
    Missing,
    /// Something is there but its metadata could not be read.
    Unreadable,
    /// A file is there, with this size and, when readable, this modification time.
    Present { size: u64, modified: Option<Timestamp> },
}

/// What to do with a destination file before copying into it.
#[derive(Debug)]
pub enum DestinationDecision {
    /// The destination already matches the source: copy nothing.
    Skip,
    /// The destination exists but is stale: delete it, then create it anew.
    Recreate(String),
    /// The destination does not exist: create it.
    CreateNew(String),
}

/// The destination is an exact copy: same size, and the same modification time, known
/// on both sides.
pub open spec fn is_up_to_date(
    size: u64,
    source_modified: Option<Timestamp>,
    state: DestinationState,
) -> bool {
    match state {
        DestinationState::Present { size: dest_size, modified } => dest_size == size
            && same_known_time(source_modified, modified),
        _ => false,
    }
}

/// The decision for a source file of `size` and `source_modified` whose copy would go
/// to `target`, where the filesystem shows `state`.
pub open spec fn decision_for(
    target: String,
    size: u64,
    source_modified: Option<Timestamp>,
    state: DestinationState,
) -> DestinationDecision {
    if state is Missing {
        DestinationDecision::CreateNew(target)
    } else if is_up_to_date(size, source_modified, state) {
        DestinationDecision::Skip
    } else {
        DestinationDecision::Recreate(target)
    }
}

/// Decides whether the copy of a source file of `size` bytes, last modified at
/// `source_modified`, into `target` is skipped, recreated or created: skipped exactly
/// when the destination exists with the same size and the same known modification
/// time; recreated when it exists in any other shape; created when it is missing.
pub fn decide_destination(
    target: String,
    size: u64,
    source_modified: Option<Timestamp>,
    state: DestinationState,
) -> (r: DestinationDecision)
    ensures
        r == decision_for(target, size, source_modified, state),
        r is Skip <==> is_up_to_date(size, source_modified, state),
        r is CreateNew <==> state is Missing,
        r is Recreate <==> !(state is Missing) && !is_up_to_date(size, source_modified, state),
{
    match state {
        DestinationState::Missing => DestinationDecision::CreateNew(target),
        DestinationState::Unreadable => DestinationDecision::Recreate(target),
        DestinationState::Present { size: dest_size, modified } => {
            if dest_size == size && times_match(&source_modified, &modified) {
                DestinationDecision::Skip
            } else {
                DestinationDecision::Recreate(target)
            }
        },
    }
}

/// What the filesystem shows at the destination of `f` once `f` was copied in full and
/// its modification time carried over.
pub open spec fn state_after_copy(f: SourceFile) -> DestinationState {
    DestinationState::Present { size: f.size, modified: f.modified }
}

/// The counters after a job was started for each of `files` with a skip decision,
/// starting from `stats`: each such start adds what `with_skip` adds (see `starts_as`).
pub open spec fn skip_all(stats: CopyStats, files: Seq<SourceFile>) -> CopyStats
    decreases files.len(),
{
    if files.len() == 0 {
        stats
    } else {
        skip_all(stats, files.drop_last()).with_skip(files.last().size as nat)
    }
}

proof fn lemma_skip_all_counts(total: u64, files: Seq<SourceFile>)
    requires
        sum_sizes(files) <= total,
        files.len() <= u64::MAX,
    ensures
        skip_all(CopyStats { total_expected: total, bytes_copied: 0, bytes_done: 0, files_copied: 0 }, files)
            == (CopyStats {
            total_expected: total,
            bytes_copied: 0,
            bytes_done: sum_sizes(files) as u64,
            files_copied: files.len() as u64,
        }),
    decreases files.len(),
{
    if files.len() > 0 {
        lemma_sum_sizes_nonneg(files.drop_last());
        lemma_skip_all_counts(total, files.drop_last());
    }
}

proof fn lemma_sum_sizes_nonneg(files: Seq<SourceFile>)
    ensures
        sum_sizes(files) >= 0,
    decreases files.len(),
{
    if files.len() > 0 {
        lemma_sum_sizes_nonneg(files.drop_last());
    }
}

/// A second run over sources that did not change since a complete first run writes
/// nothing: every destination was left with the source's size and modification time, so
/// every file is skipped, the job started for it completes at once without copying a
/// byte, every file counts as completed and the bytes accounted for reach the expected
/// total. This needs each source's modification
/// time to be known; a file without one is recreated on every run.
pub proof fn lemma_second_run_copies_nothing(
    files: Seq<SourceFile>,
    target: String,
    buffer_size: usize,
)
    requires
        forall|i: int| 0 <= i < files.len() ==> (#[trigger] files[i]).modified is Some,
        sum_sizes(files) <= u64::MAX,
        files.len() <= u64::MAX,
    ensures
        forall|i: int|
            0 <= i < files.len() ==> decision_for(
                target,
                (#[trigger] files[i]).size,
                files[i].modified,
                state_after_copy(files[i]),
            ) is Skip,
        forall|i: int, job: FileJob, action: JobAction, before: CopyStats, after: CopyStats|
            0 <= i < files.len() && #[trigger] starts_as(
                decision_for(target, files[i].size, files[i].modified, state_after_copy(files[i])),
                files[i].size,
                buffer_size,
                job,
                action,
                before,
                after,
            ) ==> job.state is Completed && after == before.with_skip(files[i].size as nat)
                && after.bytes_copied == before.bytes_copied,
        ({
            let start = CopyStats {
                total_expected: sum_sizes(files) as u64,
                bytes_copied: 0,
                bytes_done: 0,
                files_copied: 0,
            };
            let end = skip_all(start, files);
            &&& end.bytes_copied == 0
            &&& end.bytes_done == end.total_expected
            &&& end.files_copied == files.len()
        }),
{
    lemma_sum_sizes_nonneg(files);
    lemma_skip_all_counts(sum_sizes(files) as u64, files);
}

/// After a file is handled, its destination has the source's size: either the decision
/// was to skip, which happens only when the destination already has that size, or the
/// file is copied chunk by chunk, which writes exactly its `content`.
pub proof fn lemma_destination_gets_source_size(
    f: SourceFile,
    content: Seq<u8>,
    buffer_size: usize,
    stats: CopyStats,
    target: String,
    state: DestinationState,
)
    requires
        content.len() == f.size,
        buffer_size > 0,
        stats.bytes_copied + f.size <= u64::MAX,
        stats.bytes_done + f.size <= u64::MAX,
    ensures
        decision_for(target, f.size, f.modified, state) is Skip ==> (state matches DestinationState::Present { size, .. } && size == f.size),
        !(decision_for(target, f.size, f.modified, state) is Skip) ==> copy_run(
            content,
            CopyTask { offset: 0, buffer_size },
            Seq::empty(),
            stats,
        ).0.len() == f.size,
{
    lemma_chunked_copy_is_exact(content, buffer_size, stats);
}

/// A destination whose size or modification time differs from the source's (or whose
/// time is unknown) is never skipped: it is recreated, and the copy into the fresh file,
/// which starts at offset 0, writes the source's whole `content`.
pub proof fn lemma_stale_destination_recreated(
    f: SourceFile,
    content: Seq<u8>,
    buffer_size: usize,
    stats: CopyStats,
    target: String,
    dest_size: u64,
    dest_modified: Option<Timestamp>,
)
    requires
        content.len() == f.size,
        buffer_size > 0,
        stats.bytes_copied + f.size <= u64::MAX,
        stats.bytes_done + f.size <= u64::MAX,
        dest_size != f.size || !same_known_time(f.modified, dest_modified),
    ensures
        decision_for(
            target,
            f.size,
            f.modified,
            DestinationState::Present { size: dest_size, modified: dest_modified },
        ) == DestinationDecision::Recreate(target),
        copy_run(content, CopyTask { offset: 0, buffer_size }, Seq::empty(), stats).0 == content,
{
    lemma_chunked_copy_is_exact(content, buffer_size, stats);
}

} // verus!
