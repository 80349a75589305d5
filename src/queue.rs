use vstd::prelude::*;

use crate::files::SourceFile;

verus! {

/// Sum of the sizes of `files`.
pub open spec fn sum_sizes(files: Seq<SourceFile>) -> int
    decreases files.len(),
{
    if files.len() == 0 {
        0
    } else {
        sum_sizes(files.drop_last()) + files.last().size
    }
}

/// The file a take from a queue holding `pending` hands out: the last one, if any.
pub open spec fn next_of(pending: Seq<SourceFile>) -> Option<SourceFile> {
    if pending.len() == 0 {
        None
    } else {
        Some(pending.last())
    }
}

/// What a queue holding `pending` holds after one take.
pub open spec fn rest_of(pending: Seq<SourceFile>) -> Seq<SourceFile> {
    if pending.len() == 0 {
        pending
    } else {
        pending.drop_last()
    }
}

/// The results of `k` successive takes from a queue holding `pending`, whichever
/// workers make them.
pub open spec fn takes(pending: Seq<SourceFile>, k: nat) -> Seq<Option<SourceFile>>
    decreases k,
{
    if k == 0 {
        Seq::empty()
    } else {
        seq![next_of(pending)] + takes(rest_of(pending), (k - 1) as nat)
    }
}

/// The files waiting to be copied. Workers share it behind one lock; each take removes
/// one file for good, so no two takes hand out the same entry.
pub struct WorkQueue {
    files: Vec<SourceFile>,
}

impl View for WorkQueue {
    type V = Seq<SourceFile>;

    closed spec fn view(&self) -> Seq<SourceFile> {
        self.files@
    }
}

impl WorkQueue {
    /// A queue holding `files`, filled before any worker starts.
    pub fn new(files: Vec<SourceFile>) -> (r: WorkQueue)
        ensures
            r@ == files@,
    {
        WorkQueue { files }
    }

    /// Number of files still waiting.
    pub fn len(&self) -> (r: usize)
        ensures
            r == self@.len(),
    {
        self.files.len()
    }

    /// Removes and returns the next file to copy, or `None` once the queue is empty.
    pub fn take_next(&mut self) -> (r: Option<SourceFile>)
        ensures
            r == next_of(old(self)@),
            final(self)@ == rest_of(old(self)@),
    {
        self.files.pop()
    }

    /// Sum of the sizes of the waiting files, or `None` when it does not fit in a `u64`.
    pub fn total_size(&self) -> (r: Option<u64>)
        ensures
            sum_sizes(self@) <= u64::MAX ==> r == Some(sum_sizes(self@) as u64),
            sum_sizes(self@) > u64::MAX ==> r is None,
    {
        let mut total: u64 = 0;
        let mut i: usize = 0;
        while i < self.files.len()
            invariant
                i <= self.files.len(),
                total == sum_sizes(self.files@.take(i as int)),
            decreases self.files.len() - i,
        {
            assert(self.files@.take(i + 1).drop_last() =~= self.files@.take(i as int));
            let size = self.files[i].size;
            if size > u64::MAX - total {
                proof {
                    lemma_sum_sizes_grows(self.files@, (i + 1) as nat);
                }
                return None;
            }
            total = total + size;
            i = i + 1;
        }
        assert(self.files@.take(i as int) =~= self.files@);
        Some(total)
    }
}

proof fn lemma_sum_sizes_grows(files: Seq<SourceFile>, k: nat)
    requires
        k <= files.len(),
    ensures
        sum_sizes(files.take(k as int)) <= sum_sizes(files),
    decreases files.len() - k,
{
    if k < files.len() {
        lemma_sum_sizes_grows(files, k + 1);
        assert(files.take((k + 1) as int).drop_last() =~= files.take(k as int));
    } else {
        assert(files.take(k as int) =~= files);
    }
}

proof fn lemma_takes_in_order(pending: Seq<SourceFile>, k: nat)
    ensures
        takes(pending, k).len() == k,
        forall|j: int|
            0 <= j < k ==> #[trigger] takes(pending, k)[j] == if j < pending.len() {
                Some(pending[pending.len() - 1 - j])
            } else {
                None::<SourceFile>
            },
    decreases k,
{
    if k > 0 {
        let rest = rest_of(pending);
        lemma_takes_in_order(rest, (k - 1) as nat);
        assert forall|j: int| 0 <= j < k implies #[trigger] takes(pending, k)[j] == if j
            < pending.len() {
            Some(pending[pending.len() - 1 - j])
        } else {
            None::<SourceFile>
        } by {
            if j > 0 {
                assert(takes(pending, k)[j] == takes(rest, (k - 1) as nat)[j - 1]);
            }
        }
    }
}

/// However many workers share the queue and however their takes interleave, the takes
/// from a queue filled with `files` hand out each entry exactly once: the `i`-th take
/// returns the entry at position `files.len() - 1 - i`, a different one for each take,
/// so the first `files.len()` takes return all of them, and every take after that
/// returns `None`.
pub proof fn lemma_each_file_taken_once(files: Seq<SourceFile>, k: nat)
    ensures
        takes(files, k).len() == k,
        forall|i: int|
            0 <= i < k && i < files.len() ==> #[trigger] takes(files, k)[i] == Some(
                files[files.len() - 1 - i],
            ),
        forall|i: int| files.len() <= i < k ==> #[trigger] takes(files, k)[i] is None,
        forall|p: int|
            0 <= p < files.len() && files.len() <= k ==> takes(files, k).contains(
                Some(#[trigger] files[p]),
            ),
{
    lemma_takes_in_order(files, k);
    assert forall|p: int| 0 <= p < files.len() && files.len() <= k implies takes(
        files,
        k,
    ).contains(Some(#[trigger] files[p])) by {
        let i = files.len() - 1 - p;
        assert(takes(files, k)[i] == Some(files[p]));
    }
}

} // verus!
