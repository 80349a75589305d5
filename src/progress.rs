use vstd::prelude::*;

verus! {

/// The counters that all workers share and the presentation layer polls.
#[derive(Clone, Copy, Debug)]
pub struct CopyStats {
    /// Sum of the sizes of all source files, fixed before copying starts.
    pub total_expected: u64,
    /// Bytes actually written to destinations.
    pub bytes_copied: u64,
    /// Bytes accounted for: those written plus the sizes of skipped files.
    pub bytes_done: u64,
    /// Files completed, copied or skipped.
    pub files_copied: u64,
}

impl CopyStats {
    /// The counters after `n` more bytes were written.
    pub open spec fn with_bytes(self, n: nat) -> CopyStats {
        CopyStats {
            total_expected: self.total_expected,
            bytes_copied: (self.bytes_copied + n) as u64,
            bytes_done: (self.bytes_done + n) as u64,
            files_copied: self.files_copied,
        }
    }

    /// The counters after one more file was completed.
    pub open spec fn with_file(self) -> CopyStats {
        CopyStats {
            total_expected: self.total_expected,
            bytes_copied: self.bytes_copied,
            bytes_done: self.bytes_done,
            files_copied: (self.files_copied + 1) as u64,
        }
    }

    /// The counters after a file of `size` bytes was skipped: its size is accounted for
    /// without being written, and it counts as completed.
    pub open spec fn with_skip(self, size: nat) -> CopyStats {
        CopyStats {
            total_expected: self.total_expected,
            bytes_copied: self.bytes_copied,
            bytes_done: (self.bytes_done + size) as u64,
            files_copied: (self.files_copied + 1) as u64,
        }
    }

    /// Counters for a run that expects `total_expected` bytes, with nothing done yet.
    pub fn new(total_expected: u64) -> (r: CopyStats)
        ensures
            r.total_expected == total_expected,
            r.bytes_copied == 0,
            r.bytes_done == 0,
            r.files_copied == 0,
    {
        CopyStats { total_expected, bytes_copied: 0, bytes_done: 0, files_copied: 0 }
    }

    /// Records `n` bytes written to a destination.
    pub fn add_bytes(&mut self, n: u64)
        requires
            old(self).bytes_copied + n <= u64::MAX,
            old(self).bytes_done + n <= u64::MAX,
        ensures
            *final(self) == old(self).with_bytes(n as nat),
    {
        self.bytes_copied = self.bytes_copied + n;
        self.bytes_done = self.bytes_done + n;
    }

    /// Records one more completed file.
    pub fn increment_files(&mut self)
        requires
            old(self).files_copied < u64::MAX,
        ensures
            *final(self) == old(self).with_file(),
    {
        self.files_copied = self.files_copied + 1;
    }

    /// Records a skipped file of `size` bytes.
    pub fn record_skip(&mut self, size: u64)
        requires
            old(self).bytes_done + size <= u64::MAX,
            old(self).files_copied < u64::MAX,
        ensures
            *final(self) == old(self).with_skip(size as nat),
    {
        self.bytes_done = self.bytes_done + size;
        self.files_copied = self.files_copied + 1;
    }

    /// Whether every expected byte has been accounted for.
    pub fn is_complete(&self) -> (r: bool)
        ensures
            r == (self.bytes_done >= self.total_expected),
    {
        self.bytes_done >= self.total_expected
    }
}

} // verus!
