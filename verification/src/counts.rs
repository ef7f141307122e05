//! The totals of a scan: how many files, directories and failures were seen.

use vstd::prelude::*;

verus! {

/// Totals as unbounded numbers: what a [`ScanResult`] stands for.
pub struct Tally {
    pub files: nat,
    pub directories: nat,
    pub errors: nat,
    pub denied: nat,
}

impl Tally {
    /// Nothing seen yet.
    pub open spec fn zero() -> Tally {
        Tally { files: 0, directories: 0, errors: 0, denied: 0 }
    }

    /// Field by field sum.
    pub open spec fn plus(self, other: Tally) -> Tally {
        Tally {
            files: self.files + other.files,
            directories: self.directories + other.directories,
            errors: self.errors + other.errors,
            denied: self.denied + other.denied,
        }
    }

    /// No field of `self` is above the same field of `other`.
    pub open spec fn le(self, other: Tally) -> bool {
        &&& self.files <= other.files
        &&& self.directories <= other.directories
        &&& self.errors <= other.errors
        &&& self.denied <= other.denied
    }

    /// Every field can be held in a `usize`.
    pub open spec fn fits(self) -> bool {
        &&& self.files <= usize::MAX
        &&& self.directories <= usize::MAX
        &&& self.errors <= usize::MAX
        &&& self.denied <= usize::MAX
    }

    /// The sum of a sequence of totals, taken from the left.
    pub open spec fn total_of(parts: Seq<Tally>) -> Tally
        decreases parts.len(),
    {
        if parts.len() == 0 {
            Tally::zero()
        } else {
            Tally::total_of(parts.drop_last()).plus(parts.last())
        }
    }
}

/// What one directory, or a whole scan so far, has contributed.
#[derive(Clone, Copy, Debug, PartialEq, Eq, Structural)]
pub struct ScanResult {
    pub file_count: usize,
    pub directory_count: usize,
    pub error_count: usize,
    pub permission_denied_count: usize,
}

impl View for ScanResult {
    type V = Tally;

    open spec fn view(&self) -> Tally {
        Tally {
            files: self.file_count as nat,
            directories: self.directory_count as nat,
            errors: self.error_count as nat,
            denied: self.permission_denied_count as nat,
        }
    }
}

impl Default for ScanResult {
    fn default() -> (r: ScanResult)
        ensures
            r@ == Tally::zero(),
    {
        ScanResult { file_count: 0, directory_count: 0, error_count: 0, permission_denied_count: 0 }
    }
}

impl ScanResult {
    /// Whether `other` can be added without leaving the range of `usize`.
    pub fn can_add(&self, other: &ScanResult) -> (ok: bool)
        ensures
            ok == self@.plus(other@).fits(),
    {
        other.file_count <= usize::MAX - self.file_count
            && other.directory_count <= usize::MAX - self.directory_count
            && other.error_count <= usize::MAX - self.error_count
            && other.permission_denied_count <= usize::MAX - self.permission_denied_count
    }

    /// Merges `other` into `self`: every field grows by the same field of `other`.
    pub fn add_assign(&mut self, other: ScanResult)
        requires
            old(self)@.plus(other@).fits(),
        ensures
            final(self)@ == old(self)@.plus(other@),
            old(self)@.le(final(self)@),
    {
        self.file_count = self.file_count + other.file_count;
        self.directory_count = self.directory_count + other.directory_count;
        self.error_count = self.error_count + other.error_count;
        self.permission_denied_count = self.permission_denied_count + other.permission_denied_count;
    }
}

} // verus!
