//! What a walker decides about the entries of one directory.
//!
//! Reading the directory is left to the caller. It hands over what the file
//! system said of each entry, and gets back the directory's totals and which
//! entries to forward as candidates and which to enter.

use crate::counts::{ScanResult, Tally};
use vstd::prelude::*;

verus! {

/// Why the file system refused to answer.
#[derive(Clone, Copy, Debug, PartialEq, Eq, Structural)]
pub enum Failure {
    /// Access was denied.
    PermissionDenied,
    /// Anything else: the entry vanished, the read failed.
    Other,
}

/// What kind of thing an entry is. A symbolic link is never followed: it is
/// what it is, whatever it points to.
#[derive(Clone, Copy, Debug, PartialEq, Eq, Structural)]
pub enum EntryKind {
    Directory,
    File,
    Symlink,
}

/// What the file system said of one entry of a directory.
#[derive(Clone, Copy, Debug, PartialEq, Eq, Structural)]
pub enum Probe {
    /// The entry's kind, its size in bytes and the device it lives on.
    Found { kind: EntryKind, size: u64, device: u64 },
    /// The entry could not be examined.
    Failed(Failure),
}

/// What reading a directory gave.
#[derive(Debug)]
pub enum Listing {
    /// The entries, in the order in which they were read.
    Entries(Vec<Probe>),
    /// The directory could not be read.
    Unreadable(Failure),
}

/// Which devices a scan may enter besides the one it is on.
#[derive(Debug)]
pub enum Boundary {
    /// Every directory may be entered.
    Unrestricted,
    /// A directory on another device may be entered only if that device is
    /// listed here.
    Allowed(Vec<u64>),
}

/// What a walker does with one entry.
#[derive(Clone, Copy, Debug, PartialEq, Eq, Structural)]
pub enum Verdict {
    /// A directory to enter.
    Descend,
    /// A directory on a device that the scan must not enter.
    Skip,
    /// A file to count and to forward as a candidate.
    Forward,
    /// A file to count only: it is smaller than the floor.
    Count,
    /// An entry to count as denied.
    Denied,
    /// An entry to count as an error.
    Errored,
}

impl Boundary {
    /// Whether a directory on `device` is out of bounds for a walker on
    /// `home`.
    pub open spec fn bars(&self, home: u64, device: u64) -> bool {
        match self {
            Boundary::Unrestricted => false,
            Boundary::Allowed(devices) => device != home && !devices@.contains(device),
        }
    }

    /// Whether a directory on `device` is out of bounds for a walker on
    /// `home`.
    pub fn is_barred(&self, home: u64, device: u64) -> (barred: bool)
        ensures
            barred == self.bars(home, device),
    {
        match self {
            Boundary::Unrestricted => false,
            Boundary::Allowed(devices) => {
                if device == home {
                    return false;
                }
                let mut i: usize = 0;
                while i < devices.len()
                    invariant
                        i <= devices.len(),
                        self.bars(home, device) == !devices@.contains(device),
                        forall|k: int| 0 <= k < i ==> devices@[k] != device,
                    decreases devices.len() - i,
                {
                    if devices[i] == device {
                        assert(devices@[i as int] == device);
                        assert(devices@.contains(device));
                        return false;
                    }
                    i = i + 1;
                }
                true
            },
        }
    }
}

/// The verdict on one entry for a walker on device `home` that saw `floor`.
/// A directory is entered unless it is out of bounds. A file, and a symbolic
/// link like a file, is forwarded where its size is at least the floor and
/// only counted where it is not.
pub open spec fn verdict_of(probe: Probe, floor: u64, home: u64, boundary: &Boundary) -> Verdict {
    match probe {
        Probe::Failed(Failure::PermissionDenied) => Verdict::Denied,
        Probe::Failed(Failure::Other) => Verdict::Errored,
        Probe::Found { kind: EntryKind::Directory, size, device } => if boundary.bars(
            home,
            device,
        ) {
            Verdict::Skip
        } else {
            Verdict::Descend
        },
        Probe::Found { kind, size, device } => if size >= floor {
            Verdict::Forward
        } else {
            Verdict::Count
        },
    }
}

/// What an entry with this verdict adds to its directory's totals.
pub open spec fn share_of(verdict: Verdict) -> Tally {
    match verdict {
        Verdict::Forward | Verdict::Count => Tally {
            files: 1,
            directories: 0,
            errors: 0,
            denied: 0,
        },
        Verdict::Denied => Tally { files: 0, directories: 0, errors: 0, denied: 1 },
        Verdict::Errored => Tally { files: 0, directories: 0, errors: 1, denied: 0 },
        Verdict::Descend | Verdict::Skip => Tally::zero(),
    }
}

/// What the entries `probes` add to their directory's totals.
pub open spec fn shares_of(probes: Seq<Probe>, floor: u64, home: u64, boundary: &Boundary) -> Tally
    decreases probes.len(),
{
    if probes.len() == 0 {
        Tally::zero()
    } else {
        shares_of(probes.drop_last(), floor, home, boundary).plus(
            share_of(verdict_of(probes.last(), floor, home, boundary)),
        )
    }
}

/// The positions in `probes`, in rising order, of the entries with the
/// verdict `wanted`.
pub open spec fn picked(
    probes: Seq<Probe>,
    wanted: Verdict,
    floor: u64,
    home: u64,
    boundary: &Boundary,
) -> Seq<usize>
    decreases probes.len(),
{
    if probes.len() == 0 {
        Seq::empty()
    } else {
        let before = picked(probes.drop_last(), wanted, floor, home, boundary);
        if verdict_of(probes.last(), floor, home, boundary) == wanted {
            before.push((probes.len() - 1) as usize)
        } else {
            before
        }
    }
}

/// The totals of a directory that could not be read: the directory itself,
/// and the failure.
pub open spec fn unreadable(why: Failure) -> Tally {
    match why {
        Failure::PermissionDenied => Tally { files: 0, directories: 1, errors: 0, denied: 1 },
        Failure::Other => Tally { files: 0, directories: 1, errors: 1, denied: 0 },
    }
}

/// The totals of a directory with this listing: one directory, whether or
/// not it could be read, and what its entries add.
pub open spec fn totals_of(listing: &Listing, floor: u64, home: u64, boundary: &Boundary) -> Tally {
    match listing {
        Listing::Unreadable(why) => unreadable(*why),
        Listing::Entries(probes) => Tally { files: 0, directories: 1, errors: 0, denied: 0 }.plus(
            shares_of(probes@, floor, home, boundary),
        ),
    }
}

/// The entries of a listing; none where the directory could not be read.
pub open spec fn entries_of(listing: &Listing) -> Seq<Probe> {
    match listing {
        Listing::Unreadable(_) => Seq::empty(),
        Listing::Entries(probes) => probes@,
    }
}

/// What a walker reports of one directory.
#[derive(Debug)]
pub struct DirReport {
    /// The directory's share of the totals.
    pub result: ScanResult,
    /// The positions of the entries to forward as candidates.
    pub forward: Vec<usize>,
    /// The positions of the directories to enter.
    pub descend: Vec<usize>,
    /// The positions of the directories that are out of bounds.
    pub skipped: Vec<usize>,
}

/// The verdict on one entry.
pub fn classify(probe: &Probe, floor: u64, home: u64, boundary: &Boundary) -> (verdict: Verdict)
    ensures
        verdict == verdict_of(*probe, floor, home, boundary),
{
    match probe {
        Probe::Failed(Failure::PermissionDenied) => Verdict::Denied,
        Probe::Failed(Failure::Other) => Verdict::Errored,
        Probe::Found { kind, size, device } => {
            match kind {
                EntryKind::Directory => {
                    if boundary.is_barred(home, *device) {
                        Verdict::Skip
                    } else {
                        Verdict::Descend
                    }
                },
                _ => {
                    if *size >= floor {
                        Verdict::Forward
                    } else {
                        Verdict::Count
                    }
                },
            }
        },
    }
}

/// Every entry is accounted for exactly once: it is counted as a file, as
/// denied or as an error, or it is a directory that is entered or skipped.
pub proof fn law_every_entry_once(probes: Seq<Probe>, floor: u64, home: u64, boundary: &Boundary)
    ensures
        shares_of(probes, floor, home, boundary).directories == 0,
        shares_of(probes, floor, home, boundary).files == picked(
            probes,
            Verdict::Forward,
            floor,
            home,
            boundary,
        ).len() + picked(probes, Verdict::Count, floor, home, boundary).len(),
        shares_of(probes, floor, home, boundary).denied == picked(
            probes,
            Verdict::Denied,
            floor,
            home,
            boundary,
        ).len(),
        shares_of(probes, floor, home, boundary).errors == picked(
            probes,
            Verdict::Errored,
            floor,
            home,
            boundary,
        ).len(),
        shares_of(probes, floor, home, boundary).files + shares_of(
            probes,
            floor,
            home,
            boundary,
        ).denied + shares_of(probes, floor, home, boundary).errors + picked(
            probes,
            Verdict::Descend,
            floor,
            home,
            boundary,
        ).len() + picked(probes, Verdict::Skip, floor, home, boundary).len() == probes.len(),
    decreases probes.len(),
{
    if probes.len() > 0 {
        law_every_entry_once(probes.drop_last(), floor, home, boundary);
    }
}

/// Goes through the listing of one directory for a walker on device `home`
/// that saw `floor`.
pub fn scan_dir(listing: &Listing, floor: u64, home: u64, boundary: &Boundary) -> (report:
    DirReport)
    ensures
        report.result@ == totals_of(listing, floor, home, boundary),
        report.result@.directories == 1,
        report.forward@ == picked(entries_of(listing), Verdict::Forward, floor, home, boundary),
        report.descend@ == picked(entries_of(listing), Verdict::Descend, floor, home, boundary),
        report.skipped@ == picked(entries_of(listing), Verdict::Skip, floor, home, boundary),
        listing is Entries ==> report.result@.files + report.result@.denied
            + report.result@.errors + report.descend@.len() + report.skipped@.len()
            == entries_of(listing).len(),
{
    let mut result = ScanResult {
        file_count: 0,
        directory_count: 1,
        error_count: 0,
        permission_denied_count: 0,
    };
    let mut forward: Vec<usize> = Vec::new();
    let mut descend: Vec<usize> = Vec::new();
    let mut skipped: Vec<usize> = Vec::new();
    match listing {
        Listing::Unreadable(why) => {
            match why {
                Failure::PermissionDenied => {
                    result.permission_denied_count = 1;
                },
                Failure::Other => {
                    result.error_count = 1;
                },
            }
        },
        Listing::Entries(probes) => {
            let mut i: usize = 0;
            while i < probes.len()
                invariant
                    i <= probes.len(),
                    result@ == (Tally { files: 0, directories: 1, errors: 0, denied: 0 }).plus(
                        shares_of(probes@.take(i as int), floor, home, boundary),
                    ),
                    forward@ == picked(
                        probes@.take(i as int),
                        Verdict::Forward,
                        floor,
                        home,
                        boundary,
                    ),
                    descend@ == picked(
                        probes@.take(i as int),
                        Verdict::Descend,
                        floor,
                        home,
                        boundary,
                    ),
                    skipped@ == picked(
                        probes@.take(i as int),
                        Verdict::Skip,
                        floor,
                        home,
                        boundary,
                    ),
                decreases probes.len() - i,
            {
                proof {
                    let next = probes@.take(i + 1);
                    assert(next.drop_last() =~= probes@.take(i as int));
                    assert(next.last() == probes@[i as int]);
                    law_every_entry_once(probes@.take(i as int), floor, home, boundary);
                }
                match classify(&probes[i], floor, home, boundary) {
                    Verdict::Descend => {
                        descend.push(i);
                    },
                    Verdict::Skip => {
                        skipped.push(i);
                    },
                    Verdict::Forward => {
                        result.file_count = result.file_count + 1;
                        forward.push(i);
                    },
                    Verdict::Count => {
                        result.file_count = result.file_count + 1;
                    },
                    Verdict::Denied => {
                        result.permission_denied_count = result.permission_denied_count + 1;
                    },
                    Verdict::Errored => {
                        result.error_count = result.error_count + 1;
                    },
                }
                i = i + 1;
            }
            proof {
                assert(probes@.take(i as int) =~= probes@);
                law_every_entry_once(probes@, floor, home, boundary);
            }
        },
    }
    DirReport { result, forward, descend, skipped }
}

} // verus!
