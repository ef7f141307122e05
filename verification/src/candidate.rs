//! A file that a walker found large enough to report.

use crate::dates::{display_time, shown_time};
use std::cmp::Ordering;
use vstd::prelude::*;

verus! {

/// What a [`Filesize`] says, as plain mathematical values.
pub struct FileView {
    pub path: Seq<char>,
    pub size: nat,
    pub modified: Seq<char>,
    pub created: Seq<char>,
    pub used: Seq<char>,
}

/// A file with its size in bytes and the days on which it was last changed,
/// created and read, already written out for display.
#[derive(Debug)]
pub struct Filesize {
    pub path: String,
    pub size: u64,
    pub modified: String,
    pub created: String,
    pub used: String,
}

impl View for Filesize {
    type V = FileView;

    open spec fn view(&self) -> FileView {
        FileView {
            path: self.path@,
            size: self.size as nat,
            modified: self.modified@,
            created: self.created@,
            used: self.used@,
        }
    }
}

impl Clone for Filesize {
    fn clone(&self) -> (copy: Filesize)
        ensures
            copy == *self,
    {
        Filesize {
            path: self.path.clone(),
            size: self.size,
            modified: self.modified.clone(),
            created: self.created.clone(),
            used: self.used.clone(),
        }
    }
}

/// Two files are equal where their sizes are: the ranking knows no other
/// order than that of sizes.
impl PartialEq for Filesize {
    fn eq(&self, other: &Filesize) -> (same: bool) {
        self.size == other.size
    }
}

impl vstd::std_specs::cmp::PartialEqSpecImpl for Filesize {
    open spec fn obeys_eq_spec() -> bool {
        true
    }

    open spec fn eq_spec(&self, other: &Filesize) -> bool {
        self.size == other.size
    }
}

impl Filesize {
    /// Orders two files by size.
    pub fn cmp(&self, other: &Filesize) -> (order: Ordering)
        ensures
            order == if self.size < other.size {
                Ordering::Less
            } else if self.size == other.size {
                Ordering::Equal
            } else {
                Ordering::Greater
            },
    {
        if self.size < other.size {
            Ordering::Less
        } else if self.size == other.size {
            Ordering::Equal
        } else {
            Ordering::Greater
        }
    }
}

/// The views of a run of files, in the same order.
pub open spec fn views(files: Seq<Filesize>) -> Seq<FileView> {
    files.map_values(|f: Filesize| f@)
}

/// The sizes of a run of files, in the same order.
pub open spec fn sizes(files: Seq<Filesize>) -> Seq<u64> {
    files.map_values(|f: Filesize| f.size)
}

/// What the file system says of a file: its path, its size in bytes, and
/// when it was last changed, created and read, each in seconds since
/// 1970-01-01 00:00:00 UTC where the file system knows it.
#[derive(Debug)]
pub struct FileStat {
    pub path: String,
    pub size: u64,
    pub modified: Option<i64>,
    pub created: Option<i64>,
    pub accessed: Option<i64>,
}

impl Filesize {
    /// The candidate for a file: its path and size as they are, and its
    /// timestamps as they are shown.
    pub fn new(stat: FileStat) -> (file: Filesize)
        ensures
            file@ == (FileView {
                path: stat.path@,
                size: stat.size as nat,
                modified: shown_time(stat.modified),
                created: shown_time(stat.created),
                used: shown_time(stat.accessed),
            }),
    {
        Filesize {
            path: stat.path,
            size: stat.size,
            modified: display_time(stat.modified),
            created: display_time(stat.created),
            used: display_time(stat.accessed),
        }
    }
}

} // verus!
