//! The settings of a scan, as the command line gives them.

use crate::walker::Failure;
use vstd::prelude::*;

verus! {

/// The minimum size where none is given.
pub const DEFAULT_MINSIZE: u64 = 0;

/// The number of entries where none is given.
pub const DEFAULT_NENTRIES: usize = 10;

/// The settings of a scan as plain mathematical values.
pub struct ArgsView {
    pub path: Seq<char>,
    pub minsize: nat,
    pub nentries: nat,
    pub index_print: bool,
    pub m_byt: bool,
    pub g_byt: bool,
}

/// The settings of a scan.
#[derive(Debug)]
pub struct Args {
    /// The directory to start from.
    pub path: String,
    /// Only files larger than this many bytes are ranked.
    pub minsize: u64,
    /// How many files are ranked, at least 1.
    pub nentries: usize,
    /// Whether lines are numbered.
    pub index_print: bool,
    /// Whether sizes are shown in Mb.
    pub m_byt: bool,
    /// Whether sizes are shown in Gb.
    pub g_byt: bool,
}

impl View for Args {
    type V = ArgsView;

    open spec fn view(&self) -> ArgsView {
        ArgsView {
            path: self.path@,
            minsize: self.minsize as nat,
            nentries: self.nentries as nat,
            index_print: self.index_print,
            m_byt: self.m_byt,
            g_byt: self.g_byt,
        }
    }
}

/// The one failure that keeps a scan from starting: its root cannot be read
/// as a directory.
#[derive(Debug)]
pub struct StartupError {
    /// The root that was asked for.
    pub path: String,
    /// What reading it gave.
    pub reason: Failure,
}

/// The unit in which sizes are shown.
#[derive(Clone, Copy, Debug, PartialEq, Eq, Structural)]
pub enum SizeUnit {
    Bytes,
    Mb,
    Gb,
}

impl SizeUnit {
    /// How many bytes make one unit.
    pub open spec fn bytes(self) -> nat {
        match self {
            SizeUnit::Bytes => 1,
            SizeUnit::Mb => 1024 * 1024,
            SizeUnit::Gb => 1024 * 1024 * 1024,
        }
    }

    /// How many bytes make one unit.
    pub fn divisor(self) -> (bytes: u64)
        ensures
            bytes == self.bytes(),
    {
        match self {
            SizeUnit::Bytes => 1,
            SizeUnit::Mb => 1_048_576,
            SizeUnit::Gb => 1_073_741_824,
        }
    }

    /// The heading of the size column.
    pub fn heading(self) -> (name: &'static str)
        ensures
            name@ == match self {
                SizeUnit::Bytes => "Bytes"@,
                SizeUnit::Mb => "Mb"@,
                SizeUnit::Gb => "Gb"@,
            },
    {
        match self {
            SizeUnit::Bytes => "Bytes",
            SizeUnit::Mb => "Mb",
            SizeUnit::Gb => "Gb",
        }
    }
}

impl Args {
    /// Makes the settings of a scan from what the command line gave and from
    /// what reading the root gave. A size or a number that was not given
    /// takes its default. At least one file is ranked: a number of entries
    /// that is given is at least 1. The scan starts if and only if the root
    /// could be read.
    pub fn parse_args(
        path: String,
        minsize: Option<u64>,
        nentries: Option<usize>,
        index_print: bool,
        m_byt: bool,
        g_byt: bool,
        root: Result<(), Failure>,
    ) -> (parsed: Result<Args, StartupError>)
        requires
            nentries matches Some(given) ==> given >= 1,
        ensures
            parsed matches Ok(args) ==> args.nentries >= 1,
            match root {
                Ok(_) => parsed matches Ok(args) && args@ == (ArgsView {
                    path: path@,
                    minsize: match minsize {
                        Some(given) => given as nat,
                        None => DEFAULT_MINSIZE as nat,
                    },
                    nentries: match nentries {
                        Some(given) => given as nat,
                        None => DEFAULT_NENTRIES as nat,
                    },
                    index_print,
                    m_byt,
                    g_byt,
                }),
                Err(why) => parsed matches Err(e) && e.path@ == path@ && e.reason == why,
            },
    {
        let args = Args {
            path,
            minsize: match minsize {
                Some(given) => given,
                None => DEFAULT_MINSIZE,
            },
            nentries: match nentries {
                Some(given) => given,
                None => DEFAULT_NENTRIES,
            },
            index_print,
            m_byt,
            g_byt,
        };
        match args.validate(root) {
            Ok(_) => Ok(args),
            Err(e) => Err(e),
        }
    }

    /// Accepts settings that rank at least one file if and only if their
    /// root could be read.
    pub fn validate(&self, root: Result<(), Failure>) -> (checked: Result<(), StartupError>)
        requires
            self.nentries >= 1,
        ensures
            match root {
                Ok(_) => checked is Ok,
                Err(why) => checked matches Err(e) && e.path@ == self.path@ && e.reason == why,
            },
    {
        match root {
            Ok(_) => Ok(()),
            Err(why) => Err(StartupError { path: self.path.clone(), reason: why }),
        }
    }

    /// The unit in which sizes are shown: Gb where it is asked for, else Mb
    /// where that is asked for, else bytes.
    pub fn unit(&self) -> (unit: SizeUnit)
        ensures
            unit == if self.g_byt {
                SizeUnit::Gb
            } else if self.m_byt {
                SizeUnit::Mb
            } else {
                SizeUnit::Bytes
            },
    {
        if self.g_byt {
            SizeUnit::Gb
        } else if self.m_byt {
            SizeUnit::Mb
        } else {
            SizeUnit::Bytes
        }
    }
}

} // verus!
