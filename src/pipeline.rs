//! The worker pool's size, the aggregator's tally, and the cleanup rule for
//! directories.
use vstd::prelude::*;
use crate::worker::FileStatus;

verus! {

/// One more, unless already at the largest count.
pub open spec fn bump(n: usize) -> usize {
    if n < usize::MAX {
        (n + 1) as usize
    } else {
        n
    }
}

/// Pool size: the requested count, else the available parallelism less one
/// (4 when unknown), and never less than one.
pub open spec fn pool_size(requested: Option<usize>, available: Option<usize>) -> usize {
    let n: usize = match requested {
        Some(n) => n,
        None => match available {
            Some(a) => if a > 0 {
                (a - 1) as usize
            } else {
                0
            },
            None => 3,
        },
    };
    if n < 1 {
        1
    } else {
        n
    }
}

/// How many worker threads to use.
pub fn worker_count(requested: Option<usize>, available: Option<usize>) -> (r: usize)
    ensures
        r == pool_size(requested, available),
        r >= 1,
{
    let n: usize = match requested {
        Some(n) => n,
        None => match available {
            Some(a) => if a > 0 {
                a - 1
            } else {
                0
            },
            None => 3,
        },
    };
    if n < 1 {
        1
    } else {
        n
    }
}

/// Counts of a run's outcomes.
#[derive(Debug, Clone, Copy, PartialEq, Eq, Structural)]
pub struct WorkStats {
    pub successes: usize,
    pub skips: usize,
    pub fails: usize,
}

impl WorkStats {
    pub fn new() -> (r: WorkStats)
        ensures
            r.successes == 0 && r.skips == 0 && r.fails == 0,
    {
        WorkStats { successes: 0, skips: 0, fails: 0 }
    }

    /// Counts one file: `None` for a failure, else its status; a Skipped
    /// file counts as a skip, any other status as a success.
    pub fn record(&mut self, status: Option<FileStatus>)
        ensures
            match status {
                None => *final(self) == WorkStats { fails: bump(old(self).fails), ..*old(self) },
                Some(FileStatus::Skipped) => *final(self) == WorkStats {
                    skips: bump(old(self).skips),
                    ..*old(self)
                },
                Some(_) => *final(self) == WorkStats {
                    successes: bump(old(self).successes),
                    ..*old(self)
                },
            },
    {
        match status {
            None => {
                if self.fails < usize::MAX {
                    self.fails = self.fails + 1;
                }
            },
            Some(FileStatus::Skipped) => {
                if self.skips < usize::MAX {
                    self.skips = self.skips + 1;
                }
            },
            Some(_) => {
                if self.successes < usize::MAX {
                    self.successes = self.successes + 1;
                }
            },
        }
    }
}

/// Whether cleanup may try to remove the empty directory `dir`: any
/// directory of the destination tree but its root.
pub fn is_removable_dir(dir: &String, root: &String) -> (r: bool)
    ensures
        r == (dir@ != root@),
{
    !(*dir == *root)
}

} // verus!
