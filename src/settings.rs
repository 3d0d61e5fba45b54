use vstd::prelude::*;

verus! {

/// Options of a scan.
#[derive(Debug)]
pub struct Settings {
    /// Ignore files smaller than a filesystem block: merging them is unlikely
    /// to save space.
    pub ignore_small: bool,
    /// Report the merges that would happen without touching the filesystem.
    pub dry_run: bool,
}

/// Running counters of a scan.
#[derive(Debug, Copy, Clone)]
pub struct Stats {
    /// Regular files taken into account.
    pub added: usize,
    /// Entries left out: links, special files, empty or small files.
    pub skipped: usize,
    /// Times a fingerprint was seen again for a new inode.
    pub dupes: usize,
    /// Paths found to be one more hardlink of an inode already known.
    pub hardlinks: usize,
}

impl Stats {
    /// All counters at zero.
    pub open spec fn spec_zero() -> Stats {
        Stats { added: 0, skipped: 0, dupes: 0, hardlinks: 0 }
    }

    /// All counters at zero.
    pub fn zero() -> (r: Stats)
        ensures
            r == Stats::spec_zero(),
    {
        Stats { added: 0, skipped: 0, dupes: 0, hardlinks: 0 }
    }

    /// Whether each counter can still grow by one.
    pub open spec fn has_room(self) -> bool {
        &&& self.added < usize::MAX
        &&& self.skipped < usize::MAX
        &&& self.dupes < usize::MAX
        &&& self.hardlinks < usize::MAX
    }
}

impl Default for Stats {
    fn default() -> (r: Stats)
        ensures
            r.added == 0 && r.skipped == 0 && r.dupes == 0 && r.hardlinks == 0,
    {
        Stats::zero()
    }
}

} // verus!
