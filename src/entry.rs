use vstd::prelude::*;

verus! {

/// What kind of filesystem entry a path names, as seen without following
/// symbolic links.
#[derive(Debug, Copy, Clone, PartialEq, Eq, Structural)]
pub enum EntryKind {
    Directory,
    Symlink,
    File,
    /// Device nodes, FIFOs, sockets and the like.
    Other,
}

/// The metadata of one entry that a scan looks at.
#[derive(Debug, Copy, Clone, PartialEq, Eq, Structural)]
pub struct EntryMeta {
    pub kind: EntryKind,
    pub dev: u64,
    pub ino: u64,
    pub size: u64,
    /// The filesystem's block size for this file.
    pub blksize: u64,
    /// The number of hardlinks the inode has.
    pub nlink: u64,
}

/// Whether a scan leaves the entry out: anything but a directory or a regular
/// file, an empty file, and with `ignore_small` a file under one block.
pub open spec fn is_skipped(meta: EntryMeta, ignore_small: bool) -> bool {
    match meta.kind {
        EntryKind::Directory => false,
        EntryKind::File => meta.size == 0 || (ignore_small && meta.size < meta.blksize),
        _ => true,
    }
}

/// The queue key of a directory: its inode coarsened into buckets of 256
/// and inverted, so that taking keys smallest first visits the highest
/// inodes first.
pub open spec fn dir_key(ino: u64) -> u64 {
    (u64::MAX - ino / 256) as u64
}

/// The queue key of a directory with the given inode number.
pub fn order_key(ino: u64) -> (r: u64)
    ensures
        r == dir_key(ino),
{
    let r = !(ino >> 8u64);
    assert(r == (u64::MAX - ino / 256) as u64) by (bit_vector)
        requires
            r == !(ino >> 8u64),
    ;
    r
}

/// A file of exactly one block is kept, one byte less is skipped when small
/// files are ignored, and an empty file is skipped either way.
pub proof fn lemma_block_boundary(meta: EntryMeta, ignore_small: bool)
    requires
        meta.kind == EntryKind::File,
    ensures
        meta.size == meta.blksize && meta.blksize > 0 ==> !is_skipped(meta, ignore_small),
        meta.size + 1 == meta.blksize && meta.size > 0 && ignore_small ==> is_skipped(meta, ignore_small),
        meta.size == 0 ==> is_skipped(meta, ignore_small),
{
}

/// A symbolic link is skipped whatever it points at and whatever the options.
pub proof fn lemma_symlink_skipped(meta: EntryMeta, ignore_small: bool)
    requires
        meta.kind == EntryKind::Symlink,
    ensures
        is_skipped(meta, ignore_small),
{
}

} // verus!
