//! Finds files with identical content and folds duplicates into hardlinks of
//! one physical copy.
//!
//! The library keeps all bookkeeping of a scan: which paths share an inode,
//! which inodes share a content fingerprint, which directories are left to
//! visit, and which replacements a merge needs. Reading directories, building
//! fingerprints and touching the filesystem are left to the caller, which
//! hands the results in as plain values.
mod entry;
mod fileset;
mod scanner;
mod settings;

pub use entry::{EntryKind, EntryMeta, dir_key, is_skipped, lemma_block_boundary, lemma_symlink_skipped, order_key};
pub use fileset::{FileSet, FileSetModel};
pub use settings::{Settings, Stats};
pub use scanner::{
    AddOutcome, MergeAction, Scanner, anchor_index, bucket_slot, first_work, handed_out, has_merge_work,
    has_work, inode_slot, is_anchor, is_next_dir, lemma_dry_run_same_books, lemma_one_set_per_inode,
    lemma_sets_match_inodes, member_links, one_more_added, one_more_dupe, one_more_skipped, views,
};
