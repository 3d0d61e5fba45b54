use kriller::{anchor_index, order_key, AddOutcome, EntryKind, EntryMeta, FileSet, MergeAction, Scanner, Stats};

fn meta(kind: EntryKind, ino: u64, size: u64, nlink: u64) -> EntryMeta {
    EntryMeta { kind, dev: 1, ino, size, blksize: 4096, nlink }
}

fn file(ino: u64, size: u64, nlink: u64) -> EntryMeta {
    meta(EntryKind::File, ino, size, nlink)
}

/// One action of a merge: (dst, src, linked for real).
type Step = (String, String, bool);

/// Adds an entry, hands over its fingerprint when asked, and carries out any
/// merge as if every replacement succeeded.
fn feed(s: &mut Scanner, path: &str, m: EntryMeta, key: &[u8]) -> (AddOutcome, Vec<Step>) {
    let out = s.add(path.to_string(), m);
    let mut steps = Vec::new();
    if out == AddOutcome::NewFile && s.classify(key.to_vec()) {
        while let Some(action) = s.next_action() {
            match action {
                MergeAction::Report { dst, src } => steps.push((dst, src, false)),
                MergeAction::Link { dst, src } => steps.push((dst, src, true)),
            }
            s.settle(true);
        }
    }
    (out, steps)
}

fn sets_with_paths(s: &Scanner) -> Vec<Vec<String>> {
    s.dupes().into_iter().filter(|f| !f.paths.is_empty()).map(|f| f.paths).collect()
}

#[test]
fn new_scanner_defaults() {
    let s = Scanner::new();
    assert!(s.settings.ignore_small);
    assert!(!s.settings.dry_run);
    let st = s.stats();
    assert_eq!((st.added, st.skipped, st.dupes, st.hardlinks), (0, 0, 0, 0));
    assert!(s.is_idle());
    assert!(s.has_room());
    assert!(s.dupes().is_empty());
}

#[test]
fn stats_default_is_zero() {
    let st = Stats::default();
    assert_eq!((st.added, st.skipped, st.dupes, st.hardlinks), (0, 0, 0, 0));
    let z = Stats::zero();
    assert_eq!((z.added, z.skipped, z.dupes, z.hardlinks), (0, 0, 0, 0));
}

#[test]
fn added_plus_skipped_counts_non_directories() {
    let mut s = Scanner::new();
    feed(&mut s, "/r", meta(EntryKind::Directory, 2, 0, 2), b"");
    feed(&mut s, "/r/link", meta(EntryKind::Symlink, 3, 10, 1), b"");
    feed(&mut s, "/r/fifo", meta(EntryKind::Other, 4, 0, 1), b"");
    feed(&mut s, "/r/empty", file(5, 0, 1), b"");
    feed(&mut s, "/r/small", file(6, 10, 1), b"s");
    feed(&mut s, "/r/big", file(7, 5000, 1), b"b");
    feed(&mut s, "/r/sub", meta(EntryKind::Directory, 8, 0, 2), b"");
    let st = s.stats();
    assert_eq!(st.added + st.skipped, 5);
    assert_eq!(st.added, 1);
    assert_eq!(st.skipped, 4);
}

#[test]
fn hardlinks_share_one_set() {
    let mut s = Scanner::new();
    let (o1, _) = feed(&mut s, "/a", file(10, 8192, 3), b"k");
    let (o2, _) = feed(&mut s, "/b", file(10, 8192, 3), b"k");
    let (o3, _) = feed(&mut s, "/c", file(10, 8192, 3), b"k");
    assert_eq!(o1, AddOutcome::NewFile);
    assert_eq!(o2, AddOutcome::Hardlink);
    assert_eq!(o3, AddOutcome::Hardlink);
    let st = s.stats();
    assert_eq!(st.hardlinks, 2);
    assert_eq!(st.added, 3);
    assert_eq!(st.dupes, 0);
    let sets = s.dupes();
    assert_eq!(sets.len(), 1);
    assert_eq!(sets[0].paths, vec!["/a".to_string(), "/b".to_string(), "/c".to_string()]);
    assert_eq!(sets[0].links(), 3);
}

#[test]
fn same_inode_on_other_device_is_another_file() {
    let mut s = Scanner::new();
    feed(&mut s, "/a", file(10, 8192, 1), b"x");
    let m = EntryMeta { kind: EntryKind::File, dev: 2, ino: 10, size: 8192, blksize: 4096, nlink: 1 };
    let (o, _) = feed(&mut s, "/mnt/a", m, b"y");
    assert_eq!(o, AddOutcome::NewFile);
    assert_eq!(s.dupes().len(), 2);
    assert_eq!(s.stats().hardlinks, 0);
}

#[test]
fn block_size_boundary() {
    let mut s = Scanner::new();
    assert_eq!(feed(&mut s, "/one_block", file(20, 4096, 1), b"1").0, AddOutcome::NewFile);
    assert_eq!(feed(&mut s, "/under", file(21, 4095, 1), b"2").0, AddOutcome::Skipped);
    assert_eq!(feed(&mut s, "/empty", file(22, 0, 1), b"3").0, AddOutcome::Skipped);
    s.settings.ignore_small = false;
    assert_eq!(feed(&mut s, "/under2", file(23, 4095, 1), b"4").0, AddOutcome::NewFile);
    assert_eq!(feed(&mut s, "/empty2", file(24, 0, 1), b"5").0, AddOutcome::Skipped);
    assert_eq!(feed(&mut s, "/tiny", file(25, 1, 1), b"6").0, AddOutcome::NewFile);
    let st = s.stats();
    assert_eq!((st.added, st.skipped), (3, 3));
}

#[test]
fn symlink_skipped_even_when_duplicate() {
    let mut s = Scanner::new();
    feed(&mut s, "/a", file(30, 8192, 1), b"same");
    let (o, steps) = feed(&mut s, "/link", meta(EntryKind::Symlink, 31, 8192, 1), b"same");
    assert_eq!(o, AddOutcome::Skipped);
    assert!(steps.is_empty());
    s.settings.ignore_small = false;
    assert_eq!(feed(&mut s, "/link2", meta(EntryKind::Symlink, 32, 8192, 1), b"same").0, AddOutcome::Skipped);
    assert_eq!(s.stats().dupes, 0);
    assert_eq!(s.stats().skipped, 2);
}

#[test]
fn anchor_index_picks_most_links() {
    assert_eq!(anchor_index(&vec![1, 5, 2]), 1);
    assert_eq!(anchor_index(&vec![3, 3, 1]), 0);
    assert_eq!(anchor_index(&vec![1, 2, 2]), 1);
    assert_eq!(anchor_index(&vec![7]), 0);
}

#[test]
fn anchor_is_file_with_most_links() {
    let mut s = Scanner::new();
    let (_, st1) = feed(&mut s, "/one", file(40, 8192, 1), b"c");
    assert!(st1.is_empty());
    let (_, st2) = feed(&mut s, "/five", file(41, 8192, 5), b"c");
    assert_eq!(st2, vec![("/one".to_string(), "/five".to_string(), true)]);
    let (_, st3) = feed(&mut s, "/two", file(42, 8192, 2), b"c");
    assert_eq!(st3, vec![("/two".to_string(), "/five".to_string(), true)]);
    let sets = sets_with_paths(&s);
    assert_eq!(sets, vec![vec!["/five".to_string(), "/one".to_string(), "/two".to_string()]]);
    assert_eq!(s.stats().dupes, 2);
    assert!(s.is_idle());
}

#[test]
fn earlier_file_wins_a_tie() {
    let mut s = Scanner::new();
    feed(&mut s, "/a.txt", file(50, 4096, 1), b"k");
    let (_, steps) = feed(&mut s, "/sub/b.txt", file(51, 4096, 1), b"k");
    assert_eq!(steps, vec![("/sub/b.txt".to_string(), "/a.txt".to_string(), true)]);
}

#[test]
fn dry_run_reports_and_keeps_same_books() {
    let mut live = Scanner::new();
    let mut dry = Scanner::new();
    dry.settings.dry_run = true;
    let files = [("/x", 60, 1), ("/y", 61, 5), ("/z", 62, 2)];
    let mut live_steps = Vec::new();
    let mut dry_steps = Vec::new();
    for (p, ino, n) in files.iter() {
        live_steps.extend(feed(&mut live, p, file(*ino, 8192, *n), b"d").1);
        dry_steps.extend(feed(&mut dry, p, file(*ino, 8192, *n), b"d").1);
    }
    assert!(live_steps.iter().all(|s| s.2));
    assert!(dry_steps.iter().all(|s| !s.2));
    assert_eq!(dry_steps.len(), 2);
    let strip = |v: &Vec<Step>| v.iter().map(|s| (s.0.clone(), s.1.clone())).collect::<Vec<_>>();
    assert_eq!(strip(&live_steps), strip(&dry_steps));
    assert_eq!(sets_with_paths(&live), sets_with_paths(&dry));
}

#[test]
fn second_run_counts_hardlinks_not_dupes() {
    // After a live merge both paths name one inode; a fresh scan sees hardlinks.
    let mut s = Scanner::new();
    let (o1, st1) = feed(&mut s, "/t/a.txt", file(70, 4096, 2), b"k");
    let (o2, st2) = feed(&mut s, "/t/sub/b.txt", file(70, 4096, 2), b"k");
    assert_eq!((o1, o2), (AddOutcome::NewFile, AddOutcome::Hardlink));
    assert!(st1.is_empty() && st2.is_empty());
    let st = s.stats();
    assert_eq!((st.added, st.hardlinks, st.dupes), (2, 1, 0));
}

#[test]
fn end_to_end_two_identical_files() {
    let mut s = Scanner::new();
    assert_eq!(s.add("/t".to_string(), meta(EntryKind::Directory, 1000, 0, 3)), AddOutcome::Queued);
    assert_eq!(s.next_dir(), Some("/t".to_string()));
    let (_, a) = feed(&mut s, "/t/a.txt", file(1001, 4096, 1), b"same");
    assert!(a.is_empty());
    assert_eq!(s.add("/t/sub".to_string(), meta(EntryKind::Directory, 1002, 0, 2)), AddOutcome::Queued);
    assert_eq!(s.next_dir(), Some("/t/sub".to_string()));
    let (_, b) = feed(&mut s, "/t/sub/b.txt", file(1003, 4096, 1), b"same");
    assert_eq!(b, vec![("/t/sub/b.txt".to_string(), "/t/a.txt".to_string(), true)]);
    assert_eq!(s.next_dir(), None);
    assert_eq!(s.stats().dupes, 1);
    assert_eq!(sets_with_paths(&s), vec![vec!["/t/a.txt".to_string(), "/t/sub/b.txt".to_string()]]);
}

#[test]
fn order_key_values() {
    assert_eq!(order_key(0), u64::MAX);
    assert_eq!(order_key(255), u64::MAX);
    assert_eq!(order_key(256), u64::MAX - 1);
    assert_eq!(order_key(u64::MAX), u64::MAX - (u64::MAX >> 8));
}

#[test]
fn next_dir_takes_highest_inode_bucket_first() {
    let mut s = Scanner::new();
    s.add("/low".to_string(), meta(EntryKind::Directory, 10, 0, 2));
    s.add("/high".to_string(), meta(EntryKind::Directory, 10_000, 0, 2));
    s.add("/mid".to_string(), meta(EntryKind::Directory, 1_000, 0, 2));
    assert_eq!(s.next_dir(), Some("/high".to_string()));
    assert_eq!(s.next_dir(), Some("/mid".to_string()));
    assert_eq!(s.next_dir(), Some("/low".to_string()));
    assert_eq!(s.next_dir(), None);
}

#[test]
fn failed_link_drops_path_and_ends_merge() {
    let mut s = Scanner::new();
    feed(&mut s, "/a", file(80, 8192, 1), b"k");
    s.add("/b".to_string(), file(81, 8192, 1));
    assert!(s.classify(b"k".to_vec()));
    match s.next_action() {
        Some(MergeAction::Link { dst, src }) => {
            assert_eq!(dst, "/b");
            assert_eq!(src, "/a");
        }
        other => panic!("unexpected {:?}", other),
    }
    s.settle(false);
    assert!(s.is_idle());
    assert!(s.next_action().is_none());
    assert_eq!(sets_with_paths(&s), vec![vec!["/a".to_string()]]);
}

#[test]
fn fingerprint_failure_leaves_file_alone() {
    let mut s = Scanner::new();
    assert_eq!(s.add("/a".to_string(), file(90, 8192, 1)), AddOutcome::NewFile);
    assert!(!s.is_idle());
    s.forget_pending();
    assert!(s.is_idle());
    let (o, steps) = feed(&mut s, "/b", file(91, 8192, 1), b"k");
    assert_eq!(o, AddOutcome::NewFile);
    assert!(steps.is_empty());
    assert_eq!(s.stats().dupes, 0);
}

#[test]
fn fileset_basics() {
    let mut f = FileSet::new("/p".to_string(), 4);
    assert_eq!(f.links(), 4);
    f.push("/q".to_string());
    let c = f.snapshot();
    assert_eq!(c.paths, vec!["/p".to_string(), "/q".to_string()]);
    assert_eq!(c.links, 4);
}
