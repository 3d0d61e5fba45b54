use vstd::prelude::*;
use crate::entry::{EntryKind, EntryMeta, is_skipped, dir_key, order_key};
use crate::fileset::{FileSet, FileSetModel};
use crate::settings::{Settings, Stats};

verus! {

/// A directory waiting to be read, with its queue key.
#[derive(Debug)]
struct QueuedDir {
    key: u64,
    path: String,
}

/// The sets that share one content fingerprint.
#[derive(Debug)]
struct Bucket {
    key: Vec<u8>,
    members: Vec<usize>,
}

/// A merge under way: the bucket it folds and the set it folds into.
#[derive(Debug, Copy, Clone)]
struct MergeJob {
    bucket: usize,
    anchor: usize,
}

/// How `Scanner::add` classified an entry.
#[derive(Debug, Copy, Clone, PartialEq, Eq, Structural)]
pub enum AddOutcome {
    /// A directory, queued to be read.
    Queued,
    /// Left out of the scan.
    Skipped,
    /// One more path of an inode already known.
    Hardlink,
    /// The first path of a new inode: its fingerprint is wanted next.
    NewFile,
}

/// One replacement of a merge, for the caller to carry out.
#[derive(Debug)]
pub enum MergeAction {
    /// Dry run: `dst` duplicates `src` and would become a hardlink of it.
    Report { dst: String, src: String },
    /// Replace `dst` by a hardlink of `src`.
    Link { dst: String, src: String },
}

/// The position of an inode in the index, if it is there.
pub open spec fn inode_slot(inodes: Seq<(u64, u64)>, id: (u64, u64)) -> Option<int> {
    if exists|i: int| 0 <= i < inodes.len() && inodes[i] == id {
        Some(choose|i: int| 0 <= i < inodes.len() && inodes[i] == id)
    } else {
        None
    }
}

/// The position of the bucket of a fingerprint, if there is one.
pub open spec fn bucket_slot(content: Seq<(Seq<u8>, Seq<usize>)>, key: Seq<u8>) -> Option<int> {
    if exists|i: int| 0 <= i < content.len() && content[i].0 == key {
        Some(choose|i: int| 0 <= i < content.len() && content[i].0 == key)
    } else {
        None
    }
}

/// Position `a` holds the largest count, and no earlier position holds as
/// large a one.
pub open spec fn is_anchor(links: Seq<u64>, a: int) -> bool {
    &&& 0 <= a < links.len()
    &&& forall|j: int| 0 <= j < links.len() ==> links[j] <= links[a]
    &&& forall|j: int| 0 <= j < a ==> links[j] < links[a]
}

/// The recorded link counts of the given sets.
pub open spec fn member_links(sets: Seq<FileSetModel>, members: Seq<usize>) -> Seq<u64> {
    members.map_values(|h: usize| sets[h as int].links)
}

/// Member `k` of a bucket still has paths to fold into the anchor.
pub open spec fn has_work(sets: Seq<FileSetModel>, members: Seq<usize>, anchor: int, k: int) -> bool {
    &&& 0 <= k < members.len()
    &&& members[k] != anchor
    &&& sets[members[k] as int].paths.len() > 0
}

/// Member `k` is the first one with paths to fold.
pub open spec fn first_work(sets: Seq<FileSetModel>, members: Seq<usize>, anchor: int, k: int) -> bool {
    &&& has_work(sets, members, anchor, k)
    &&& forall|j: int| 0 <= j < k ==> !has_work(sets, members, anchor, j)
}

/// The counters after one more skipped entry.
pub open spec fn one_more_skipped(s: Stats) -> Stats {
    Stats { skipped: (s.skipped + 1) as usize, ..s }
}

/// The counters after one more duplicate found.
pub open spec fn one_more_dupe(s: Stats) -> Stats {
    Stats { dupes: (s.dupes + 1) as usize, ..s }
}

/// The counters after one more regular file, new or a hardlink.
pub open spec fn one_more_added(s: Stats, hardlink: bool) -> Stats {
    Stats {
        added: (s.added + 1) as usize,
        hardlinks: if hardlink { (s.hardlinks + 1) as usize } else { s.hardlinks },
        ..s
    }
}

/// A merge over bucket `b` into set `a` has a source path and a path to
/// fold.
pub open spec fn has_merge_work(s: Scanner, b: int, a: int) -> bool {
    &&& s.file_sets()[a].paths.len() > 0
    &&& exists|k: int| has_work(s.file_sets(), s.content()[b].1, a, k)
}

/// One step of a merge over bucket `b` into set `a`: the first path of the
/// first member `k` with work leaves its set and is handed out, to be
/// reported in a dry run and linked otherwise.
pub open spec fn handed_out(pre: Scanner, post: Scanner, r: Option<MergeAction>, b: int, a: int, k: int) -> bool {
    let h = pre.content()[b].1[k] as int;
    let dst = pre.file_sets()[h].paths[0];
    let src = pre.file_sets()[a].paths[0];
    &&& first_work(pre.file_sets(), pre.content()[b].1, a, k)
    &&& post.file_sets() == pre.file_sets().update(
        h,
        (FileSetModel { paths: pre.file_sets()[h].paths.drop_first(), links: pre.file_sets()[h].links }),
    )
    &&& post.in_flight() == Some(dst)
    &&& post.merge_job() == pre.merge_job()
    &&& r == Some(
        if pre.config().dry_run {
            MergeAction::Report { dst, src }
        } else {
            MergeAction::Link { dst, src }
        },
    )
}

/// Position `i` of the queue holds a smallest key, that is a directory of
/// the highest inode bucket.
pub open spec fn is_next_dir(queue: Seq<(u64, String)>, i: int) -> bool {
    &&& 0 <= i < queue.len()
    &&& forall|j: int| 0 <= j < queue.len() ==> queue[i].0 <= queue[j].0
}

/// What each set of a sequence holds.
pub open spec fn views(sets: Seq<FileSet>) -> Seq<FileSetModel> {
    sets.map_values(|s: FileSet| s@)
}

/// Whether two byte strings are equal.
fn same_bytes(a: &Vec<u8>, b: &Vec<u8>) -> (r: bool)
    ensures
        r == (a@ == b@),
{
    if a.len() != b.len() {
        return false;
    }
    let mut i: usize = 0;
    while i < a.len()
        invariant
            a@.len() == b@.len(),
            i <= a@.len(),
            forall|j: int| 0 <= j < i ==> a@[j] == b@[j],
        decreases a@.len() - i,
    {
        if a[i] != b[i] {
            return false;
        }
        i += 1;
    }
    proof {
        assert(a@ =~= b@);
    }
    true
}

/// Position of the set that a count of hardlinks elects to anchor a merge:
/// the largest count, the earliest of equal ones.
pub fn anchor_index(links: &Vec<u64>) -> (r: usize)
    requires
        links@.len() > 0,
    ensures
        is_anchor(links@, r as int),
{
    let mut best: usize = 0;
    let mut i: usize = 1;
    while i < links.len()
        invariant
            1 <= i <= links@.len(),
            is_anchor(links@.subrange(0, i as int), best as int),
        decreases links@.len() - i,
    {
        if links[i] > links[best] {
            best = i;
        }
        i += 1;
    }
    proof {
        assert(links@.subrange(0, i as int) =~= links@);
    }
    best
}

/// The scanning and merging engine.
///
/// The caller feeds it entries with `add`, a fingerprint for each new inode
/// with `classify`, directories to read from `next_dir`, and carries out the
/// replacements that `next_action` asks for, confirming each with `settle`.
#[derive(Debug)]
pub struct Scanner {
    pub settings: Settings,
    stats: Stats,
    /// One set per inode; set `i` belongs to inode `inodes[i]`.
    sets: Vec<FileSet>,
    inodes: Vec<(u64, u64)>,
    /// Content index: fingerprint to the sets that share it.
    buckets: Vec<Bucket>,
    to_scan: Vec<QueuedDir>,
    /// The new set that waits for its fingerprint.
    pending: Option<usize>,
    job: Option<MergeJob>,
    /// The path of the replacement handed out and not yet settled.
    moving: Option<String>,
}

impl Scanner {
    /// The options in force.
    pub closed spec fn config(&self) -> Settings {
        self.settings
    }

    /// The counters.
    pub closed spec fn counters(&self) -> Stats {
        self.stats
    }

    /// The file sets, by handle.
    pub closed spec fn file_sets(&self) -> Seq<FileSetModel> {
        views(self.sets@)
    }

    /// The (device, inode) pair of each set.
    pub closed spec fn inodes(&self) -> Seq<(u64, u64)> {
        self.inodes@
    }

    /// The content index: each fingerprint with the handles of its sets.
    pub closed spec fn content(&self) -> Seq<(Seq<u8>, Seq<usize>)> {
        self.buckets@.map_values(|b: Bucket| (b.key@, b.members@))
    }

    /// The directories left to read, with their keys.
    pub closed spec fn queue(&self) -> Seq<(u64, String)> {
        self.to_scan@.map_values(|d: QueuedDir| (d.key, d.path))
    }

    /// The new set whose fingerprint is awaited.
    pub closed spec fn pending_file(&self) -> Option<int> {
        match self.pending {
            Some(h) => Some(h as int),
            None => None,
        }
    }

    /// The merge under way: its bucket and its anchor set.
    pub closed spec fn merge_job(&self) -> Option<(int, int)> {
        match self.job {
            Some(j) => Some((j.bucket as int, j.anchor as int)),
            None => None,
        }
    }

    /// The path whose replacement was handed out and not settled.
    pub closed spec fn in_flight(&self) -> Option<String> {
        self.moving
    }

    /// Neither a fingerprint nor a merge is awaited.
    pub open spec fn idle(&self) -> bool {
        &&& self.pending_file() is None
        &&& self.merge_job() is None
        &&& self.in_flight() is None
    }

    /// The internal consistency of the indices.
    pub closed spec fn wf(&self) -> bool {
        &&& self.sets@.len() == self.inodes@.len()
        &&& forall|i: int, j: int|
            0 <= i < self.inodes@.len() && 0 <= j < self.inodes@.len() && i != j
                ==> self.inodes@[i] != self.inodes@[j]
        &&& forall|b: int, k: int|
            0 <= b < self.buckets@.len() && 0 <= k < self.buckets@[b].members@.len()
                ==> self.buckets@[b].members@[k] < self.sets@.len()
        &&& forall|b: int, c: int|
            0 <= b < self.buckets@.len() && 0 <= c < self.buckets@.len() && b != c
                ==> self.buckets@[b].key@ != self.buckets@[c].key@
        &&& match self.pending {
            Some(h) => h < self.sets@.len(),
            None => true,
        }
        &&& match self.job {
            Some(j) => j.bucket < self.buckets@.len() && j.anchor < self.sets@.len(),
            None => self.moving is None,
        }
    }

    /// An empty scanner: small files ignored, changes made for real.
    pub fn new() -> (r: Scanner)
        ensures
            r.wf(),
            r.idle(),
            r.config().ignore_small && !r.config().dry_run,
            r.counters() == Stats::spec_zero(),
            r.file_sets().len() == 0,
            r.inodes().len() == 0,
            r.content().len() == 0,
            r.queue().len() == 0,
    {
        let r = Scanner {
            settings: Settings { ignore_small: true, dry_run: false },
            stats: Stats::zero(),
            sets: Vec::new(),
            inodes: Vec::new(),
            buckets: Vec::new(),
            to_scan: Vec::new(),
            pending: None,
            job: None,
            moving: None,
        };
        proof {
            assert(r.file_sets() =~= Seq::empty());
            assert(r.content() =~= Seq::empty());
            assert(r.queue() =~= Seq::empty());
        }
        r
    }

    /// Whether every counter can grow by one.
    pub fn has_room(&self) -> (r: bool)
        ensures
            r == self.counters().has_room(),
    {
        self.stats.added < usize::MAX && self.stats.skipped < usize::MAX && self.stats.dupes
            < usize::MAX && self.stats.hardlinks < usize::MAX
    }

    /// Whether neither a fingerprint nor a merge is awaited.
    pub fn is_idle(&self) -> (r: bool)
        ensures
            r == self.idle(),
    {
        self.pending.is_none() && self.job.is_none() && self.moving.is_none()
    }

    /// The counters.
    pub fn stats(&self) -> (r: Stats)
        ensures
            r == self.counters(),
    {
        self.stats
    }

    /// The set of the given inode, if it is known.
    fn find_inode(&self, id: (u64, u64)) -> (r: Option<usize>)
        requires
            self.wf(),
        ensures
            match r {
                Some(i) => inode_slot(self.inodes(), id) == Some(i as int),
                None => inode_slot(self.inodes(), id) is None,
            },
    {
        let mut i: usize = 0;
        while i < self.inodes.len()
            invariant
                self.wf(),
                i <= self.inodes@.len(),
                forall|j: int| 0 <= j < i ==> self.inodes@[j] != id,
            decreases self.inodes@.len() - i,
        {
            if self.inodes[i].0 == id.0 && self.inodes[i].1 == id.1 {
                proof {
                    assert(self.inodes@[i as int] == id);
                    assert(0 <= i < self.inodes@.len() && self.inodes@[i as int] == id);
                    let c = choose|j: int| 0 <= j < self.inodes@.len() && self.inodes@[j] == id;
                    assert(self.inodes@[c] == self.inodes@[i as int]);
                    assert(c == i as int);
                }
                return Some(i);
            }
            i += 1;
        }
        None
    }

    /// Takes in one entry and its metadata, as found in a directory or given
    /// as a root. Directories are queued; links, special files, empty files
    /// and, where set, files under one block are skipped; a further path of a
    /// known inode joins that inode's set; the first path of an inode gets a
    /// new set, whose fingerprint `classify` then takes.
    pub fn add(&mut self, path: String, meta: EntryMeta) -> (r: AddOutcome)
        requires
            old(self).wf(),
            old(self).idle(),
            old(self).counters().has_room(),
        ensures
            final(self).wf(),
            final(self).config() == old(self).config(),
            final(self).content() == old(self).content(),
            final(self).merge_job() is None,
            final(self).in_flight() is None,
            final(self).counters().dupes == old(self).counters().dupes,
            final(self).counters().added + final(self).counters().skipped == old(self).counters().added
                + old(self).counters().skipped + if meta.kind == EntryKind::Directory {
                0int
            } else {
                1int
            },
            meta.kind == EntryKind::Directory ==> {
                &&& r == AddOutcome::Queued
                &&& final(self).queue() == old(self).queue().push((dir_key(meta.ino), path))
                &&& final(self).counters() == old(self).counters()
                &&& final(self).file_sets() == old(self).file_sets()
                &&& final(self).inodes() == old(self).inodes()
                &&& final(self).pending_file() is None
            },
            meta.kind != EntryKind::Directory ==> final(self).queue() == old(self).queue(),
            is_skipped(meta, old(self).config().ignore_small) ==> {
                &&& r == AddOutcome::Skipped
                &&& final(self).counters() == one_more_skipped(old(self).counters())
                &&& final(self).file_sets() == old(self).file_sets()
                &&& final(self).inodes() == old(self).inodes()
                &&& final(self).pending_file() is None
            },
            meta.kind != EntryKind::Directory && !is_skipped(meta, old(self).config().ignore_small)
                ==> match inode_slot(old(self).inodes(), (meta.dev, meta.ino)) {
                Some(i) => {
                    &&& r == AddOutcome::Hardlink
                    &&& final(self).counters() == one_more_added(old(self).counters(), true)
                    &&& final(self).file_sets() == old(self).file_sets().update(
                        i,
                        (FileSetModel {
                            paths: old(self).file_sets()[i].paths.push(path),
                            links: old(self).file_sets()[i].links,
                        }),
                    )
                    &&& final(self).inodes() == old(self).inodes()
                    &&& final(self).pending_file() is None
                },
                None => {
                    &&& r == AddOutcome::NewFile
                    &&& final(self).counters() == one_more_added(old(self).counters(), false)
                    &&& final(self).file_sets() == old(self).file_sets().push(
                        (FileSetModel { paths: seq![path], links: meta.nlink }),
                    )
                    &&& final(self).inodes() == old(self).inodes().push((meta.dev, meta.ino))
                    &&& final(self).pending_file() == Some(old(self).file_sets().len() as int)
                },
            },
    {
        if meta.kind == EntryKind::Directory {
            let key = order_key(meta.ino);
            self.to_scan.push(QueuedDir { key, path });
            proof {
                assert(self.queue() =~= old(self).queue().push((dir_key(meta.ino), path)));
            }
            return AddOutcome::Queued;
        }
        let skip = match meta.kind {
            EntryKind::File => meta.size == 0 || (self.settings.ignore_small && meta.size
                < meta.blksize),
            _ => true,
        };
        if skip {
            self.stats.skipped = self.stats.skipped + 1;
            return AddOutcome::Skipped;
        }
        self.stats.added = self.stats.added + 1;
        let id = (meta.dev, meta.ino);
        match self.find_inode(id) {
            Some(i) => {
                self.stats.hardlinks = self.stats.hardlinks + 1;
                self.sets[i].push(path);
                proof {
                    assert(self.file_sets() =~= old(self).file_sets().update(
                        i as int,
                        FileSetModel {
                            paths: old(self).file_sets()[i as int].paths.push(path),
                            links: old(self).file_sets()[i as int].links,
                        },
                    ));
                }
                AddOutcome::Hardlink
            },
            None => {
                let h = self.sets.len();
                self.sets.push(FileSet::new(path, meta.nlink));
                self.inodes.push(id);
                self.pending = Some(h);
                proof {
                    assert(self.file_sets() =~= old(self).file_sets().push(
                        FileSetModel { paths: seq![path], links: meta.nlink },
                    ));
                    assert forall|i: int, j: int|
                        0 <= i < self.inodes@.len() && 0 <= j < self.inodes@.len() && i != j
                            implies self.inodes@[i] != self.inodes@[j] by {
                        if i == h as int {
                            assert(old(self).inodes@[j] != id);
                        } else if j == h as int {
                            assert(old(self).inodes@[i] != id);
                        }
                    }
                }
                AddOutcome::NewFile
            },
        }
    }

    /// The bucket of a fingerprint, if there is one.
    fn find_bucket(&self, key: &Vec<u8>) -> (r: Option<usize>)
        requires
            self.wf(),
        ensures
            match r {
                Some(b) => bucket_slot(self.content(), key@) == Some(b as int),
                None => bucket_slot(self.content(), key@) is None,
            },
    {
        let mut i: usize = 0;
        while i < self.buckets.len()
            invariant
                self.wf(),
                i <= self.buckets@.len(),
                forall|j: int| 0 <= j < i ==> self.buckets@[j].key@ != key@,
            decreases self.buckets@.len() - i,
        {
            if same_bytes(&self.buckets[i].key, key) {
                proof {
                    assert(self.content()[i as int].0 == key@);
                    let c = choose|j: int| 0 <= j < self.content().len() && self.content()[j].0 == key@;
                    assert(self.buckets@[c].key@ == self.buckets@[i as int].key@);
                    assert(c == i as int);
                }
                return Some(i);
            }
            i += 1;
        }
        proof {
            assert forall|j: int| 0 <= j < self.content().len() implies self.content()[j].0 != key@ by {
                assert(self.content()[j].0 == self.buckets@[j].key@);
            }
        }
        None
    }

    /// The recorded link counts of the members of bucket `b`.
    fn links_of_bucket(&self, b: usize) -> (r: Vec<u64>)
        requires
            self.wf(),
            b < self.content().len(),
        ensures
            r@ == member_links(self.file_sets(), self.content()[b as int].1),
    {
        let mut r: Vec<u64> = Vec::new();
        let n = self.buckets[b].members.len();
        let mut k: usize = 0;
        while k < n
            invariant
                self.wf(),
                b < self.buckets@.len(),
                n == self.buckets@[b as int].members@.len(),
                k <= n,
                r@ =~= member_links(self.file_sets(), self.buckets@[b as int].members@.subrange(0, k as int)),
            decreases n - k,
        {
            let h = self.buckets[b].members[k];
            r.push(self.sets[h].links);
            k += 1;
        }
        proof {
            assert(self.buckets@[b as int].members@.subrange(0, n as int) =~= self.buckets@[b as int].members@);
        }
        r
    }

    /// Gives up the fingerprint of the new file that `add` announced, when
    /// it could not be had: its set stays known by inode and joins no bucket.
    pub fn forget_pending(&mut self)
        requires
            old(self).wf(),
        ensures
            final(self).wf(),
            final(self).config() == old(self).config(),
            final(self).counters() == old(self).counters(),
            final(self).file_sets() == old(self).file_sets(),
            final(self).inodes() == old(self).inodes(),
            final(self).content() == old(self).content(),
            final(self).queue() == old(self).queue(),
            final(self).merge_job() == old(self).merge_job(),
            final(self).in_flight() == old(self).in_flight(),
            final(self).pending_file() is None,
    {
        self.pending = None;
    }

    /// Takes the fingerprint of the new file that `add` announced. A
    /// fingerprint seen for the first time opens a bucket; one seen before
    /// counts a duplicate, joins the bucket and starts a merge of it into the
    /// member with the most hardlinks, the earliest found of equal ones.
    /// Returns whether a merge started.
    pub fn classify(&mut self, key: Vec<u8>) -> (r: bool)
        requires
            old(self).wf(),
            old(self).pending_file() is Some,
            old(self).merge_job() is None,
            old(self).counters().dupes < usize::MAX,
        ensures
            final(self).wf(),
            final(self).config() == old(self).config(),
            final(self).file_sets() == old(self).file_sets(),
            final(self).inodes() == old(self).inodes(),
            final(self).queue() == old(self).queue(),
            final(self).pending_file() is None,
            final(self).in_flight() is None,
            match bucket_slot(old(self).content(), key@) {
                None => {
                    &&& !r
                    &&& final(self).content() == old(self).content().push(
                        (key@, seq![old(self).pending_file()->Some_0 as usize]),
                    )
                    &&& final(self).counters() == old(self).counters()
                    &&& final(self).merge_job() is None
                },
                Some(b) => {
                    &&& r
                    &&& final(self).content() == old(self).content().update(
                        b,
                        (key@, old(self).content()[b].1.push(old(self).pending_file()->Some_0 as usize)),
                    )
                    &&& final(self).counters() == one_more_dupe(old(self).counters())
                    &&& exists|a: int|
                        #![trigger is_anchor(member_links(old(self).file_sets(), final(self).content()[b].1), a)]
                        is_anchor(member_links(old(self).file_sets(), final(self).content()[b].1), a)
                            && final(self).merge_job() == Some((b, final(self).content()[b].1[a] as int))
                },
            },
    {
        let h = match self.pending {
            Some(h) => h,
            None => 0,
        };
        self.pending = None;
        match self.find_bucket(&key) {
            None => {
                let mut members: Vec<usize> = Vec::new();
                members.push(h);
                self.buckets.push(Bucket { key, members });
                proof {
                    assert(members@ =~= seq![h]);
                    assert(self.content() =~= old(self).content().push((key@, seq![h])));
                    assert forall|b: int, c: int|
                        0 <= b < self.buckets@.len() && 0 <= c < self.buckets@.len() && b != c
                            implies self.buckets@[b].key@ != self.buckets@[c].key@ by {
                        let last = old(self).buckets@.len() as int;
                        if b == last {
                            assert(old(self).content()[c].0 == old(self).buckets@[c].key@);
                        } else if c == last {
                            assert(old(self).content()[b].0 == old(self).buckets@[b].key@);
                        }
                    }
                }
                false
            },
            Some(b) => {
                self.stats.dupes = self.stats.dupes + 1;
                self.buckets[b].members.push(h);
                proof {
                    assert(self.content() =~= old(self).content().update(
                        b as int,
                        (key@, old(self).content()[b as int].1.push(h)),
                    ));
                }
                let links = self.links_of_bucket(b);
                let a = anchor_index(&links);
                let anchor = self.buckets[b].members[a];
                self.job = Some(MergeJob { bucket: b, anchor });
                proof {
                    assert(self.file_sets() == old(self).file_sets());
                    assert(is_anchor(member_links(old(self).file_sets(), self.content()[b as int].1), a as int));
                }
                true
            },
        }
    }

    /// The first member of bucket `b` with paths to fold into `anchor`.
    fn find_work(&self, b: usize, anchor: usize) -> (r: Option<usize>)
        requires
            self.wf(),
            b < self.content().len(),
        ensures
            match r {
                Some(k) => first_work(self.file_sets(), self.content()[b as int].1, anchor as int, k as int),
                None => forall|k: int| !has_work(self.file_sets(), self.content()[b as int].1, anchor as int, k),
            },
    {
        let n = self.buckets[b].members.len();
        let mut k: usize = 0;
        while k < n
            invariant
                self.wf(),
                b < self.buckets@.len(),
                n == self.buckets@[b as int].members@.len(),
                k <= n,
                forall|j: int| 0 <= j < k ==> !has_work(self.file_sets(), self.content()[b as int].1, anchor as int, j),
            decreases n - k,
        {
            let h = self.buckets[b].members[k];
            if h != anchor && self.sets[h].paths.len() > 0 {
                return Some(k);
            }
            k += 1;
        }
        None
    }

    /// Hands out the next replacement of the merge under way: the first
    /// path of the first other member that still has paths, to become a
    /// hardlink of the anchor's first path. The path leaves its set; `settle`
    /// says whether it reached the anchor's. In a dry run the replacement is
    /// only to be reported. Returns `None`, and ends the merge, when nothing
    /// is left to fold.
    pub fn next_action(&mut self) -> (r: Option<MergeAction>)
        requires
            old(self).wf(),
            old(self).pending_file() is None,
            old(self).in_flight() is None,
        ensures
            final(self).wf(),
            final(self).config() == old(self).config(),
            final(self).counters() == old(self).counters(),
            final(self).inodes() == old(self).inodes(),
            final(self).content() == old(self).content(),
            final(self).queue() == old(self).queue(),
            final(self).pending_file() is None,
            old(self).merge_job() is None ==> {
                &&& r is None
                &&& final(self).file_sets() == old(self).file_sets()
                &&& final(self).merge_job() is None
                &&& final(self).in_flight() is None
            },
            old(self).merge_job() matches Some((b, a)) ==> (!has_merge_work(*old(self), b, a) ==> {
                &&& r is None
                &&& final(self).file_sets() == old(self).file_sets()
                &&& final(self).merge_job() is None
                &&& final(self).in_flight() is None
            }),
            old(self).merge_job() matches Some((b, a)) ==> (has_merge_work(*old(self), b, a) ==> exists|k: int|
                #![trigger handed_out(*old(self), *final(self), r, b, a, k)]
                handed_out(*old(self), *final(self), r, b, a, k)),
    {
        let job = match self.job {
            Some(j) => j,
            None => {
                return None;
            },
        };
        if self.sets[job.anchor].paths.len() == 0 {
            self.job = None;
            return None;
        }
        match self.find_work(job.bucket, job.anchor) {
            None => {
                self.job = None;
                assert(old(self).merge_job() == Some((job.bucket as int, job.anchor as int)));
                None
            },
            Some(k) => {
                let h = self.buckets[job.bucket].members[k];
                let dst = self.sets[h].paths.remove(0);
                let src = self.sets[job.anchor].paths[0].clone();
                self.moving = Some(dst.clone());
                proof {
                    let fs = old(self).file_sets();
                    assert(first_work(fs, old(self).content()[job.bucket as int].1, job.anchor as int, k as int));
                    assert(h == old(self).content()[job.bucket as int].1[k as int]);
                    assert(h != job.anchor);
                    assert(dst == fs[h as int].paths[0]);
                    assert(src == fs[job.anchor as int].paths[0]);
                    assert(!(fs[job.anchor as int].paths.len() == 0));
                    assert(has_work(fs, old(self).content()[job.bucket as int].1, job.anchor as int, k as int));
                    assert(self.file_sets() =~= old(self).file_sets().update(
                        h as int,
                        FileSetModel {
                            paths: old(self).file_sets()[h as int].paths.drop_first(),
                            links: old(self).file_sets()[h as int].links,
                        },
                    ));
                }
                let ghost dst_s = dst;
                let ghost src_s = src;
                let r = if self.settings.dry_run {
                    Some(MergeAction::Report { dst, src })
                } else {
                    Some(MergeAction::Link { dst, src })
                };
                proof {
                    let fs = old(self).file_sets();
                    let mem = old(self).content()[job.bucket as int].1;
                    let hh = mem[k as int] as int;
                    assert(hh == h as int);
                    assert(self.in_flight() == Some(fs[hh].paths[0]));
                    assert(self.merge_job() == old(self).merge_job());
                    assert(r == Some(
                        if old(self).config().dry_run {
                            MergeAction::Report { dst: fs[hh].paths[0], src: fs[job.anchor as int].paths[0] }
                        } else {
                            MergeAction::Link { dst: fs[hh].paths[0], src: fs[job.anchor as int].paths[0] }
                        },
                    ));
                    assert(handed_out(*old(self), *self, r, job.bucket as int, job.anchor as int, k as int));
                    assert(old(self).merge_job() == Some((job.bucket as int, job.anchor as int)));
                    assert(!(forall|k: int| !has_work(fs, mem, job.anchor as int, k)));
                }
                r
            },
        }
    }

    /// Settles the replacement handed out last. When it was carried out (or,
    /// in a dry run, reported) its path joins the anchor's set; when it
    /// failed the path is dropped from the books, the file on disk is left as
    /// it was, and the merge ends. Paths not yet handed out stay in their
    /// sets.
    pub fn settle(&mut self, done: bool)
        requires
            old(self).wf(),
            old(self).in_flight() is Some,
            old(self).merge_job() is Some,
        ensures
            final(self).wf(),
            final(self).config() == old(self).config(),
            final(self).counters() == old(self).counters(),
            final(self).inodes() == old(self).inodes(),
            final(self).content() == old(self).content(),
            final(self).queue() == old(self).queue(),
            final(self).pending_file() == old(self).pending_file(),
            final(self).in_flight() is None,
            done ==> {
                let a = old(self).merge_job()->Some_0.1;
                &&& final(self).file_sets() == old(self).file_sets().update(
                    a,
                    (FileSetModel {
                        paths: old(self).file_sets()[a].paths.push(old(self).in_flight()->Some_0),
                        links: old(self).file_sets()[a].links,
                    }),
                )
                &&& final(self).merge_job() == old(self).merge_job()
            },
            !done ==> {
                &&& final(self).file_sets() == old(self).file_sets()
                &&& final(self).merge_job() is None
            },
    {
        let dst = match self.moving.take() {
            Some(d) => d,
            None => String::new(),
        };
        if !done {
            self.job = None;
            return;
        }
        let a = match self.job {
            Some(j) => j.anchor,
            None => 0,
        };
        self.sets[a].push(dst);
        proof {
            assert(self.file_sets() =~= old(self).file_sets().update(
                a as int,
                FileSetModel {
                    paths: old(self).file_sets()[a as int].paths.push(old(self).in_flight()->Some_0),
                    links: old(self).file_sets()[a as int].links,
                },
            ));
        }
    }

    /// Takes a queued directory with the smallest key, so that the highest
    /// inodes, assumed the most recent, are read first.
    pub fn next_dir(&mut self) -> (r: Option<String>)
        requires
            old(self).wf(),
        ensures
            final(self).wf(),
            final(self).config() == old(self).config(),
            final(self).counters() == old(self).counters(),
            final(self).file_sets() == old(self).file_sets(),
            final(self).inodes() == old(self).inodes(),
            final(self).content() == old(self).content(),
            final(self).pending_file() == old(self).pending_file(),
            final(self).merge_job() == old(self).merge_job(),
            final(self).in_flight() == old(self).in_flight(),
            old(self).queue().len() == 0 ==> r is None && final(self).queue() == old(self).queue(),
            old(self).queue().len() > 0 ==> exists|i: int|
                #![trigger is_next_dir(old(self).queue(), i)]
                is_next_dir(old(self).queue(), i) && r == Some(old(self).queue()[i].1)
                    && final(self).queue() == old(self).queue().remove(i),
    {
        if self.to_scan.len() == 0 {
            return None;
        }
        let mut best: usize = 0;
        let mut i: usize = 1;
        while i < self.to_scan.len()
            invariant
                1 <= i <= self.to_scan@.len(),
                best < i,
                forall|j: int| 0 <= j < i ==> self.to_scan@[best as int].key <= self.to_scan@[j].key,
            decreases self.to_scan@.len() - i,
        {
            if self.to_scan[i].key < self.to_scan[best].key {
                best = i;
            }
            i += 1;
        }
        let d = self.to_scan.remove(best);
        proof {
            assert(is_next_dir(old(self).queue(), best as int));
            assert(self.queue() =~= old(self).queue().remove(best as int));
        }
        Some(d.path)
    }

    /// A copy of every file set, by handle.
    pub fn dupes(&self) -> (r: Vec<FileSet>)
        ensures
            views(r@) == self.file_sets(),
    {
        let mut r: Vec<FileSet> = Vec::new();
        let mut i: usize = 0;
        while i < self.sets.len()
            invariant
                i <= self.sets@.len(),
                r@.len() == i,
                views(r@) =~= self.file_sets().subrange(0, i as int),
            decreases self.sets@.len() - i,
        {
            let c = self.sets[i].snapshot();
            proof {
                assert(c@ == self.file_sets()[i as int]);
            }
            let ghost before = r@;
            r.push(c);
            proof {
                assert(r@ == before.push(c));
                assert(views(r@)[i as int] == c@);
                assert forall|j: int| 0 <= j < i implies views(r@)[j] == views(before)[j] by {
                    assert(r@[j] == before[j]);
                }
                assert(views(r@) =~= self.file_sets().subrange(0, i as int + 1));
            }
            i += 1;
        }
        proof {
            assert(self.file_sets().subrange(0, i as int) =~= self.file_sets());
        }
        r
    }
}

/// Each inode has exactly one set: two sets never record the same
/// (device, inode) pair.
pub proof fn lemma_one_set_per_inode(s: Scanner, i: int, j: int)
    requires
        s.wf(),
        0 <= i < s.inodes().len(),
        0 <= j < s.inodes().len(),
        s.inodes()[i] == s.inodes()[j],
    ensures
        i == j,
{
}

/// The sets of a well-formed scanner are exactly the inodes it knows.
pub proof fn lemma_sets_match_inodes(s: Scanner)
    requires
        s.wf(),
    ensures
        s.file_sets().len() == s.inodes().len(),
{
}

/// A dry run keeps the same books as a live run: the same step of a merge
/// leaves the same sets and the same path in flight, and only the kind of
/// action differs, a report instead of a link.
pub proof fn lemma_dry_run_same_books(
    dry: Scanner,
    dry_after: Scanner,
    dry_action: Option<MergeAction>,
    live: Scanner,
    live_after: Scanner,
    live_action: Option<MergeAction>,
    b: int,
    a: int,
    k: int,
)
    requires
        dry.config().dry_run,
        !live.config().dry_run,
        dry.file_sets() == live.file_sets(),
        dry.content() == live.content(),
        handed_out(dry, dry_after, dry_action, b, a, k),
        handed_out(live, live_after, live_action, b, a, k),
    ensures
        dry_after.file_sets() == live_after.file_sets(),
        dry_after.in_flight() == live_after.in_flight(),
        dry_action matches Some(MergeAction::Report { .. }),
        live_action matches Some(MergeAction::Link { .. }),
{
}

} // verus!
