use vstd::prelude::*;

verus! {

/// All known paths of one physical file.
#[derive(Debug)]
pub struct FileSet {
    /// Paths in the order they were found; the first one is the link source
    /// when this set anchors a merge.
    pub paths: Vec<String>,
    /// The hardlink count the OS reported when the set was created.
    pub links: u64,
}

/// What a `FileSet` holds, as values.
pub struct FileSetModel {
    pub paths: Seq<String>,
    pub links: u64,
}

impl View for FileSet {
    type V = FileSetModel;

    open spec fn view(&self) -> FileSetModel {
        FileSetModel { paths: self.paths@, links: self.links }
    }
}

impl FileSet {
    /// A set that holds one path.
    pub fn new(path: String, links: u64) -> (r: FileSet)
        ensures
            r@ == (FileSetModel { paths: seq![path], links }),
    {
        let mut paths: Vec<String> = Vec::new();
        paths.push(path);
        proof {
            assert(paths@ =~= seq![path]);
        }
        FileSet { paths, links }
    }

    /// Adds one more path of the same file.
    pub fn push(&mut self, path: String)
        ensures
            final(self)@ == (FileSetModel { paths: old(self)@.paths.push(path), links: old(self).links }),
    {
        self.paths.push(path);
    }

    /// The hardlink count recorded at creation.
    pub fn links(&self) -> (r: u64)
        ensures
            r == self.links,
    {
        self.links
    }

    /// A copy of the set.
    pub fn snapshot(&self) -> (r: FileSet)
        ensures
            r@ == self@,
    {
        let mut paths: Vec<String> = Vec::new();
        let mut i: usize = 0;
        while i < self.paths.len()
            invariant
                i <= self.paths@.len(),
                paths@ =~= self.paths@.subrange(0, i as int),
            decreases self.paths@.len() - i,
        {
            paths.push(self.paths[i].clone());
            i += 1;
        }
        proof {
            assert(paths@ =~= self.paths@);
        }
        FileSet { paths, links: self.links }
    }
}

} // verus!
