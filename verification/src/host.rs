//! What the host reported about the file system: the facts the configuration
//! rules read about each path they look at.
use vstd::prelude::*;

use crate::text::opt_view;

verus! {

/// What the file system said about one path.
pub struct PathInfo {
    /// The path asked about.
    pub path: String,
    /// Whether something exists at the path (`Path::exists`).
    pub exists: bool,
    /// Whether a regular file exists at the path (`Path::is_file`).
    pub is_file: bool,
    /// The canonical form of the path, where it could be computed
    /// (`Path::canonicalize`).
    pub canonical: Option<String>,
}

/// The facts gathered about a set of paths.
pub struct PathTable {
    pub entries: Vec<PathInfo>,
}

/// The first entry of `entries` about `p`.
pub open spec fn find_info(entries: Seq<PathInfo>, p: Seq<char>) -> Option<PathInfo>
    decreases entries.len(),
{
    if entries.len() == 0 {
        None
    } else if entries[0].path@ == p {
        Some(entries[0])
    } else {
        find_info(entries.drop_first(), p)
    }
}

impl PathTable {
    /// A table with no facts.
    pub fn new() -> (t: PathTable)
        ensures
            t.entries@.len() == 0,
    {
        PathTable { entries: Vec::new() }
    }

    /// Records the facts about one path; earlier facts about the same path
    /// keep precedence.
    pub fn add(&mut self, info: PathInfo)
        ensures
            final(self).entries@ == old(self).entries@.push(info),
    {
        self.entries.push(info);
    }

    /// The facts about `p`, if the table has any.
    pub open spec fn info(&self, p: Seq<char>) -> Option<PathInfo> {
        find_info(self.entries@, p)
    }

    /// Whether something exists at `p`; unknown paths count as missing.
    pub open spec fn exists_at(&self, p: Seq<char>) -> bool {
        match self.info(p) {
            Some(i) => i.exists,
            None => false,
        }
    }

    /// Whether a regular file is at `p`; unknown paths count as missing.
    pub open spec fn file_at(&self, p: Seq<char>) -> bool {
        match self.info(p) {
            Some(i) => i.is_file,
            None => false,
        }
    }

    /// The canonical form of `p`, where known.
    pub open spec fn canonical_of(&self, p: Seq<char>) -> Option<Seq<char>> {
        match self.info(p) {
            Some(i) => opt_view(i.canonical),
            None => None,
        }
    }

    /// The index of the first entry about `p`.
    fn position(&self, p: &str) -> (r: Option<usize>)
        ensures
            match r {
                Some(i) => i < self.entries@.len() && self.info(p@) == Some(self.entries@[i as int]),
                None => self.info(p@) is None,
            },
    {
        let target = p.to_string();
        let mut i: usize = 0;
        assert(self.entries@.skip(0) =~= self.entries@);
        while i < self.entries.len()
            invariant
                i <= self.entries@.len(),
                target@ == p@,
                find_info(self.entries@, p@) == find_info(self.entries@.skip(i as int), p@),
            decreases self.entries@.len() - i,
        {
            let ghost rest = self.entries@.skip(i as int);
            assert(rest.drop_first() =~= self.entries@.skip(i + 1));
            if self.entries[i].path == target {
                return Some(i);
            }
            i += 1;
        }
        assert(self.entries@.skip(i as int).len() == 0);
        None
    }

    /// Whether something exists at `p`.
    pub fn path_exists(&self, p: &str) -> (b: bool)
        ensures
            b == self.exists_at(p@),
    {
        match self.position(p) {
            Some(i) => self.entries[i].exists,
            None => false,
        }
    }

    /// Whether a regular file is at `p`.
    pub fn is_file(&self, p: &str) -> (b: bool)
        ensures
            b == self.file_at(p@),
    {
        match self.position(p) {
            Some(i) => self.entries[i].is_file,
            None => false,
        }
    }

    /// The canonical form of `p`, where known.
    pub fn canonical(&self, p: &str) -> (c: Option<String>)
        ensures
            opt_view(c) == self.canonical_of(p@),
    {
        match self.position(p) {
            Some(i) => self.entries[i].canonical.clone(),
            None => None,
        }
    }
}

/// The host facts the configuration rules read.
pub struct Host {
    /// The home directory (`$HOME`), where set.
    pub home: Option<String>,
    /// The working directory, where it could be read.
    pub cwd: Option<String>,
    /// Facts about the paths the rules look at.
    pub paths: PathTable,
}

} // verus!
