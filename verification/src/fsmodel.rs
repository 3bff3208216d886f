//! The pipeline's model of the world it mutates: which filesystem paths
//! exist (shims, virtual environments, downloaded archives, user
//! targets), which interpreter directories are populated, and counters
//! for the outwardly visible effects it has performed.

use vstd::prelude::*;

use crate::strutil::str_eq;

verus! {

/// The filesystem as the specification sees it: the populated
/// interpreter-cache directory names in listing order, and the set of
/// existing paths.
pub struct SpecFs {
    pub interpreters: Seq<Seq<char>>,
    pub paths: Set<Seq<char>>,
}

/// The filesystem state the pipeline reads and writes: the names of
/// interpreter-cache directories that hold an extracted interpreter, in
/// listing order, and the paths that exist (shims, virtual environments,
/// downloaded archives, user targets).
pub struct FsModel {
    pub interpreters: Vec<String>,
    pub paths: Vec<String>,
}

impl View for FsModel {
    type V = SpecFs;

    open spec fn view(&self) -> SpecFs {
        SpecFs { interpreters: self.interpreters.deep_view(), paths: self.paths.deep_view().to_set() }
    }
}

impl FsModel {
    /// An empty filesystem.
    pub fn new() -> (r: FsModel)
        ensures
            r@.interpreters == Seq::<Seq<char>>::empty(),
            r@.paths == Set::<Seq<char>>::empty(),
    {
        let r = FsModel { interpreters: Vec::new(), paths: Vec::new() };
        proof {
            assert(r@.interpreters =~= Seq::<Seq<char>>::empty());
            assert(r@.paths =~= Set::<Seq<char>>::empty());
        }
        r
    }

    /// Does a path exist?
    pub fn path_exists(&self, p: &str) -> (r: bool)
        ensures
            r == self@.paths.contains(p@),
    {
        let n = self.paths.len();
        let mut i: usize = 0;
        while i < n
            invariant
                n == self.paths@.len(),
                0 <= i <= n,
                forall|k: int| 0 <= k < i ==> #[trigger] self.paths@[k]@ != p@,
            decreases n - i,
        {
            if str_eq(self.paths[i].as_str(), p) {
                proof {
                    assert(self.paths.deep_view()[i as int] == p@);
                }
                return true;
            }
            i = i + 1;
        }
        proof {
            assert(forall|k: int|
                0 <= k < self.paths.deep_view().len() ==> self.paths.deep_view()[k]
                    != #[trigger] p@) by {
                assert(forall|k: int|
                    0 <= k < self.paths@.len() ==> self.paths.deep_view()[k] == #[trigger] self
                        .paths@[k]@);
            }
        }
        false
    }

    /// Records that a path now exists.
    pub fn add_path(&mut self, p: String)
        ensures
            final(self)@.paths == old(self)@.paths.insert(p@),
            final(self)@.interpreters == old(self)@.interpreters,
    {
        let ghost before = self.paths.deep_view();
        self.paths.push(p);
        proof {
            broadcast use vstd::seq_lib::lemma_seq_contains_after_push;

            assert(self.paths.deep_view() =~= before.push(p@));
            assert(self.paths.deep_view().to_set() =~= before.to_set().insert(p@));
        }
    }

    /// Records that a path no longer exists. Removing an absent path
    /// changes nothing.
    pub fn remove_path(&mut self, p: &str)
        ensures
            final(self)@.paths == old(self)@.paths.remove(p@),
            final(self)@.interpreters == old(self)@.interpreters,
    {
        let ghost before = self.paths.deep_view();
        let n = self.paths.len();
        let mut kept: Vec<String> = Vec::new();
        let mut i: usize = 0;
        while i < n
            invariant
                n == self.paths@.len(),
                before == self.paths.deep_view(),
                0 <= i <= n,
                forall|a: Seq<char>|
                    #[trigger] kept.deep_view().contains(a) <==> (before.take(i as int).contains(a)
                        && a != p@),
            decreases n - i,
        {
            proof {
                broadcast use vstd::seq_lib::lemma_seq_contains_after_push;

                assert(before.take(i + 1) =~= before.take(i as int).push(before[i as int]));
            }
            if !str_eq(self.paths[i].as_str(), p) {
                let ghost kept_before = kept.deep_view();
                let item = self.paths[i].clone();
                kept.push(item);
                proof {
                    assert(kept.deep_view() =~= kept_before.push(before[i as int]));
                }
            }
            i = i + 1;
        }
        proof {
            assert(before.take(n as int) =~= before);
        }
        self.paths = kept;
        proof {
            assert(self.paths.deep_view().to_set() =~= before.to_set().remove(p@));
        }
    }

    /// Records that an interpreter directory is now populated.
    pub fn add_interpreter(&mut self, name: String)
        ensures
            final(self)@.interpreters == old(self)@.interpreters.push(name@),
            final(self)@.paths == old(self)@.paths,
    {
        let ghost before = self.interpreters.deep_view();
        self.interpreters.push(name);
        proof {
            assert(self.interpreters.deep_view() =~= before.push(name@));
        }
    }
}

/// Counts of the outwardly visible effects a pipeline run has performed.
pub struct SpecCnt {
    pub downloads: int,
    pub extractions: int,
    pub venv_creations: int,
    pub pip_installs: int,
}

/// Counters for the outwardly visible effects: archive downloads,
/// archive extractions, environment-creation subprocesses and package
/// installs.
pub struct Counters {
    pub downloads: u64,
    pub extractions: u64,
    pub venv_creations: u64,
    pub pip_installs: u64,
}

impl View for Counters {
    type V = SpecCnt;

    open spec fn view(&self) -> SpecCnt {
        SpecCnt {
            downloads: self.downloads as int,
            extractions: self.extractions as int,
            venv_creations: self.venv_creations as int,
            pip_installs: self.pip_installs as int,
        }
    }
}

impl Counters {
    /// Fresh counters.
    pub fn new() -> (r: Counters)
        ensures
            r@ == (SpecCnt { downloads: 0, extractions: 0, venv_creations: 0, pip_installs: 0 }),
    {
        Counters { downloads: 0, extractions: 0, venv_creations: 0, pip_installs: 0 }
    }

    /// Room to count further effects without overflowing.
    pub open spec fn can_count(self) -> bool {
        self.downloads < u64::MAX && self.extractions < u64::MAX && self.venv_creations < u64::MAX
            && self.pip_installs < u64::MAX
    }
}

} // verus!
