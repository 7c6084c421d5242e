//! The pattern files of a run: each file gets an id the first time it is asked for, and one
//! of them is the active one.
use vstd::prelude::*;

use crate::meta::str_eq;

verus! {

/// The first position of `p` in `paths`, compared by content.
pub open spec fn path_position(paths: Seq<Seq<char>>, p: Seq<char>) -> Option<int> {
    if exists|i: int| 0 <= i < paths.len() && paths[i] == p {
        Some(choose|i: int| 0 <= i < paths.len() && paths[i] == p)
    } else {
        None
    }
}

/// No path occurs twice.
pub open spec fn paths_distinct(paths: Seq<Seq<char>>) -> bool {
    forall|i: int, j: int| 0 <= i < paths.len() && 0 <= j < paths.len() && #[trigger] paths[i] == #[trigger] paths[j] ==> i == j
}

/// The ids of the pattern files and the active file.
pub struct MetaContext<'m> {
    id2path: Vec<&'m str>,
    active_path: Option<&'m str>,
}

impl<'m> MetaContext<'m> {
    /// The path of each id, by content.
    pub closed spec fn paths(&self) -> Seq<Seq<char>> {
        self.id2path@.map_values(|p: &'m str| p@)
    }

    /// The active path, if one is set.
    pub closed spec fn active(&self) -> Option<&'m str> {
        self.active_path
    }

    #[verifier::type_invariant]
    closed spec fn inv(self) -> bool {
        paths_distinct(self.paths())
    }

    /// No file, no active path.
    pub fn new() -> (r: Self)
        ensures
            r.paths().len() == 0,
            r.active() is None,
    {
        let r = MetaContext { id2path: Vec::new(), active_path: None };
        assert(r.paths() =~= Seq::<Seq<char>>::empty());
        r
    }

    /// The id of `path`: the one it got before, or the next one.
    pub fn request_rpl_idx(&mut self, path: &'m str) -> (r: usize)
        ensures
            paths_distinct(final(self).paths()),
            final(self).active() == old(self).active(),
            match path_position(old(self).paths(), path@) {
                Some(j) => r == j && final(self).paths() == old(self).paths(),
                None => r == old(self).paths().len() && final(self).paths() == old(self).paths().push(path@),
            },
            r < final(self).paths().len(),
            final(self).paths()[r as int] == path@,
    {
        proof {
            use_type_invariant(&*self);
        }
        let ghost old_paths = self.paths();
        for i in 0..self.id2path.len()
            invariant
                old_paths == self.paths(),
                paths_distinct(old_paths),
                forall|j: int| 0 <= j < i ==> old_paths[j] != path@,
        {
            assert(old_paths[i as int] == self.id2path@[i as int]@);
            if str_eq(self.id2path[i], path) {
                proof {
                    assert(old_paths[i as int] == path@);
                    let k = choose|k: int| 0 <= k < old_paths.len() && old_paths[k] == path@;
                    assert(old_paths[k] == old_paths[i as int]);
                }
                return i;
            }
        }
        let id = self.id2path.len();
        let mut paths: Vec<&'m str> = Vec::new();
        std::mem::swap(&mut paths, &mut self.id2path);
        paths.push(path);
        proof {
            let np = paths@.map_values(|p: &'m str| p@);
            assert(np =~= old_paths.push(path@));
            assert(paths_distinct(np)) by {
                assert forall|a: int, b: int| 0 <= a < np.len() && 0 <= b < np.len() && #[trigger] np[a] == #[trigger] np[b] implies a == b by {
                    if a < id && b < id {
                        assert(old_paths[a] == old_paths[b]);
                    }
                }
            }
        }
        self.id2path = paths;
        id
    }

    /// The path of file `id`.
    pub fn path(&self, id: usize) -> (r: &'m str)
        requires
            id < self.paths().len(),
        ensures
            r@ == self.paths()[id as int],
    {
        self.id2path[id]
    }

    /// Set the active path.
    pub fn set_active_path(&mut self, path: Option<&'m str>)
        ensures
            final(self).active() == path,
            final(self).paths() == old(self).paths(),
    {
        proof {
            use_type_invariant(&*self);
        }
        self.active_path = path;
    }

    /// The active path.
    pub fn get_active_path(&self) -> (r: &'m str)
        requires
            self.active() is Some,
        ensures
            r == self.active()->Some_0,
    {
        self.active_path.unwrap()
    }
}

} // verus!
