//! An in-memory destination tree: the files and directories that a
//! synchronization run reads and mutates. Its abstract state is a map from
//! segment paths to file contents together with a set of directory paths;
//! every mutating operation states exactly how it changes that state.

use crate::paths::{path_eq, path_view};
use vstd::prelude::*;

verus! {

/// The abstract state of a destination tree.
pub struct TreeModel {
    pub files: Map<Seq<Seq<u8>>, Seq<u8>>,
    pub dirs: Set<Seq<Seq<u8>>>,
}

/// Does any node (file or directory) sit at `p`?
pub open spec fn tm_exists(m: TreeModel, p: Seq<Seq<u8>>) -> bool {
    m.files.contains_key(p) || m.dirs.contains(p)
}

/// The file map described by a sequence of path/content pairs, later pairs
/// taking precedence.
pub open spec fn map_of_pairs(s: Seq<(Seq<Seq<u8>>, Seq<u8>)>) -> Map<Seq<Seq<u8>>, Seq<u8>>
    decreases s.len(),
{
    if s.len() == 0 {
        Map::empty()
    } else {
        map_of_pairs(s.drop_last()).insert(s.last().0, s.last().1)
    }
}

/// The directory set described by a sequence of paths.
pub open spec fn set_of_paths(s: Seq<Seq<Seq<u8>>>) -> Set<Seq<Seq<u8>>>
    decreases s.len(),
{
    if s.len() == 0 {
        Set::empty()
    } else {
        set_of_paths(s.drop_last()).insert(s.last())
    }
}

/// No two pairs bind the same path.
pub open spec fn unique_keys(s: Seq<(Seq<Seq<u8>>, Seq<u8>)>) -> bool {
    forall|i: int, j: int| 0 <= i < j < s.len() ==> s[i].0 != s[j].0
}

pub proof fn lemma_map_of_pairs_contains(s: Seq<(Seq<Seq<u8>>, Seq<u8>)>, k: Seq<Seq<u8>>)
    ensures
        map_of_pairs(s).contains_key(k) <==> exists|i: int| 0 <= i < s.len() && s[i].0 == k,
    decreases s.len(),
{
    if s.len() > 0 {
        lemma_map_of_pairs_contains(s.drop_last(), k);
        if map_of_pairs(s).contains_key(k) {
            if s.last().0 == k {
                assert(s[s.len() - 1].0 == k);
            } else {
                let i = choose|i: int| 0 <= i < s.drop_last().len() && s.drop_last()[i].0 == k;
                assert(s[i].0 == k);
            }
        }
        if exists|i: int| 0 <= i < s.len() && s[i].0 == k {
            let i = choose|i: int| 0 <= i < s.len() && s[i].0 == k;
            if i < s.len() - 1 {
                assert(s.drop_last()[i].0 == k);
            }
        }
    }
}

pub proof fn lemma_map_of_pairs_value(s: Seq<(Seq<Seq<u8>>, Seq<u8>)>, i: int)
    requires
        unique_keys(s),
        0 <= i < s.len(),
    ensures
        map_of_pairs(s).contains_key(s[i].0),
        map_of_pairs(s)[s[i].0] == s[i].1,
    decreases s.len(),
{
    lemma_map_of_pairs_contains(s, s[i].0);
    if i == s.len() - 1 {
    } else {
        assert(s.drop_last()[i] == s[i]);
        lemma_map_of_pairs_value(s.drop_last(), i);
        assert(s[i].0 != s.last().0);
    }
}

pub proof fn lemma_map_of_pairs_remove(s: Seq<(Seq<Seq<u8>>, Seq<u8>)>, i: int)
    requires
        unique_keys(s),
        0 <= i < s.len(),
    ensures
        map_of_pairs(s.remove(i)) == map_of_pairs(s).remove(s[i].0),
    decreases s.len(),
{
    let k = s[i].0;
    if i == s.len() - 1 {
        assert(s.remove(i) =~= s.drop_last());
        lemma_map_of_pairs_contains(s.drop_last(), k);
        assert(!map_of_pairs(s.drop_last()).contains_key(k));
        assert(map_of_pairs(s.drop_last()).insert(k, s.last().1).remove(k) =~= map_of_pairs(
            s.drop_last(),
        ));
    } else {
        assert(s.remove(i).drop_last() =~= s.drop_last().remove(i));
        assert(s.remove(i).last() == s.last());
        assert(s.drop_last()[i] == s[i]);
        lemma_map_of_pairs_remove(s.drop_last(), i);
        assert(map_of_pairs(s.remove(i)) == map_of_pairs(s.drop_last()).remove(k).insert(
            s.last().0,
            s.last().1,
        ));
        assert(s[i].0 != s.last().0);
        assert(map_of_pairs(s.drop_last()).remove(k).insert(s.last().0, s.last().1) =~= map_of_pairs(
            s.drop_last(),
        ).insert(s.last().0, s.last().1).remove(k));
    }
}

pub proof fn lemma_set_of_paths_contains(s: Seq<Seq<Seq<u8>>>, d: Seq<Seq<u8>>)
    ensures
        set_of_paths(s).contains(d) <==> exists|i: int| 0 <= i < s.len() && s[i] == d,
    decreases s.len(),
{
    if s.len() > 0 {
        lemma_set_of_paths_contains(s.drop_last(), d);
        if set_of_paths(s).contains(d) {
            if s.last() == d {
                assert(s[s.len() - 1] == d);
            } else {
                let i = choose|i: int| 0 <= i < s.drop_last().len() && s.drop_last()[i] == d;
                assert(s[i] == d);
            }
        }
        if exists|i: int| 0 <= i < s.len() && s[i] == d {
            let i = choose|i: int| 0 <= i < s.len() && s[i] == d;
            if i < s.len() - 1 {
                assert(s.drop_last()[i] == d);
            }
        }
    }
}

/// The views of a stored file sequence and directory sequence.
pub open spec fn file_pairs_view(s: Seq<(Vec<Vec<u8>>, Vec<u8>)>) -> Seq<(Seq<Seq<u8>>, Seq<u8>)> {
    s.map_values(|pr: (Vec<Vec<u8>>, Vec<u8>)| (path_view(pr.0), pr.1@))
}

pub open spec fn dir_seq_view(s: Seq<Vec<Vec<u8>>>) -> Seq<Seq<Seq<u8>>> {
    s.map_values(|d: Vec<Vec<u8>>| path_view(d))
}

/// A destination tree held in memory.
pub struct DestTree {
    files: Vec<(Vec<Vec<u8>>, Vec<u8>)>,
    dirs: Vec<Vec<Vec<u8>>>,
}

impl View for DestTree {
    type V = TreeModel;

    closed spec fn view(&self) -> TreeModel {
        TreeModel {
            files: map_of_pairs(file_pairs_view(self.files@)),
            dirs: set_of_paths(dir_seq_view(self.dirs@)),
        }
    }
}

impl DestTree {
    /// The representation stores each file path at most once.
    pub closed spec fn wf(self) -> bool {
        unique_keys(file_pairs_view(self.files@))
    }

    /// An empty destination tree.
    pub fn new() -> (r: DestTree)
        ensures
            r.wf(),
            r@.files == Map::<Seq<Seq<u8>>, Seq<u8>>::empty(),
            r@.dirs == Set::<Seq<Seq<u8>>>::empty(),
    {
        DestTree { files: Vec::new(), dirs: Vec::new() }
    }

    /// Is there a file at `p`?
    pub fn is_file(&self, p: &Vec<Vec<u8>>) -> (r: bool)
        ensures
            r == self@.files.contains_key(path_view(*p)),
    {
        let ghost fv = file_pairs_view(self.files@);
        let mut i: usize = 0;
        while i < self.files.len()
            invariant
                i <= self.files@.len(),
                fv == file_pairs_view(self.files@),
                forall|j: int| 0 <= j < i ==> fv[j].0 != path_view(*p),
            decreases self.files@.len() - i,
        {
            if path_eq(&self.files[i].0, p) {
                proof {
                    assert(fv[i as int].0 == path_view(*p));
                    lemma_map_of_pairs_contains(fv, path_view(*p));
                }
                return true;
            }
            proof {
                assert(fv[i as int].0 == path_view(self.files@[i as int].0));
            }
            i += 1;
        }
        proof {
            lemma_map_of_pairs_contains(fv, path_view(*p));
        }
        false
    }

    /// Is there a directory at `p`?
    pub fn is_dir(&self, p: &Vec<Vec<u8>>) -> (r: bool)
        ensures
            r == self@.dirs.contains(path_view(*p)),
    {
        let ghost dv = dir_seq_view(self.dirs@);
        let mut i: usize = 0;
        while i < self.dirs.len()
            invariant
                i <= self.dirs@.len(),
                dv == dir_seq_view(self.dirs@),
                forall|j: int| 0 <= j < i ==> dv[j] != path_view(*p),
            decreases self.dirs@.len() - i,
        {
            if path_eq(&self.dirs[i], p) {
                proof {
                    assert(dv[i as int] == path_view(*p));
                    lemma_set_of_paths_contains(dv, path_view(*p));
                }
                return true;
            }
            proof {
                assert(dv[i as int] == path_view(self.dirs@[i as int]));
            }
            i += 1;
        }
        proof {
            lemma_set_of_paths_contains(dv, path_view(*p));
        }
        false
    }

    /// Is there any node at `p`?
    pub fn has_path(&self, p: &Vec<Vec<u8>>) -> (r: bool)
        ensures
            r == tm_exists(self@, path_view(*p)),
    {
        self.is_file(p) || self.is_dir(p)
    }

    /// The content of the file at `p`, if one is there.
    pub fn file_content(&self, p: &Vec<Vec<u8>>) -> (r: Option<&Vec<u8>>)
        requires
            self.wf(),
        ensures
            r is Some <==> self@.files.contains_key(path_view(*p)),
            r matches Some(c) ==> c@ == self@.files[path_view(*p)],
    {
        let ghost fv = file_pairs_view(self.files@);
        let mut i: usize = 0;
        while i < self.files.len()
            invariant
                i <= self.files@.len(),
                fv == file_pairs_view(self.files@),
                unique_keys(fv),
                forall|j: int| 0 <= j < i ==> fv[j].0 != path_view(*p),
            decreases self.files@.len() - i,
        {
            if path_eq(&self.files[i].0, p) {
                proof {
                    assert(fv[i as int].0 == path_view(*p));
                    assert(fv[i as int].1 == self.files@[i as int].1@);
                    lemma_map_of_pairs_value(fv, i as int);
                }
                return Some(&self.files[i].1);
            }
            proof {
                assert(fv[i as int].0 == path_view(self.files@[i as int].0));
            }
            i += 1;
        }
        proof {
            lemma_map_of_pairs_contains(fv, path_view(*p));
        }
        None
    }

    /// Adds a file at a path where nothing exists yet.
    pub fn push_file(&mut self, p: Vec<Vec<u8>>, data: Vec<u8>)
        requires
            old(self).wf(),
            !tm_exists(old(self)@, path_view(p)),
        ensures
            final(self).wf(),
            final(self)@.files == old(self)@.files.insert(path_view(p), data@),
            final(self)@.dirs == old(self)@.dirs,
    {
        let ghost fv = file_pairs_view(self.files@);
        let ghost pv = path_view(p);
        let ghost dv = data@;
        self.files.push((p, data));
        proof {
            assert(file_pairs_view(self.files@) =~= fv.push((pv, dv)));
            assert(fv.push((pv, dv)).drop_last() =~= fv);
            lemma_map_of_pairs_contains(fv, pv);
            assert forall|i: int, j: int|
                0 <= i < j < fv.push((pv, dv)).len() implies fv.push((pv, dv))[i].0 != fv.push(
                (pv, dv),
            )[j].0 by {
                if j == fv.len() {
                    assert(fv.push((pv, dv))[i] == fv[i]);
                }
            }
        }
    }

    /// Adds a directory at a path where nothing exists yet.
    pub fn push_dir(&mut self, p: Vec<Vec<u8>>)
        requires
            old(self).wf(),
            !tm_exists(old(self)@, path_view(p)),
        ensures
            final(self).wf(),
            final(self)@.files == old(self)@.files,
            final(self)@.dirs == old(self)@.dirs.insert(path_view(p)),
    {
        let ghost dv = dir_seq_view(self.dirs@);
        let ghost pv = path_view(p);
        self.dirs.push(p);
        proof {
            assert(dir_seq_view(self.dirs@) =~= dv.push(pv));
            assert(dv.push(pv).drop_last() =~= dv);
            assert(file_pairs_view(self.files@) == file_pairs_view(self.files@));
        }
    }

    /// Writes `data` at `p`, replacing any file already there (truncate
    /// semantics). `p` must not name a directory.
    pub fn set_file(&mut self, p: &Vec<Vec<u8>>, data: Vec<u8>)
        requires
            old(self).wf(),
            !old(self)@.dirs.contains(path_view(*p)),
        ensures
            final(self).wf(),
            final(self)@.files == old(self)@.files.insert(path_view(*p), data@),
            final(self)@.dirs == old(self)@.dirs,
    {
        let ghost fv = file_pairs_view(self.files@);
        let ghost pv = path_view(*p);
        let mut i: usize = 0;
        while i < self.files.len()
            invariant
                i <= self.files@.len(),
                *self == *old(self),
                !self@.dirs.contains(pv),
                fv == file_pairs_view(self.files@),
                unique_keys(fv),
                forall|j: int| 0 <= j < i ==> fv[j].0 != pv,
                pv == path_view(*p),
            decreases self.files@.len() - i,
        {
            if path_eq(&self.files[i].0, p) {
                proof {
                    assert(fv[i as int].0 == pv);
                    lemma_map_of_pairs_remove(fv, i as int);
                }
                self.files.remove(i);
                proof {
                    assert(file_pairs_view(self.files@) =~= fv.remove(i as int));
                    assert forall|a: int, b: int|
                        0 <= a < b < fv.remove(i as int).len() implies fv.remove(i as int)[a].0
                        != fv.remove(i as int)[b].0 by {
                        assert(fv.remove(i as int)[a] == if a < i {
                            fv[a]
                        } else {
                            fv[a + 1]
                        });
                        assert(fv.remove(i as int)[b] == if b < i {
                            fv[b]
                        } else {
                            fv[b + 1]
                        });
                    }
                }
                let seg = crate::paths::path_prefix(p, p.len());
                proof {
                    assert(path_view(seg) =~~= pv);
                    lemma_map_of_pairs_contains(fv.remove(i as int), pv);
                    assert forall|j: int|
                        0 <= j < fv.remove(i as int).len() implies fv.remove(i as int)[j].0
                        != pv by {
                        assert(fv.remove(i as int)[j] == if j < i {
                            fv[j]
                        } else {
                            fv[j + 1]
                        });
                    }
                    assert(!self@.files.contains_key(pv));
                    assert(!self@.dirs.contains(pv));
                    assert(path_view(seg) == pv);
                }
                self.push_file(seg, data);
                proof {
                    assert(map_of_pairs(fv).remove(pv).insert(pv, data@) =~= map_of_pairs(
                        fv,
                    ).insert(pv, data@));
                }
                return ;
            }
            proof {
                assert(fv[i as int].0 == path_view(self.files@[i as int].0));
            }
            i += 1;
        }
        proof {
            lemma_map_of_pairs_contains(fv, pv);
        }
        let seg = crate::paths::path_prefix(p, p.len());
        proof {
            assert(path_view(seg) =~~= pv);
        }
        self.push_file(seg, data);
    }

    /// Removes the file at `p`, if one is there. Directories are never
    /// removed. Returns whether a file was removed.
    pub fn remove_file(&mut self, p: &Vec<Vec<u8>>) -> (r: bool)
        requires
            old(self).wf(),
        ensures
            final(self).wf(),
            r == old(self)@.files.contains_key(path_view(*p)),
            r ==> final(self)@.files == old(self)@.files.remove(path_view(*p)),
            !r ==> final(self)@.files == old(self)@.files,
            final(self)@.dirs == old(self)@.dirs,
    {
        let ghost fv = file_pairs_view(self.files@);
        let ghost pv = path_view(*p);
        let mut i: usize = 0;
        while i < self.files.len()
            invariant
                i <= self.files@.len(),
                *self == *old(self),
                fv == file_pairs_view(self.files@),
                unique_keys(fv),
                forall|j: int| 0 <= j < i ==> fv[j].0 != pv,
                pv == path_view(*p),
            decreases self.files@.len() - i,
        {
            if path_eq(&self.files[i].0, p) {
                proof {
                    assert(fv[i as int].0 == pv);
                    lemma_map_of_pairs_contains(fv, pv);
                    lemma_map_of_pairs_remove(fv, i as int);
                }
                self.files.remove(i);
                proof {
                    assert(file_pairs_view(self.files@) =~= fv.remove(i as int));
                    assert forall|a: int, b: int|
                        0 <= a < b < fv.remove(i as int).len() implies fv.remove(i as int)[a].0
                        != fv.remove(i as int)[b].0 by {
                        assert(fv.remove(i as int)[a] == if a < i {
                            fv[a]
                        } else {
                            fv[a + 1]
                        });
                        assert(fv.remove(i as int)[b] == if b < i {
                            fv[b]
                        } else {
                            fv[b + 1]
                        });
                    }
                }
                return true;
            }
            proof {
                assert(fv[i as int].0 == path_view(self.files@[i as int].0));
            }
            i += 1;
        }
        proof {
            lemma_map_of_pairs_contains(fv, pv);
        }
        false
    }
}

} // verus!
