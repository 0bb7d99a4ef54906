//! The synchronization engine: idempotent, traversal-safe extraction of
//! archive entries into a destination tree, blacklist-driven pruning, and the
//! orchestration of a whole run (version gate, marker commit, extraction,
//! pruning, in that order).
//!
//! The meaning of each operation is a fold over the entry sequence
//! (`run_entries`, `run_prune`); the executable functions are proved equal to
//! those folds, and the laws about extraction (idempotence, safety,
//! non-destructiveness) are proved of the folds themselves.

use crate::manifest::ModpackDescriptor;
use crate::paths::{
    bytes_eq, copy_bytes, parse_entry_name, path_prefix, path_view, safe_path, sanitize_entry_name,
};
use crate::tree::{tm_exists, DestTree, TreeModel};
use crate::version::{committed, marker_current, marker_path, marker_path_vec, version_bytes};
use vstd::prelude::*;

verus! {

/// One entry of a retrieved archive: its declared name and its decompressed
/// content. A trailing `/` in the name marks a directory entry.
#[derive(Debug)]
pub struct ArchiveEntry {
    pub name: Vec<u8>,
    pub data: Vec<u8>,
}

impl View for ArchiveEntry {
    type V = (Seq<u8>, Seq<u8>);

    open spec fn view(&self) -> (Seq<u8>, Seq<u8>) {
        (self.name@, self.data@)
    }
}

pub open spec fn entries_view(s: Seq<ArchiveEntry>) -> Seq<(Seq<u8>, Seq<u8>)> {
    s.map_values(|e: ArchiveEntry| e@)
}

/// Why a synchronization step failed.
#[derive(PartialEq, Eq, Structural, Debug, Clone, Copy)]
pub enum ArchiveError {
    /// The archive container could not be parsed.
    Corrupt,
    /// An entry's name would escape the destination.
    UnsafePath,
    /// An entry could not be materialized.
    Io,
}

/// What one extraction pass did.
#[derive(PartialEq, Eq, Structural, Debug, Clone, Copy)]
pub struct ExtractionReport {
    /// Entries newly created.
    pub created: usize,
    /// Entries skipped because their path already existed.
    pub skipped: usize,
    /// Entries rejected because their name was unsafe.
    pub rejected: usize,
}

/// What one pruning pass did.
#[derive(PartialEq, Eq, Structural, Debug, Clone, Copy)]
pub struct PruneReport {
    /// Blacklisted files removed.
    pub removed: usize,
    /// Blacklist entries naming nothing (no error).
    pub missing: usize,
    /// Blacklist entries whose deletion failed.
    pub failed: usize,
}

/// The abstract state of an extraction pass.
pub struct RunState {
    pub tree: TreeModel,
    pub created: nat,
    pub skipped: nat,
    pub rejected: nat,
    pub failed: bool,
}

pub open spec fn init_state(m: TreeModel) -> RunState {
    RunState { tree: m, created: 0, skipped: 0, rejected: 0, failed: false }
}

/// The directories `p.take(1), ..., p.take(n)`: every ancestor that creating
/// `p` with its parents brings into being.
pub open spec fn prefix_dirs(p: Seq<Seq<u8>>, n: int) -> Set<Seq<Seq<u8>>> {
    Set::new(|q: Seq<Seq<u8>>| exists|k: int| 1 <= k <= n && q == p.take(k))
}

/// Some proper ancestor of `p` exists as a file, so its directories cannot be
/// created.
pub open spec fn dir_conflict(m: TreeModel, p: Seq<Seq<u8>>) -> bool {
    exists|k: int| 1 <= k < p.len() && m.files.contains_key(p.take(k))
}

/// How one archive entry changes the extraction state: unsafe names are
/// rejected, existing paths are skipped untouched, directory entries create
/// their directory chain, file entries create ancestors and the file, and an
/// ancestor conflict aborts the pass.
pub open spec fn step_entry(st: RunState, e: (Seq<u8>, Seq<u8>)) -> RunState {
    if st.failed {
        st
    } else {
        match parse_entry_name(e.0) {
            None => RunState { rejected: st.rejected + 1, ..st },
            Some(pd) => {
                if tm_exists(st.tree, pd.0) {
                    RunState { skipped: st.skipped + 1, ..st }
                } else if dir_conflict(st.tree, pd.0) {
                    RunState { failed: true, ..st }
                } else if pd.1 {
                    RunState {
                        tree: TreeModel {
                            files: st.tree.files,
                            dirs: st.tree.dirs.union(prefix_dirs(pd.0, pd.0.len() as int)),
                        },
                        created: st.created + 1,
                        ..st
                    }
                } else {
                    RunState {
                        tree: TreeModel {
                            files: st.tree.files.insert(pd.0, e.1),
                            dirs: st.tree.dirs.union(prefix_dirs(pd.0, pd.0.len() - 1)),
                        },
                        created: st.created + 1,
                        ..st
                    }
                }
            },
        }
    }
}

/// An extraction pass: the entries folded through `step_entry`, in archive
/// order.
pub open spec fn run_entries(st: RunState, es: Seq<(Seq<u8>, Seq<u8>)>) -> RunState
    decreases es.len(),
{
    if es.len() == 0 {
        st
    } else {
        run_entries(step_entry(st, es[0]), es.skip(1))
    }
}

pub proof fn lemma_run_failed(st: RunState, es: Seq<(Seq<u8>, Seq<u8>)>)
    requires
        st.failed,
    ensures
        run_entries(st, es) == st,
    decreases es.len(),
{
    if es.len() > 0 {
        lemma_run_failed(st, es.skip(1));
    }
}

/// Extracts every entry that is not already present, in archive order.
/// Entries with unsafe names are rejected and counted; an ancestor conflict
/// aborts the pass with `ArchiveError::Io`, leaving the entries processed so
/// far in place.
#[verifier::loop_isolation(false)]
pub fn extract_entries(tree: &mut DestTree, entries: &Vec<ArchiveEntry>) -> (r: Result<
    ExtractionReport,
    ArchiveError,
>)
    requires
        old(tree).wf(),
    ensures
        final(tree).wf(),
        final(tree)@ == run_entries(init_state(old(tree)@), entries_view(entries@)).tree,
        r is Err <==> run_entries(init_state(old(tree)@), entries_view(entries@)).failed,
        r matches Err(e) ==> e == ArchiveError::Io,
        r matches Ok(rep) ==> {
            let fin = run_entries(init_state(old(tree)@), entries_view(entries@));
            rep.created as nat == fin.created && rep.skipped as nat == fin.skipped
                && rep.rejected as nat == fin.rejected
        },
{
    let ghost es = entries_view(entries@);
    let ghost init = init_state(old(tree)@);
    let mut created: usize = 0;
    let mut skipped: usize = 0;
    let mut rejected: usize = 0;
    let mut i: usize = 0;
    proof {
        assert(es.skip(0) =~= es);
    }
    while i < entries.len()
        invariant
            i <= entries@.len(),
            es == entries_view(entries@),
            tree.wf(),
            created <= i && skipped <= i && rejected <= i,
            run_entries(
                RunState {
                    tree: tree@,
                    created: created as nat,
                    skipped: skipped as nat,
                    rejected: rejected as nat,
                    failed: false,
                },
                es.skip(i as int),
            ) == run_entries(init, es),
        decreases entries@.len() - i,
    {
        let ghost cur = RunState {
            tree: tree@,
            created: created as nat,
            skipped: skipped as nat,
            rejected: rejected as nat,
            failed: false,
        };
        proof {
            assert(es.skip(i as int)[0] == es[i as int]);
            assert(es[i as int] == entries@[i as int]@);
            assert(es.skip(i as int).skip(1) =~= es.skip(i as int + 1));
            assert(run_entries(cur, es.skip(i as int)) == run_entries(
                step_entry(cur, es[i as int]),
                es.skip(i as int + 1),
            ));
        }
        let e = &entries[i];
        match sanitize_entry_name(&e.name) {
            None => {
                rejected += 1;
                proof {
                    assert(step_entry(cur, es[i as int]) == RunState {
                        rejected: cur.rejected + 1,
                        ..cur
                    });
                }
            },
            Some((p, is_dir)) => {
                let ghost pv = path_view(p);
                proof {
                    assert(parse_entry_name(es[i as int].0) == Some((pv, is_dir)));
                    assert(safe_path(pv));
                }
                if tree.has_path(&p) {
                    skipped += 1;
                    proof {
                        assert(step_entry(cur, es[i as int]) == RunState {
                            skipped: cur.skipped + 1,
                            ..cur
                        });
                    }
                } else {
                    // Does some proper ancestor of `p` already exist as a
                    // file? Creating the directory chain would then fail.
                    let mut conflict = false;
                    let mut k: usize = 1;
                    while k < p.len()
                        invariant
                            1 <= k,
                            k <= pv.len() || k == 1,
                            pv == path_view(p),
                            tree.wf(),
                            tree@ == cur.tree,
                            conflict <==> exists|j: int|
                                1 <= j < k && tree@.files.contains_key(#[trigger] pv.take(j)),
                        decreases pv.len() - k,
                    {
                        let pre = path_prefix(&p, k);
                        if tree.is_file(&pre) {
                            conflict = true;
                            proof {
                                assert(tree@.files.contains_key(pv.take(k as int)));
                            }
                        }
                        k += 1;
                    }
                    proof {
                        assert(conflict == dir_conflict(tree@, pv));
                    }
                    if conflict {
                        proof {
                            let stepped = step_entry(cur, es[i as int]);
                            assert(stepped.failed);
                            assert(stepped.tree == cur.tree);
                            lemma_run_failed(stepped, es.skip(i as int + 1));
                        }
                        return Err(ArchiveError::Io);
                    }
                    let ghost base = tree@;
                    let limit: usize = if is_dir {
                        p.len()
                    } else {
                        p.len() - 1
                    };
                    proof {
                        assert(base.dirs.union(prefix_dirs(pv, 0)) =~= base.dirs);
                    }
                    let mut k2: usize = 0;
                    while k2 < limit
                        invariant
                            k2 <= limit,
                            tree.wf(),
                            tree@.files == base.files,
                            tree@.dirs == base.dirs.union(prefix_dirs(pv, k2 as int)),
                        decreases limit - k2,
                    {
                        let pre = path_prefix(&p, k2 + 1);
                        proof {
                            assert(path_view(pre) == pv.take(k2 + 1));
                        }
                        if !tree.has_path(&pre) {
                            tree.push_dir(pre);
                            proof {
                                assert(base.dirs.union(prefix_dirs(pv, k2 as int)).insert(
                                    pv.take(k2 + 1),
                                ) =~= base.dirs.union(prefix_dirs(pv, k2 + 1)));
                            }
                        } else {
                            proof {
                                if k2 + 1 < pv.len() {
                                    assert(!tree@.files.contains_key(pv.take(k2 + 1)));
                                } else {
                                    assert(pv.take(k2 + 1) =~= pv);
                                    assert(!tree@.files.contains_key(pv.take(k2 + 1)));
                                }
                                assert(tree@.dirs.contains(pv.take(k2 + 1)));
                                assert(base.dirs.union(prefix_dirs(pv, k2 as int)).insert(
                                    pv.take(k2 + 1),
                                ) =~= base.dirs.union(prefix_dirs(pv, k2 + 1)));
                                assert(tree@.dirs == base.dirs.union(prefix_dirs(pv, k2 + 1)));
                            }
                        }
                        k2 += 1;
                    }
                    if is_dir {
                        created += 1;
                        proof {
                            let stepped = step_entry(cur, es[i as int]);
                            assert(stepped.tree.dirs == tree@.dirs);
                            assert(stepped.tree.files == tree@.files);
                            assert(stepped.tree == tree@);
                            assert(stepped.created == cur.created + 1);
                        }
                    } else {
                        let data = copy_bytes(&e.data);
                        proof {
                            assert(!tm_exists(tree@, pv)) by {
                                assert(tree@.files == base.files);
                                if tree@.dirs.contains(pv) {
                                    assert(!base.dirs.contains(pv));
                                    let j = choose|j: int|
                                        1 <= j <= limit && pv == #[trigger] pv.take(j);
                                    assert(pv.take(j).len() == j);
                                    assert(false);
                                }
                            }
                        }
                        tree.push_file(p, data);
                        created += 1;
                        proof {
                            let stepped = step_entry(cur, es[i as int]);
                            assert(stepped.tree.dirs == tree@.dirs);
                            assert(stepped.tree.files == tree@.files);
                            assert(stepped.tree == tree@);
                        }
                    }
                }
            },
        }
        i += 1;
    }
    proof {
        assert(es.skip(i as int) =~= Seq::<(Seq<u8>, Seq<u8>)>::empty());
    }
    Ok(ExtractionReport { created, skipped, rejected })
}

/// The abstract state of a pruning pass.
pub struct PruneState {
    pub tree: TreeModel,
    pub removed: nat,
    pub missing: nat,
    pub failed: nat,
}

pub open spec fn init_prune(m: TreeModel) -> PruneState {
    PruneState { tree: m, removed: 0, missing: 0, failed: 0 }
}

/// How one blacklist entry changes the pruning state: empty strings are
/// ignored, names that resolve to an existing file remove it, names that
/// resolve to a directory fail (only files are deleted), and everything else
/// names nothing and is no error.
pub open spec fn step_prune(st: PruneState, name: Seq<u8>) -> PruneState {
    if name.len() == 0 {
        st
    } else {
        match parse_entry_name(name) {
            None => PruneState { missing: st.missing + 1, ..st },
            Some(pd) => {
                if st.tree.files.contains_key(pd.0) {
                    PruneState {
                        tree: TreeModel { files: st.tree.files.remove(pd.0), dirs: st.tree.dirs },
                        removed: st.removed + 1,
                        ..st
                    }
                } else if st.tree.dirs.contains(pd.0) {
                    PruneState { failed: st.failed + 1, ..st }
                } else {
                    PruneState { missing: st.missing + 1, ..st }
                }
            },
        }
    }
}

/// A pruning pass: the blacklist folded through `step_prune`, in blacklist
/// order. Deletions are independent; a failure never stops the rest.
pub open spec fn run_prune(st: PruneState, names: Seq<Seq<u8>>) -> PruneState
    decreases names.len(),
{
    if names.len() == 0 {
        st
    } else {
        run_prune(step_prune(st, names[0]), names.skip(1))
    }
}

/// The byte sequences of a sequence of strings.
pub open spec fn names_view(s: Seq<String>) -> Seq<Seq<u8>> {
    s.map_values(|x: String| vstd::utf8::encode_utf8(x@))
}

/// Deletes every blacklisted file that exists under the destination, in
/// blacklist order, best effort: failures are counted, never fatal.
#[verifier::loop_isolation(false)]
pub fn prune(tree: &mut DestTree, blacklist: &Vec<String>) -> (r: PruneReport)
    requires
        old(tree).wf(),
    ensures
        final(tree).wf(),
        final(tree)@ == run_prune(init_prune(old(tree)@), names_view(blacklist@)).tree,
        r.removed as nat == run_prune(init_prune(old(tree)@), names_view(blacklist@)).removed,
        r.missing as nat == run_prune(init_prune(old(tree)@), names_view(blacklist@)).missing,
        r.failed as nat == run_prune(init_prune(old(tree)@), names_view(blacklist@)).failed,
{
    let ghost names = names_view(blacklist@);
    let ghost init = init_prune(old(tree)@);
    let mut removed: usize = 0;
    let mut missing: usize = 0;
    let mut failed: usize = 0;
    let mut i: usize = 0;
    proof {
        assert(names.skip(0) =~= names);
    }
    while i < blacklist.len()
        invariant
            i <= blacklist@.len(),
            tree.wf(),
            removed <= i && missing <= i && failed <= i,
            run_prune(
                PruneState {
                    tree: tree@,
                    removed: removed as nat,
                    missing: missing as nat,
                    failed: failed as nat,
                },
                names.skip(i as int),
            ) == run_prune(init, names),
        decreases blacklist@.len() - i,
    {
        let ghost cur = PruneState {
            tree: tree@,
            removed: removed as nat,
            missing: missing as nat,
            failed: failed as nat,
        };
        proof {
            assert(names.skip(i as int)[0] == names[i as int]);
            assert(names[i as int] == vstd::utf8::encode_utf8(blacklist@[i as int]@));
            assert(names.skip(i as int).skip(1) =~= names.skip(i as int + 1));
        }
        let b = blacklist[i].as_str().as_bytes();
        if b.len() > 0 {
            let bv = vstd::slice::slice_to_vec(b);
            match sanitize_entry_name(&bv) {
                None => {
                    missing += 1;
                },
                Some((p, _)) => {
                    if tree.remove_file(&p) {
                        removed += 1;
                    } else if tree.is_dir(&p) {
                        failed += 1;
                    } else {
                        missing += 1;
                    }
                },
            }
        }
        i += 1;
    }
    proof {
        assert(names.skip(i as int) =~= Seq::<Seq<u8>>::empty());
    }
    PruneReport { removed, missing, failed }
}

/// How a successful run ended.
#[derive(PartialEq, Eq, Structural, Debug, Clone, Copy)]
pub enum SyncOutcome {
    /// The marker already recorded the declared version; nothing was touched.
    UpToDate,
    /// The marker was committed, the archive extracted and the blacklist
    /// pruned.
    Updated(ExtractionReport, PruneReport),
}

/// Why a run failed.
#[derive(PartialEq, Eq, Structural, Debug, Clone, Copy)]
pub enum UpdateError {
    /// The version marker could not be written; nothing was touched.
    MarkerWrite,
    /// Extraction aborted after the marker was committed.
    Archive(ArchiveError),
}

/// One whole synchronization run against a destination tree: gate on the
/// version marker, commit the new marker first, then extract, then prune.
///
/// The marker is committed before any content changes, so an interrupted
/// extraction leaves the marker at the new version; a later run then reports
/// up to date without reconciling. That ordering is deliberate and part of
/// this contract.
#[verifier::loop_isolation(false)]
pub fn sync_run(tree: &mut DestTree, desc: &ModpackDescriptor, entries: &Vec<ArchiveEntry>) -> (r:
    Result<SyncOutcome, UpdateError>)
    requires
        old(tree).wf(),
    ensures
        final(tree).wf(),
        marker_current(old(tree)@, desc.version@) ==> r == Ok::<SyncOutcome, UpdateError>(
            SyncOutcome::UpToDate,
        ) && final(tree)@ == old(tree)@,
        !marker_current(old(tree)@, desc.version@) && old(tree)@.dirs.contains(marker_path())
            ==> r == Err::<SyncOutcome, UpdateError>(UpdateError::MarkerWrite) && final(tree)@
            == old(tree)@,
        !marker_current(old(tree)@, desc.version@) && !old(tree)@.dirs.contains(marker_path())
            ==> ({
            let ext = run_entries(
                init_state(committed(old(tree)@, desc.version@)),
                entries_view(entries@),
            );
            &&& ext.failed ==> r == Err::<SyncOutcome, UpdateError>(
                UpdateError::Archive(ArchiveError::Io),
            ) && final(tree)@ == ext.tree
            &&& !ext.failed ==> ({
                let pr = run_prune(init_prune(ext.tree), names_view(desc.blacklist@));
                &&& final(tree)@ == pr.tree
                &&& r matches Ok(o) && o matches SyncOutcome::Updated(er, prr) && er.created
                    as nat == ext.created && er.skipped as nat == ext.skipped && er.rejected
                    as nat == ext.rejected && prr.removed as nat == pr.removed && prr.missing
                    as nat == pr.missing && prr.failed as nat == pr.failed
            })
        }),
{
    let mp = marker_path_vec();
    let vb = vstd::slice::slice_to_vec(desc.version.as_str().as_bytes());
    proof {
        assert(vb@ == version_bytes(desc.version@));
    }
    let current = match tree.file_content(&mp) {
        Some(c) => bytes_eq(c, &vb),
        None => false,
    };
    if current {
        return Ok(SyncOutcome::UpToDate);
    }
    if tree.is_dir(&mp) {
        return Err(UpdateError::MarkerWrite);
    }
    tree.set_file(&mp, vb);
    proof {
        assert(tree@ == committed(old(tree)@, desc.version@));
    }
    let rep = match extract_entries(tree, entries) {
        Ok(rep) => rep,
        Err(e) => {
            return Err(UpdateError::Archive(e));
        },
    };
    let prep = prune(tree, &desc.blacklist);
    Ok(SyncOutcome::Updated(rep, prep))
}

} // verus!
