//! Laws of the synchronization engine, proved of the folds that the
//! executable functions are specified by: extraction is idempotent, confined
//! to safe paths, and non-destructive; pruning removes exactly the
//! blacklisted files and touches no directory.

use crate::engine::{
    dir_conflict, init_prune, init_state, prefix_dirs, run_entries, run_prune, step_entry,
    step_prune, PruneState, RunState,
};
use crate::paths::{lemma_prefix_safe, parse_entry_name, safe_path};
use crate::tree::{tm_exists, TreeModel};
use vstd::prelude::*;

verus! {

proof fn lemma_step_preserves(st: RunState, e: (Seq<u8>, Seq<u8>), p: Seq<Seq<u8>>)
    ensures
        st.tree.files.contains_key(p) ==> step_entry(st, e).tree.files.contains_key(p)
            && step_entry(st, e).tree.files[p] == st.tree.files[p],
        st.tree.dirs.contains(p) ==> step_entry(st, e).tree.dirs.contains(p),
{
}

proof fn lemma_run_preserves(st: RunState, es: Seq<(Seq<u8>, Seq<u8>)>, p: Seq<Seq<u8>>)
    ensures
        st.tree.files.contains_key(p) ==> run_entries(st, es).tree.files.contains_key(p)
            && run_entries(st, es).tree.files[p] == st.tree.files[p],
        st.tree.dirs.contains(p) ==> run_entries(st, es).tree.dirs.contains(p),
    decreases es.len(),
{
    if es.len() > 0 {
        lemma_step_preserves(st, es[0], p);
        lemma_run_preserves(step_entry(st, es[0]), es.skip(1), p);
    }
}

/// Non-destructiveness: a file already present before extraction keeps its
/// exact content through the pass, whatever the archive holds at that path.
pub proof fn lemma_extract_nondestructive(
    m: TreeModel,
    es: Seq<(Seq<u8>, Seq<u8>)>,
    p: Seq<Seq<u8>>,
)
    requires
        m.files.contains_key(p),
    ensures
        run_entries(init_state(m), es).tree.files.contains_key(p),
        run_entries(init_state(m), es).tree.files[p] == m.files[p],
{
    lemma_run_preserves(init_state(m), es, p);
}

proof fn lemma_step_safe(st: RunState, e: (Seq<u8>, Seq<u8>), p: Seq<Seq<u8>>)
    requires
        !tm_exists(st.tree, p),
        tm_exists(step_entry(st, e).tree, p),
    ensures
        safe_path(p),
{
    if !st.failed {
        match parse_entry_name(e.0) {
            None => {},
            Some(pd) => {
                if !tm_exists(st.tree, pd.0) && !dir_conflict(st.tree, pd.0) {
                    assert(safe_path(pd.0));
                    let n = if pd.1 {
                        pd.0.len() as int
                    } else {
                        pd.0.len() - 1
                    };
                    if step_entry(st, e).tree.dirs.contains(p) && !st.tree.dirs.contains(p) {
                        assert(prefix_dirs(pd.0, n).contains(p));
                        let k = choose|k: int| 1 <= k <= n && p == pd.0.take(k);
                        lemma_prefix_safe(pd.0, k);
                    }
                    if step_entry(st, e).tree.files.contains_key(p) && !st.tree.files.contains_key(
                        p,
                    ) {
                        assert(p == pd.0);
                    }
                }
            },
        }
    }
}

proof fn lemma_run_safe(st: RunState, es: Seq<(Seq<u8>, Seq<u8>)>, p: Seq<Seq<u8>>)
    requires
        !tm_exists(st.tree, p),
        tm_exists(run_entries(st, es).tree, p),
    ensures
        safe_path(p),
    decreases es.len(),
{
    if es.len() > 0 {
        let st1 = step_entry(st, es[0]);
        if tm_exists(st1.tree, p) {
            lemma_step_safe(st, es[0], p);
        } else {
            lemma_run_safe(st1, es.skip(1), p);
        }
    }
}

/// Safety: a node that extraction brings into being always sits at a safe
/// path, so nothing is ever written outside the destination subtree.
pub proof fn lemma_extract_safe(m: TreeModel, es: Seq<(Seq<u8>, Seq<u8>)>, p: Seq<Seq<u8>>)
    requires
        !tm_exists(m, p),
        tm_exists(run_entries(init_state(m), es).tree, p),
    ensures
        safe_path(p),
{
    lemma_run_safe(init_state(m), es, p);
}

proof fn lemma_run_parsed_exists(st: RunState, es: Seq<(Seq<u8>, Seq<u8>)>, j: int)
    requires
        !run_entries(st, es).failed,
        0 <= j < es.len(),
        parse_entry_name(es[j].0) is Some,
    ensures
        tm_exists(run_entries(st, es).tree, parse_entry_name(es[j].0).unwrap().0),
    decreases es.len(),
{
    let st1 = step_entry(st, es[0]);
    if st.failed {
        crate::engine::lemma_run_failed(st, es);
        assert(false);
    }
    if j == 0 {
        let pd = parse_entry_name(es[0].0).unwrap();
        if st1.failed {
            crate::engine::lemma_run_failed(st1, es.skip(1));
            assert(false);
        }
        assert(tm_exists(st1.tree, pd.0)) by {
            if !tm_exists(st.tree, pd.0) {
                assert(!dir_conflict(st.tree, pd.0));
                if pd.1 {
                    assert(pd.0.take(pd.0.len() as int) =~= pd.0);
                    assert(prefix_dirs(pd.0, pd.0.len() as int).contains(pd.0));
                } else {
                    assert(st1.tree.files.contains_key(pd.0));
                }
            }
        }
        lemma_run_preserves(st1, es.skip(1), pd.0);
    } else {
        assert(es.skip(1)[j - 1] == es[j]);
        lemma_run_parsed_exists(st1, es.skip(1), j - 1);
    }
}

proof fn lemma_run_fixed(st: RunState, es: Seq<(Seq<u8>, Seq<u8>)>)
    requires
        forall|j: int|
            0 <= j < es.len() ==> (parse_entry_name(#[trigger] es[j].0) is Some ==> tm_exists(
                st.tree,
                parse_entry_name(es[j].0).unwrap().0,
            )),
    ensures
        run_entries(st, es).tree == st.tree,
    decreases es.len(),
{
    if es.len() > 0 {
        let st1 = step_entry(st, es[0]);
        assert(st1.tree == st.tree);
        assert(forall|j: int|
            0 <= j < es.skip(1).len() ==> #[trigger] es.skip(1)[j] == es[j + 1]);
        lemma_run_fixed(st1, es.skip(1));
    }
}

/// Idempotence: extracting the same entries a second time, over the tree the
/// first pass produced, changes nothing.
pub proof fn lemma_extract_idempotent(m: TreeModel, es: Seq<(Seq<u8>, Seq<u8>)>)
    requires
        !run_entries(init_state(m), es).failed,
    ensures
        run_entries(init_state(run_entries(init_state(m), es).tree), es).tree == run_entries(
            init_state(m),
            es,
        ).tree,
{
    let fin = run_entries(init_state(m), es).tree;
    assert forall|j: int|
        0 <= j < es.len() && parse_entry_name(#[trigger] es[j].0) is Some implies tm_exists(
        fin,
        parse_entry_name(es[j].0).unwrap().0,
    ) by {
        lemma_run_parsed_exists(init_state(m), es, j);
    }
    lemma_run_fixed(init_state(fin), es);
}

/// Pruning never touches a directory.
pub proof fn lemma_prune_dirs_unchanged(st: PruneState, names: Seq<Seq<u8>>)
    ensures
        run_prune(st, names).tree.dirs == st.tree.dirs,
    decreases names.len(),
{
    if names.len() > 0 {
        lemma_prune_dirs_unchanged(step_prune(st, names[0]), names.skip(1));
    }
}

/// A file named by no blacklist entry keeps its binding through pruning.
pub proof fn lemma_prune_untouched(st: PruneState, names: Seq<Seq<u8>>, p: Seq<Seq<u8>>)
    requires
        forall|j: int|
            0 <= j < names.len() ==> (parse_entry_name(#[trigger] names[j]) is Some
                ==> parse_entry_name(names[j]).unwrap().0 != p),
    ensures
        run_prune(st, names).tree.files.contains_key(p) == st.tree.files.contains_key(p),
        st.tree.files.contains_key(p) ==> run_prune(st, names).tree.files[p] == st.tree.files[p],
    decreases names.len(),
{
    if names.len() > 0 {
        let st1 = step_prune(st, names[0]);
        assert(st1.tree.files.contains_key(p) == st.tree.files.contains_key(p));
        assert(forall|j: int|
            0 <= j < names.skip(1).len() ==> #[trigger] names.skip(1)[j] == names[j + 1]);
        lemma_prune_untouched(st1, names.skip(1), p);
    }
}

proof fn lemma_prune_no_add(st: PruneState, names: Seq<Seq<u8>>, p: Seq<Seq<u8>>)
    requires
        !st.tree.files.contains_key(p),
    ensures
        !run_prune(st, names).tree.files.contains_key(p),
    decreases names.len(),
{
    if names.len() > 0 {
        lemma_prune_no_add(step_prune(st, names[0]), names.skip(1), p);
    }
}

/// A non-empty blacklist entry that resolves to a path leaves no file at
/// that path once pruning has run.
pub proof fn lemma_prune_removes(st: PruneState, names: Seq<Seq<u8>>, j: int)
    requires
        0 <= j < names.len(),
        names[j].len() > 0,
        parse_entry_name(names[j]) is Some,
        !st.tree.dirs.contains(parse_entry_name(names[j]).unwrap().0),
    ensures
        !run_prune(st, names).tree.files.contains_key(parse_entry_name(names[j]).unwrap().0),
    decreases names.len(),
{
    let p = parse_entry_name(names[j]).unwrap().0;
    let st1 = step_prune(st, names[0]);
    if j == 0 {
        assert(!st1.tree.files.contains_key(p));
        lemma_prune_no_add(st1, names.skip(1), p);
    } else {
        assert(names.skip(1)[j - 1] == names[j]);
        assert(st1.tree.dirs == st.tree.dirs);
        lemma_prune_removes(st1, names.skip(1), j - 1);
    }
}

/// Pruning a blacklist that resolves to no directory of the tree reports no
/// failure: entries naming nothing are no error.
pub proof fn lemma_prune_no_failures(st: PruneState, names: Seq<Seq<u8>>)
    requires
        forall|j: int|
            0 <= j < names.len() ==> (parse_entry_name(#[trigger] names[j]) is Some
                ==> !st.tree.dirs.contains(parse_entry_name(names[j]).unwrap().0)),
    ensures
        run_prune(st, names).failed == st.failed,
    decreases names.len(),
{
    if names.len() > 0 {
        let st1 = step_prune(st, names[0]);
        assert(st1.tree.dirs == st.tree.dirs);
        assert(st1.failed == st.failed);
        assert(forall|j: int|
            0 <= j < names.skip(1).len() ==> #[trigger] names.skip(1)[j] == names[j + 1]);
        lemma_prune_no_failures(st1, names.skip(1));
    }
}

} // verus!
