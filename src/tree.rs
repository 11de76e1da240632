use vstd::prelude::*;

use crate::path::{dest_path, dir_name, is_sep};
use crate::archive::size_consistent;
use crate::plan::{lemma_planned_concat, planned, step_of, step_seq, ActionModel, EntryRecord, StepModel};

verus! {

/// What a path holds in the filesystem, as far as extraction is concerned.
pub enum Node {
    Dir,
    File { data: Seq<u8>, mode: Option<u32> },
}

/// `q` names a directory on the way to `p`: a proper prefix of `p` that
/// ends right before a separator.
pub open spec fn is_ancestor(q: Seq<char>, p: Seq<char>) -> bool {
    &&& 0 < q.len() < p.len()
    &&& p.take(q.len() as int) == q
    &&& is_sep(p[q.len() as int])
}

/// The directories a recursive creation of `p` leaves behind.
pub open spec fn dirs_for(p: Seq<char>) -> Map<Seq<char>, Node> {
    Map::new(|q: Seq<char>| q == p || is_ancestor(q, p), |q: Seq<char>| Node::Dir)
}

/// The paths an action sets, and what it sets them to.
pub open spec fn effect(a: ActionModel) -> Map<Seq<char>, Node> {
    match a {
        ActionModel::CreateDir { path } => dirs_for(path),
        ActionModel::WriteFile { path, parent, data, mode } => {
            let dirs = match parent {
                Some(d) => dirs_for(d),
                None => Map::empty(),
            };
            dirs.insert(path, Node::File { data, mode })
        },
    }
}

/// The tree after carrying out `steps` in order on `tree`, when every
/// operation succeeds.
pub open spec fn apply(tree: Map<Seq<char>, Node>, steps: Seq<StepModel>) -> Map<Seq<char>, Node>
    decreases steps.len(),
{
    if steps.len() == 0 {
        tree
    } else {
        apply(tree, steps.drop_last()).union_prefer_right(effect(steps.last().action))
    }
}

/// Everything `steps` set, later steps winning.
pub open spec fn overlay(steps: Seq<StepModel>) -> Map<Seq<char>, Node>
    decreases steps.len(),
{
    if steps.len() == 0 {
        Map::empty()
    } else {
        overlay(steps.drop_last()).union_prefer_right(effect(steps.last().action))
    }
}

proof fn lemma_union_assoc(a: Map<Seq<char>, Node>, b: Map<Seq<char>, Node>, c: Map<Seq<char>, Node>)
    ensures
        a.union_prefer_right(b).union_prefer_right(c) == a.union_prefer_right(b.union_prefer_right(c)),
{
    assert(a.union_prefer_right(b).union_prefer_right(c) =~= a.union_prefer_right(b.union_prefer_right(c)));
}

proof fn lemma_apply_overlay(tree: Map<Seq<char>, Node>, steps: Seq<StepModel>)
    ensures
        apply(tree, steps) == tree.union_prefer_right(overlay(steps)),
    decreases steps.len(),
{
    if steps.len() == 0 {
        assert(tree.union_prefer_right(Map::empty()) =~= tree);
    } else {
        lemma_apply_overlay(tree, steps.drop_last());
        lemma_union_assoc(tree, overlay(steps.drop_last()), effect(steps.last().action));
    }
}

/// Carrying out the same steps twice in a row leaves the same tree as
/// carrying them out once: extraction overwrites idempotently.
pub proof fn lemma_extract_twice(tree: Map<Seq<char>, Node>, steps: Seq<StepModel>)
    ensures
        apply(apply(tree, steps), steps) == apply(tree, steps),
{
    let o = overlay(steps);
    lemma_apply_overlay(tree, steps);
    lemma_apply_overlay(apply(tree, steps), steps);
    lemma_union_assoc(tree, o, o);
    assert(o.union_prefer_right(o) =~= o);
}

/// A directory entry leaves a directory at its destination and writes no
/// file there.
pub proof fn lemma_directory_entry(tree: Map<Seq<char>, Node>, e: EntryRecord, root: Seq<char>)
    requires
        dir_name(e.name@),
        step_of(e, root) is Some,
    ensures
        apply(tree, seq![step_of(e, root).unwrap()])[dest_path(root, e.name@)] == Node::Dir,
        step_of(e, root).unwrap().action == (ActionModel::CreateDir { path: dest_path(root, e.name@) }),
{
    let steps = seq![step_of(e, root).unwrap()];
    assert(steps.drop_last() =~= Seq::<StepModel>::empty());
    assert(dirs_for(dest_path(root, e.name@)).contains_key(dest_path(root, e.name@)));
}

/// A regular-file entry leaves at its destination a file whose bytes are
/// the entry's decompressed content and whose mode is the entry's mode;
/// for an entry of consistent size, that content has the reported size.
pub proof fn lemma_file_entry(tree: Map<Seq<char>, Node>, e: EntryRecord, root: Seq<char>)
    requires
        !dir_name(e.name@),
        step_of(e, root) is Some,
    ensures
        apply(tree, seq![step_of(e, root).unwrap()])[dest_path(root, e.name@)]
            == (Node::File { data: e.data@, mode: e.unix_mode }),
        size_consistent(e) ==> e.data@.len() == e.size,
{
    let steps = seq![step_of(e, root).unwrap()];
    assert(steps.drop_last() =~= Seq::<StepModel>::empty());
}

/// Some step of `steps` sets path `p`.
pub open spec fn touches(steps: Seq<StepModel>, p: Seq<char>) -> bool {
    exists|m: int| 0 <= m < steps.len() && (#[trigger] effect(steps[m].action)).contains_key(p)
}

proof fn lemma_overlay_untouched(steps: Seq<StepModel>, p: Seq<char>)
    requires
        !touches(steps, p),
    ensures
        !overlay(steps).contains_key(p),
    decreases steps.len(),
{
    if steps.len() > 0 {
        let m = steps.len() - 1;
        assert(!effect(steps[m].action).contains_key(p));
        assert forall|j: int| 0 <= j < steps.drop_last().len() implies !(#[trigger] effect(
            steps.drop_last()[j].action,
        )).contains_key(p) by {
            assert(steps.drop_last()[j] == steps[j]);
        }
        lemma_overlay_untouched(steps.drop_last(), p);
    }
}

proof fn lemma_apply_concat(tree: Map<Seq<char>, Node>, a: Seq<StepModel>, b: Seq<StepModel>)
    ensures
        apply(tree, a + b) == apply(apply(tree, a), b),
    decreases b.len(),
{
    if b.len() == 0 {
        assert(a + b =~= a);
    } else {
        lemma_apply_concat(tree, a, b.drop_last());
        assert((a + b).drop_last() =~= a + b.drop_last());
        assert((a + b).last() == b.last());
    }
}

/// In a whole run, an entry whose destination no later step sets leaves at
/// that destination a directory when its name is a directory name, and
/// otherwise a file holding exactly the entry's content and mode.
pub proof fn lemma_entry_in_run(tree: Map<Seq<char>, Node>, es: Seq<EntryRecord>, k: int, root: Seq<char>)
    requires
        0 <= k < es.len(),
        step_of(es[k], root) is Some,
        !touches(planned(es.skip(k + 1), root), dest_path(root, es[k].name@)),
    ensures
        apply(tree, planned(es, root))[dest_path(root, es[k].name@)] == if dir_name(es[k].name@) {
            Node::Dir
        } else {
            Node::File { data: es[k].data@, mode: es[k].unix_mode }
        },
{
    let p = dest_path(root, es[k].name@);
    let pre = es.take(k);
    let one = seq![es[k]];
    let post = es.skip(k + 1);
    assert(es =~= pre + one + post);
    lemma_planned_concat(pre + one, post, root);
    lemma_planned_concat(pre, one, root);
    assert(one.drop_last() =~= Seq::<EntryRecord>::empty());
    assert(planned(Seq::<EntryRecord>::empty(), root) =~= Seq::<StepModel>::empty());
    assert(planned(one, root) =~= step_seq(es[k], root));
    let head = planned(pre, root) + step_seq(es[k], root);
    let rest = planned(post, root);
    lemma_apply_concat(tree, head, rest);
    lemma_apply_overlay(apply(tree, head), rest);
    lemma_overlay_untouched(rest, p);
    assert(head.drop_last() =~= planned(pre, root));
    assert(dirs_for(p).contains_key(p));
}

} // verus!
