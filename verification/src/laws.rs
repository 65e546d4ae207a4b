//! What the deletion engine guarantees, stated and proved once for every
//! input: benign outcomes for targets that are gone or going, idempotence of
//! a successful deletion, post-order discipline for directories, and refusal
//! to delete through a reparse point.

use crate::engine::{
    first_failure, spec_delete_all, spec_delete_at, spec_delete_forest, spec_delete_node,
    spec_delete_target, status_failure, DeletionStatus, FailReason,
};
use crate::fs_model::{
    find_in, forest_wf, lemma_find_in_props, node_wf, resolve_node, NodeKind, NodeModel,
};
use crate::translate::{PathKind, ResolvedExclusion};
use vstd::prelude::*;

verus! {

/// Resolving `path[d..]` meets absence or a pending deletion before any
/// obstruction: the target is as good as gone, and a deletion attempt is
/// owed the benign `AlreadyGone`.
pub open spec fn walk_gone(s: Seq<NodeModel>, path: Seq<Seq<char>>, d: int) -> bool
    recommends
        0 <= d < path.len(),
    decreases path.len() - d,
{
    let i = find_in(s, path[d]);
    if i == s.len() {
        true
    } else if s[i].pending_delete {
        true
    } else if d >= path.len() - 1 {
        false
    } else if s[i].reparse {
        false
    } else if s[i].kind == NodeKind::File {
        true
    } else {
        walk_gone(s[i].children, path, d + 1)
    }
}

/// Resolving `path[d..]` meets a reparse point strictly before the final
/// component, with everything up to it a plain directory.
pub open spec fn walk_blocked_by_reparse(s: Seq<NodeModel>, path: Seq<Seq<char>>, d: int) -> bool
    recommends
        0 <= d < path.len(),
    decreases path.len() - d,
{
    let i = find_in(s, path[d]);
    if i == s.len() {
        false
    } else if s[i].pending_delete {
        false
    } else if d >= path.len() - 1 {
        false
    } else if s[i].reparse {
        true
    } else if s[i].kind == NodeKind::File {
        false
    } else {
        walk_blocked_by_reparse(s[i].children, path, d + 1)
    }
}

proof fn lemma_find_in_absent(s: Seq<NodeModel>, name: Seq<char>)
    requires
        forall|j: int| 0 <= j < s.len() ==> (#[trigger] s[j]).name != name,
    ensures
        find_in(s, name) == s.len(),
{
    lemma_find_in_props(s, name);
    if find_in(s, name) < s.len() {
        assert(s[find_in(s, name)].name == name);
    }
}

proof fn lemma_find_in_is_first(s: Seq<NodeModel>, name: Seq<char>, i: int)
    requires
        0 <= i < s.len(),
        s[i].name == name,
        forall|j: int| 0 <= j < i ==> (#[trigger] s[j]).name != name,
    ensures
        find_in(s, name) == i,
{
    lemma_find_in_props(s, name);
    let f = find_in(s, name);
    if f < i {
        assert(s[f].name != name);
    } else if f > i {
        assert(s[i].name != name);
    }
}

proof fn lemma_delete_node_kept_failed(n: NodeModel)
    ensures
        spec_delete_node(n).0 is Some ==> status_failure(spec_delete_node(n).1) is Some,
{
}

/// Benign absence: when resolving the target meets absence or a pending
/// deletion before any obstruction, the deletion attempt reports
/// `AlreadyGone`, never an error.
pub proof fn lemma_gone_target_already_gone(s: Seq<NodeModel>, path: Seq<Seq<char>>, d: int)
    requires
        0 <= d < path.len(),
        walk_gone(s, path, d),
    ensures
        spec_delete_at(s, path, d).1 == DeletionStatus::AlreadyGone,
    decreases path.len() - d,
{
    let i = find_in(s, path[d]);
    lemma_find_in_props(s, path[d]);
    if i == s.len() {
    } else if s[i].pending_delete {
    } else if d >= path.len() - 1 {
        assert(false);
    } else if s[i].reparse {
        assert(false);
    } else if s[i].kind == NodeKind::File {
    } else {
        lemma_gone_target_already_gone(s[i].children, path, d + 1);
    }
}

/// A successful deletion leaves nothing to resolve: when an entry's outcome
/// is not `Failed`, walking the same target afterwards meets absence or a
/// pending deletion before any obstruction.
pub proof fn lemma_deleted_leaves_nothing(s: Seq<NodeModel>, path: Seq<Seq<char>>, d: int)
    requires
        0 <= d < path.len(),
        forest_wf(s),
    ensures
        status_failure(spec_delete_at(s, path, d).1) is None ==> walk_gone(
            spec_delete_at(s, path, d).0,
            path,
            d,
        ),
    decreases path.len() - d,
{
    let name = path[d];
    let i = find_in(s, name);
    lemma_find_in_props(s, name);
    let r = spec_delete_at(s, path, d);
    if i == s.len() {
    } else if d >= path.len() - 1 {
        let dn = spec_delete_node(s[i]);
        lemma_delete_node_kept_failed(s[i]);
        match dn.0 {
            Some(n2) => {},
            None => {
                let s2 = s.remove(i);
                assert forall|j: int| 0 <= j < s2.len() implies (#[trigger] s2[j]).name != name by {
                    if j < i {
                        assert(s2[j] == s[j]);
                        crate::fs_model::lemma_forest_wf_distinct(s, j, i);
                    } else {
                        assert(s2[j] == s[j + 1]);
                        crate::fs_model::lemma_forest_wf_distinct(s, i, j + 1);
                    }
                }
                lemma_find_in_absent(s2, name);
            },
        }
    } else if s[i].pending_delete {
    } else if s[i].reparse {
    } else if s[i].kind == NodeKind::File {
    } else {
        crate::fs_model::lemma_forest_wf_index(s, i);
        assert(node_wf(s[i]));
        let rc = spec_delete_at(s[i].children, path, d + 1);
        let n2 = NodeModel { children: rc.0, ..s[i] };
        let s2 = s.update(i, n2);
        lemma_deleted_leaves_nothing(s[i].children, path, d + 1);
        if status_failure(r.1) is None {
            assert(walk_gone(rc.0, path, d + 1));
            assert forall|j: int| 0 <= j < i implies (#[trigger] s2[j]).name != name by {
                assert(s2[j] == s[j]);
            }
            lemma_find_in_is_first(s2, name, i);
        }
    }
}

/// Idempotence of one deletion: once an entry's outcome was `Deleted` or
/// `AlreadyGone`, deleting the same target from what remains reports
/// `AlreadyGone` — no error escalation for an already-deleted target.
pub proof fn lemma_delete_at_idempotent(s: Seq<NodeModel>, path: Seq<Seq<char>>, d: int)
    requires
        0 <= d < path.len(),
        forest_wf(s),
        status_failure(spec_delete_at(s, path, d).1) is None,
    ensures
        spec_delete_at(spec_delete_at(s, path, d).0, path, d).1 == DeletionStatus::AlreadyGone,
{
    lemma_deleted_leaves_nothing(s, path, d);
    lemma_gone_target_already_gone(spec_delete_at(s, path, d).0, path, d);
}

proof fn lemma_no_first_failure_all_settled(sts: Seq<DeletionStatus>)
    requires
        first_failure(sts) is None,
    ensures
        forall|j: int|
            0 <= j < sts.len() ==> (#[trigger] sts[j]) == DeletionStatus::Deleted || sts[j]
                == DeletionStatus::AlreadyGone,
    decreases sts,
{
    if sts.len() > 0 {
        lemma_no_first_failure_all_settled(sts.drop_first());
        assert forall|j: int|
            0 <= j < sts.len() implies (#[trigger] sts[j]) == DeletionStatus::Deleted || sts[j]
            == DeletionStatus::AlreadyGone by {
            if j > 0 {
                assert(sts.drop_first()[j - 1] == sts[j]);
            }
        }
    }
}

/// Post-order discipline: a directory that is neither pending deletion nor
/// a reparse point is deleted only after its children; unless its own
/// outcome is `Failed`, every child's reported outcome is `Deleted` or
/// `AlreadyGone`.
pub proof fn lemma_children_settled_before_parent(n: NodeModel)
    requires
        n.kind == NodeKind::Directory,
        !n.pending_delete,
        !n.reparse,
        status_failure(spec_delete_node(n).1) is None,
    ensures
        forall|j: int|
            0 <= j < spec_delete_forest(n.children).1.len() ==> (#[trigger] spec_delete_forest(
                n.children,
            ).1[j]) == DeletionStatus::Deleted || spec_delete_forest(n.children).1[j]
                == DeletionStatus::AlreadyGone,
{
    lemma_no_first_failure_all_settled(spec_delete_forest(n.children).1);
}

/// Race resistance: when a component on the way to the target is a reparse
/// point, the resolver refuses that component's open; the entry fails with
/// `ReparsePoint`, and nothing in the tree is touched — deletion never
/// follows the reparse target.
pub proof fn lemma_reparse_refused(s: Seq<NodeModel>, path: Seq<Seq<char>>, d: int)
    requires
        0 <= d < path.len(),
        walk_blocked_by_reparse(s, path, d),
    ensures
        spec_delete_at(s, path, d).1 == DeletionStatus::Failed(FailReason::ReparsePoint),
        spec_delete_at(s, path, d).0 == s,
    decreases path.len() - d,
{
    let i = find_in(s, path[d]);
    lemma_find_in_props(s, path[d]);
    if i == s.len() {
        assert(false);
    } else if s[i].pending_delete {
        assert(false);
    } else if d >= path.len() - 1 {
        assert(false);
    } else if s[i].reparse {
    } else if s[i].kind == NodeKind::File {
        assert(false);
    } else {
        lemma_reparse_refused(s[i].children, path, d + 1);
        let rc = spec_delete_at(s[i].children, path, d + 1);
        let n2 = NodeModel { children: rc.0, ..s[i] };
        assert(n2 == s[i]);
        assert(s.update(i, n2) =~= s);
    }
}

/// Pending deletion is benign: when the target resolves and another handle
/// has already marked it for deletion, the outcome is `AlreadyGone`, not
/// `Failed`.
pub proof fn lemma_pending_target_benign(s: Seq<NodeModel>, path: Seq<Seq<char>>, d: int)
    requires
        0 <= d < path.len(),
        resolve_node(s, path, d) is Some,
        (resolve_node(s, path, d)->0).pending_delete,
    ensures
        spec_delete_at(s, path, d).1 == DeletionStatus::AlreadyGone,
    decreases path.len() - d,
{
    let i = find_in(s, path[d]);
    lemma_find_in_props(s, path[d]);
    if i == s.len() {
        assert(false);
    } else if d >= path.len() - 1 {
    } else if s[i].pending_delete || s[i].reparse || s[i].kind == NodeKind::File {
        assert(false);
    } else {
        lemma_pending_target_benign(s[i].children, path, d + 1);
    }
}

/// `b` is what may remain of the siblings `a` after deletions: a
/// subsequence of them, every kept node carrying its original name, kind
/// and marks, with its own children related the same way.
pub open spec fn forest_shrinks(a: Seq<NodeModel>, b: Seq<NodeModel>) -> bool
    decreases a,
{
    if a.len() == 0 {
        b.len() == 0
    } else {
        ||| (b.len() > 0 && node_shrinks(a[0], b[0]) && forest_shrinks(
            a.drop_first(),
            b.drop_first(),
        ))
        ||| forest_shrinks(a.drop_first(), b)
    }
}

/// `y` is what remains of the node `x`: the same node, with possibly fewer
/// descendants.
pub open spec fn node_shrinks(x: NodeModel, y: NodeModel) -> bool
    decreases x,
{
    &&& y.name == x.name
    &&& y.kind == x.kind
    &&& y.reparse == x.reparse
    &&& y.pending_delete == x.pending_delete
    &&& y.fail_code == x.fail_code
    &&& forest_shrinks(x.children, y.children)
}

proof fn lemma_forest_shrinks_refl(a: Seq<NodeModel>)
    ensures
        forest_shrinks(a, a),
    decreases a,
{
    if a.len() > 0 {
        lemma_node_shrinks_refl(a[0]);
        lemma_forest_shrinks_refl(a.drop_first());
    }
}

proof fn lemma_node_shrinks_refl(x: NodeModel)
    ensures
        node_shrinks(x, x),
    decreases x,
{
    lemma_forest_shrinks_refl(x.children);
}

proof fn lemma_sdf_shrinks(s: Seq<NodeModel>)
    ensures
        forest_shrinks(s, spec_delete_forest(s).0),
    decreases s,
{
    if s.len() > 0 {
        lemma_sdn_shrinks(s[0]);
        lemma_sdf_shrinks(s.drop_first());
        let h = spec_delete_node(s[0]);
        let t = spec_delete_forest(s.drop_first());
        match h.0 {
            Some(m) => {
                let b = seq![m] + t.0;
                assert(b[0] == m);
                assert(b.drop_first() =~= t.0);
            },
            None => {},
        }
    }
}

proof fn lemma_sdn_shrinks(n: NodeModel)
    ensures
        spec_delete_node(n).0 is Some ==> node_shrinks(n, spec_delete_node(n).0->0),
    decreases n,
{
    if !n.pending_delete {
        if n.reparse || n.kind == NodeKind::File {
            lemma_node_shrinks_refl(n);
        } else {
            lemma_sdf_shrinks(n.children);
        }
    }
}

proof fn lemma_forest_shrinks_update(s: Seq<NodeModel>, i: int, m: NodeModel)
    requires
        0 <= i < s.len(),
        node_shrinks(s[i], m),
    ensures
        forest_shrinks(s, s.update(i, m)),
    decreases s,
{
    let b = s.update(i, m);
    if i == 0 {
        assert(b[0] == m);
        assert(b.drop_first() =~= s.drop_first());
        lemma_forest_shrinks_refl(s.drop_first());
    } else {
        lemma_node_shrinks_refl(s[0]);
        assert(s.drop_first()[i - 1] == s[i]);
        lemma_forest_shrinks_update(s.drop_first(), i - 1, m);
        assert(b[0] == s[0]);
        assert(b.drop_first() =~= s.drop_first().update(i - 1, m));
    }
}

proof fn lemma_forest_shrinks_remove(s: Seq<NodeModel>, i: int)
    requires
        0 <= i < s.len(),
    ensures
        forest_shrinks(s, s.remove(i)),
    decreases s,
{
    let b = s.remove(i);
    if i == 0 {
        assert(b =~= s.drop_first());
        lemma_forest_shrinks_refl(s.drop_first());
    } else {
        lemma_node_shrinks_refl(s[0]);
        assert(s.drop_first()[i - 1] == s[i]);
        lemma_forest_shrinks_remove(s.drop_first(), i - 1);
        assert(b[0] == s[0]);
        assert(b.drop_first() =~= s.drop_first().remove(i - 1));
    }
}

proof fn lemma_sda_shrinks(s: Seq<NodeModel>, path: Seq<Seq<char>>, d: int)
    requires
        0 <= d < path.len(),
    ensures
        forest_shrinks(s, spec_delete_at(s, path, d).0),
    decreases path.len() - d,
{
    let i = find_in(s, path[d]);
    lemma_find_in_props(s, path[d]);
    if i == s.len() {
        lemma_forest_shrinks_refl(s);
    } else if d >= path.len() - 1 {
        let dn = spec_delete_node(s[i]);
        lemma_sdn_shrinks(s[i]);
        match dn.0 {
            Some(m) => {
                lemma_forest_shrinks_update(s, i, m);
            },
            None => {
                lemma_forest_shrinks_remove(s, i);
            },
        }
    } else if s[i].pending_delete || s[i].reparse || s[i].kind == NodeKind::File {
        lemma_forest_shrinks_refl(s);
    } else {
        lemma_sda_shrinks(s[i].children, path, d + 1);
        let rc = spec_delete_at(s[i].children, path, d + 1);
        let n2 = NodeModel { children: rc.0, ..s[i] };
        assert(node_shrinks(s[i], n2));
        lemma_forest_shrinks_update(s, i, n2);
    }
}

proof fn lemma_forest_shrinks_trans(a: Seq<NodeModel>, b: Seq<NodeModel>, c: Seq<NodeModel>)
    requires
        forest_shrinks(a, b),
        forest_shrinks(b, c),
    ensures
        forest_shrinks(a, c),
    decreases a,
{
    if a.len() > 0 {
        if forest_shrinks(a.drop_first(), b) {
            lemma_forest_shrinks_trans(a.drop_first(), b, c);
        } else {
            assert(b.len() > 0 && node_shrinks(a[0], b[0]) && forest_shrinks(
                a.drop_first(),
                b.drop_first(),
            ));
            if forest_shrinks(b.drop_first(), c) {
                lemma_forest_shrinks_trans(a.drop_first(), b.drop_first(), c);
            } else {
                assert(c.len() > 0 && node_shrinks(b[0], c[0]) && forest_shrinks(
                    b.drop_first(),
                    c.drop_first(),
                ));
                lemma_node_shrinks_trans(a[0], b[0], c[0]);
                lemma_forest_shrinks_trans(a.drop_first(), b.drop_first(), c.drop_first());
            }
        }
    }
}

proof fn lemma_node_shrinks_trans(x: NodeModel, y: NodeModel, z: NodeModel)
    requires
        node_shrinks(x, y),
        node_shrinks(y, z),
    ensures
        node_shrinks(x, z),
    decreases x,
{
    lemma_forest_shrinks_trans(x.children, y.children, z.children);
}

proof fn lemma_shrinks_absent_name(a: Seq<NodeModel>, b: Seq<NodeModel>, nm: Seq<char>)
    requires
        forest_shrinks(a, b),
        forall|i: int| 0 <= i < a.len() ==> (#[trigger] a[i]).name != nm,
    ensures
        forall|j: int| 0 <= j < b.len() ==> (#[trigger] b[j]).name != nm,
    decreases a,
{
    if a.len() > 0 {
        assert forall|i: int|
            0 <= i < a.drop_first().len() implies (#[trigger] a.drop_first()[i]).name != nm by {
            assert(a.drop_first()[i] == a[i + 1]);
        }
        if forest_shrinks(a.drop_first(), b) {
            lemma_shrinks_absent_name(a.drop_first(), b, nm);
        } else {
            assert(b.len() > 0 && node_shrinks(a[0], b[0]) && forest_shrinks(
                a.drop_first(),
                b.drop_first(),
            ));
            lemma_shrinks_absent_name(a.drop_first(), b.drop_first(), nm);
            assert forall|j: int| 0 <= j < b.len() implies (#[trigger] b[j]).name != nm by {
                if j > 0 {
                    assert(b.drop_first()[j - 1] == b[j]);
                } else {
                    assert(a[0].name != nm);
                    assert(b[0].name == a[0].name);
                }
            }
        }
    }
}

proof fn lemma_shrinks_preserves_node_wf(x: NodeModel, y: NodeModel)
    requires
        node_wf(x),
        node_shrinks(x, y),
    ensures
        node_wf(y),
    decreases x,
{
    if x.kind == NodeKind::File || x.reparse {
        assert(x.children.len() == 0);
        assert(y.children.len() == 0);
    }
    lemma_shrinks_preserves_wf(x.children, y.children);
}

proof fn lemma_shrinks_preserves_wf(a: Seq<NodeModel>, b: Seq<NodeModel>)
    requires
        forest_wf(a),
        forest_shrinks(a, b),
    ensures
        forest_wf(b),
    decreases a,
{
    if a.len() > 0 {
        if forest_shrinks(a.drop_first(), b) {
            lemma_shrinks_preserves_wf(a.drop_first(), b);
        } else {
            assert(b.len() > 0 && node_shrinks(a[0], b[0]) && forest_shrinks(
                a.drop_first(),
                b.drop_first(),
            ));
            lemma_shrinks_preserves_node_wf(a[0], b[0]);
            lemma_shrinks_preserves_wf(a.drop_first(), b.drop_first());
            assert forall|i: int|
                0 <= i < a.drop_first().len() implies (#[trigger] a.drop_first()[i]).name
                != b[0].name by {
                assert(a.drop_first()[i] == a[i + 1]);
            }
            lemma_shrinks_absent_name(a.drop_first(), b.drop_first(), b[0].name);
            assert forall|j: int| 1 <= j < b.len() implies (#[trigger] b[j]).name != b[0].name by {
                assert(b.drop_first()[j - 1] == b[j]);
            }
        }
    }
}

proof fn lemma_shrinks_find(a: Seq<NodeModel>, b: Seq<NodeModel>, nm: Seq<char>)
    requires
        forest_wf(a),
        forest_shrinks(a, b),
    ensures
        find_in(b, nm) == b.len() || (find_in(a, nm) < a.len() && find_in(b, nm) < b.len()
            && node_shrinks(a[find_in(a, nm)], b[find_in(b, nm)])),
    decreases a,
{
    lemma_find_in_props(a, nm);
    lemma_find_in_props(b, nm);
    if a.len() == 0 {
    } else if forest_shrinks(a.drop_first(), b) {
        if a[0].name == nm {
            assert forall|i: int|
                0 <= i < a.drop_first().len() implies (#[trigger] a.drop_first()[i]).name
                != nm by {
                assert(a.drop_first()[i] == a[i + 1]);
            }
            lemma_shrinks_absent_name(a.drop_first(), b, nm);
            if find_in(b, nm) < b.len() {
                assert(b[find_in(b, nm)].name != nm);
            }
        } else {
            lemma_shrinks_find(a.drop_first(), b, nm);
            if find_in(b, nm) < b.len() {
                assert(find_in(a, nm) == 1 + find_in(a.drop_first(), nm));
                assert(a.drop_first()[find_in(a.drop_first(), nm)] == a[find_in(a, nm)]);
            }
        }
    } else {
        assert(b.len() > 0 && node_shrinks(a[0], b[0]) && forest_shrinks(
            a.drop_first(),
            b.drop_first(),
        ));
        if a[0].name == nm {
            assert(find_in(a, nm) == 0);
            assert(b[0].name == nm);
            assert(find_in(b, nm) == 0);
        } else {
            assert(b[0].name != nm);
            lemma_shrinks_find(a.drop_first(), b.drop_first(), nm);
            assert(find_in(a, nm) == 1 + find_in(a.drop_first(), nm));
            assert(find_in(b, nm) == 1 + find_in(b.drop_first(), nm));
            if find_in(b.drop_first(), nm) < b.drop_first().len() {
                assert(a.drop_first()[find_in(a.drop_first(), nm)] == a[find_in(a, nm)]);
                assert(b.drop_first()[find_in(b.drop_first(), nm)] == b[find_in(b, nm)]);
            }
        }
    }
}

proof fn lemma_walk_gone_shrinks(
    a: Seq<NodeModel>,
    b: Seq<NodeModel>,
    q: Seq<Seq<char>>,
    d: int,
)
    requires
        0 <= d < q.len(),
        forest_wf(a),
        forest_shrinks(a, b),
        walk_gone(a, q, d),
    ensures
        walk_gone(b, q, d),
    decreases q.len() - d,
{
    let fa = find_in(a, q[d]);
    let fb = find_in(b, q[d]);
    lemma_find_in_props(a, q[d]);
    lemma_find_in_props(b, q[d]);
    lemma_shrinks_find(a, b, q[d]);
    if fb == b.len() {
    } else {
        assert(fa < a.len() && node_shrinks(a[fa], b[fb]));
        if a[fa].pending_delete {
        } else if d >= q.len() - 1 {
            assert(false);
        } else if a[fa].reparse {
            assert(false);
        } else if a[fa].kind == NodeKind::File {
        } else {
            crate::fs_model::lemma_forest_wf_index(a, fa);
            lemma_walk_gone_shrinks(a[fa].children, b[fb].children, q, d + 1);
        }
    }
}

proof fn lemma_sda_all_len(s: Seq<NodeModel>, es: Seq<ResolvedExclusion>, d: int)
    ensures
        spec_delete_all(s, es, d).1.len() == es.len(),
    decreases es.len(),
{
    if es.len() > 0 {
        let e = spec_delete_target(s, es[0], d);
        lemma_sda_all_len(e.0, es.drop_first(), d);
    }
}

proof fn lemma_all_gone_all_already_gone(t: Seq<NodeModel>, es: Seq<ResolvedExclusion>, d: int)
    requires
        0 <= d,
        forest_wf(t),
        forall|k: int|
            0 <= k < es.len() && (#[trigger] es[k]).kind != PathKind::Unknown ==> d
                < es[k].target_path@.len() && walk_gone(t, es[k].target_path@, d),
    ensures
        forall|j: int|
            0 <= j < es.len() ==> (#[trigger] spec_delete_all(t, es, d).1[j])
                == DeletionStatus::AlreadyGone,
    decreases es.len(),
{
    if es.len() > 0 {
        let e = spec_delete_target(t, es[0], d);
        let tail = es.drop_first();
        if es[0].kind != PathKind::Unknown {
            let p0 = es[0].target_path@;
            lemma_gone_target_already_gone(t, p0, d);
            lemma_sda_shrinks(t, p0, d);
            lemma_shrinks_preserves_wf(t, e.0);
            assert forall|k: int|
                0 <= k < tail.len() && (#[trigger] tail[k]).kind != PathKind::Unknown implies d
                < tail[k].target_path@.len() && walk_gone(e.0, tail[k].target_path@, d) by {
                assert(tail[k] == es[k + 1]);
                lemma_walk_gone_shrinks(t, e.0, es[k + 1].target_path@, d);
            }
        } else {
            assert(e.0 == t);
            assert forall|k: int|
                0 <= k < tail.len() && (#[trigger] tail[k]).kind != PathKind::Unknown implies d
                < tail[k].target_path@.len() && walk_gone(e.0, tail[k].target_path@, d) by {
                assert(tail[k] == es[k + 1]);
            }
        }
        lemma_all_gone_all_already_gone(e.0, tail, d);
        let rest = spec_delete_all(e.0, tail, d);
        lemma_sda_all_len(e.0, tail, d);
        assert forall|j: int|
            0 <= j < es.len() implies (#[trigger] spec_delete_all(t, es, d).1[j])
            == DeletionStatus::AlreadyGone by {
            assert(spec_delete_all(t, es, d).1 == seq![e.1] + rest.1);
            if j > 0 {
                assert((seq![e.1] + rest.1)[j] == rest.1[j - 1]);
            } else {
                assert((seq![e.1] + rest.1)[0] == e.1);
            }
        }
    }
}

proof fn lemma_first_run_clears(s: Seq<NodeModel>, es: Seq<ResolvedExclusion>, d: int)
    requires
        0 <= d,
        forest_wf(s),
        forall|k: int|
            0 <= k < es.len() && (#[trigger] es[k]).kind != PathKind::Unknown ==> d
                < es[k].target_path@.len(),
        forall|j: int|
            0 <= j < es.len() ==> status_failure(#[trigger] spec_delete_all(s, es, d).1[j]) is None,
    ensures
        forest_wf(spec_delete_all(s, es, d).0),
        forest_shrinks(s, spec_delete_all(s, es, d).0),
        forall|k: int|
            0 <= k < es.len() && (#[trigger] es[k]).kind != PathKind::Unknown ==> walk_gone(
                spec_delete_all(s, es, d).0,
                es[k].target_path@,
                d,
            ),
    decreases es.len(),
{
    if es.len() == 0 {
        lemma_forest_shrinks_refl(s);
    } else {
        let e = spec_delete_target(s, es[0], d);
        let tail = es.drop_first();
        let rest = spec_delete_all(e.0, tail, d);
        let fin = spec_delete_all(s, es, d).0;
        assert(fin == rest.0);
        assert(spec_delete_all(s, es, d).1 == seq![e.1] + rest.1);
        assert(spec_delete_all(s, es, d).1[0] == e.1);
        assert(status_failure(e.1) is None);
        if es[0].kind != PathKind::Unknown {
            let p0 = es[0].target_path@;
            lemma_sda_shrinks(s, p0, d);
            lemma_shrinks_preserves_wf(s, e.0);
            lemma_deleted_leaves_nothing(s, p0, d);
            assert(walk_gone(e.0, p0, d));
        } else {
            assert(e.0 == s);
            lemma_forest_shrinks_refl(s);
        }
        lemma_sda_all_len(e.0, tail, d);
        assert forall|j: int|
            0 <= j < tail.len() implies status_failure(
            #[trigger] spec_delete_all(e.0, tail, d).1[j],
        ) is None by {
            assert((seq![e.1] + rest.1)[j + 1] == rest.1[j]);
            assert(status_failure(spec_delete_all(s, es, d).1[j + 1]) is None);
        }
        assert forall|k: int|
            0 <= k < tail.len() && (#[trigger] tail[k]).kind != PathKind::Unknown implies d
            < tail[k].target_path@.len() by {
            assert(tail[k] == es[k + 1]);
        }
        lemma_first_run_clears(e.0, tail, d);
        lemma_forest_shrinks_trans(s, e.0, fin);
        assert forall|k: int|
            0 <= k < es.len() && (#[trigger] es[k]).kind != PathKind::Unknown implies walk_gone(
            fin,
            es[k].target_path@,
            d,
        ) by {
            if k == 0 {
                lemma_walk_gone_shrinks(e.0, fin, es[0].target_path@, d);
            } else {
                assert(tail[k - 1] == es[k]);
            }
        }
    }
}

/// Idempotence of a whole run: when every entry of one `delete_all` run
/// ends `Deleted` or `AlreadyGone`, running it again on the same resolved
/// exclusions reports `AlreadyGone` for every entry — no error escalation
/// for already-deleted targets.
pub proof fn lemma_delete_all_idempotent(s: Seq<NodeModel>, es: Seq<ResolvedExclusion>, d: int)
    requires
        0 <= d,
        forest_wf(s),
        forall|k: int|
            0 <= k < es.len() && (#[trigger] es[k]).kind != PathKind::Unknown ==> d
                < es[k].target_path@.len(),
        forall|j: int|
            0 <= j < es.len() ==> status_failure(#[trigger] spec_delete_all(s, es, d).1[j]) is None,
    ensures
        forall|j: int|
            0 <= j < es.len() ==> (#[trigger] spec_delete_all(
                spec_delete_all(s, es, d).0,
                es,
                d,
            ).1[j]) == DeletionStatus::AlreadyGone,
{
    lemma_first_run_clears(s, es, d);
    lemma_all_gone_all_already_gone(spec_delete_all(s, es, d).0, es, d);
}

} // verus!
