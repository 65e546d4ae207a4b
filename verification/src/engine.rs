//! The deletion engine.
//!
//! Given containment-verified destination paths, the engine resolves each
//! target from the destination root, component by component, refusing to
//! traverse reparse points, and deletes it: files by a single
//! delete-by-handle request, directories by post-order tear-down — every
//! child deleted before its parent, addressed relative to the open parent,
//! never by a re-resolved path string. A deletion already pending on another
//! handle and a target that is no longer present are benign (`AlreadyGone`);
//! any other failure is confined to its own entry.
//!
//! The whole engine is stated twice: as executable code over [`FsTree`] and
//! as the spec functions [`spec_delete_at`], [`spec_delete_node`] and
//! [`spec_delete_forest`] over node shapes; each executable function returns
//! exactly what its spec function says.

use crate::fs_model::{
    find_child, find_in, forest_model, forest_size, lemma_find_in_props, lemma_forest_model_index,
    lemma_forest_model_insert, lemma_forest_model_len, lemma_forest_model_remove,
    lemma_forest_size_index, model_size, FsNode, FsTree, NodeKind, NodeModel,
};
use crate::paths::{is_strict_path_prefix, views_of, SyncPath};
use crate::translate::{PathKind, ResolvedExclusion};
use vstd::prelude::*;

verus! {

/// Why one entry could not be deleted.
#[derive(Clone, Copy, PartialEq, Eq, Structural, Debug)]
pub enum FailReason {
    /// A component on the way to the target turned out to be a reparse
    /// point; the resolver refuses to traverse it.
    ReparsePoint,
    /// The operating system answered an open or delete with this code.
    OsError(u32),
}

/// The terminal outcome of one deletion target.
#[derive(Clone, Copy, PartialEq, Eq, Structural, Debug)]
pub enum DeletionStatus {
    /// The target and everything below it was removed.
    Deleted,
    /// Nothing was there to delete, or its deletion was already pending.
    AlreadyGone,
    /// The target (or some part below it) remains; the reason names the
    /// first failure met.
    Failed(FailReason),
}

/// One entry of the run report.
pub struct DeletionOutcome {
    pub target_path: SyncPath,
    pub status: DeletionStatus,
}

/// The object named by the path was not found.
pub const CODE_FILE_NOT_FOUND: u32 = 2;

/// A directory on the way to the object was not found.
pub const CODE_PATH_NOT_FOUND: u32 = 3;

/// Another handle has already marked the object for deletion.
pub const CODE_DELETE_PENDING: u32 = 0xC0000056;

/// The explicit, exhaustive classification from a raw operating-system
/// status code to a terminal outcome: the two "not found" codes and
/// "deletion already pending" are benign and count as `AlreadyGone`; every
/// other code is a per-entry failure carrying the code.
pub fn classify_os_error(code: u32) -> (st: DeletionStatus)
    ensures
        st == (if code == CODE_FILE_NOT_FOUND || code == CODE_PATH_NOT_FOUND || code
            == CODE_DELETE_PENDING {
            DeletionStatus::AlreadyGone
        } else {
            DeletionStatus::Failed(FailReason::OsError(code))
        }),
{
    if code == CODE_FILE_NOT_FOUND || code == CODE_PATH_NOT_FOUND || code == CODE_DELETE_PENDING {
        DeletionStatus::AlreadyGone
    } else {
        DeletionStatus::Failed(FailReason::OsError(code))
    }
}

/// The reason inside a `Failed` status, when any.
pub open spec fn status_failure(st: DeletionStatus) -> Option<FailReason> {
    match st {
        DeletionStatus::Failed(r) => Some(r),
        _ => None,
    }
}

/// The first failure among a sequence of child statuses.
pub open spec fn first_failure(sts: Seq<DeletionStatus>) -> Option<FailReason>
    decreases sts,
{
    if sts.len() == 0 {
        None
    } else {
        match status_failure(sts[0]) {
            Some(r) => Some(r),
            None => first_failure(sts.drop_first()),
        }
    }
}

/// Deleting one node: what of it remains (`None` when it is gone) and its
/// status. A node pending deletion is already as good as gone; a file or a
/// reparse point is unlinked by itself; a directory loses its children
/// first, in order, and is removed only when every child ended `Deleted` or
/// `AlreadyGone` — otherwise it stays, with the first child failure as its
/// cause.
pub open spec fn spec_delete_node(n: NodeModel) -> (Option<NodeModel>, DeletionStatus)
    decreases n,
{
    if n.pending_delete {
        (None, DeletionStatus::AlreadyGone)
    } else if n.reparse || n.kind == NodeKind::File {
        match n.fail_code {
            Some(c) => (Some(n), DeletionStatus::Failed(FailReason::OsError(c))),
            None => (None, DeletionStatus::Deleted),
        }
    } else {
        let r = spec_delete_forest(n.children);
        let kept = NodeModel { children: r.0, ..n };
        match first_failure(r.1) {
            Some(reason) => (Some(kept), DeletionStatus::Failed(reason)),
            None => match n.fail_code {
                Some(c) => (Some(kept), DeletionStatus::Failed(FailReason::OsError(c))),
                None => (None, DeletionStatus::Deleted),
            },
        }
    }
}

/// Deleting every entry of a directory, in order: what remains and the
/// status of each entry.
pub open spec fn spec_delete_forest(s: Seq<NodeModel>) -> (Seq<NodeModel>, Seq<DeletionStatus>)
    decreases s,
{
    if s.len() == 0 {
        (Seq::empty(), Seq::empty())
    } else {
        let h = spec_delete_node(s[0]);
        let t = spec_delete_forest(s.drop_first());
        let kept = match h.0 {
            Some(n) => seq![n] + t.0,
            None => t.0,
        };
        (kept, seq![h.1] + t.1)
    }
}

/// `spec_delete_node` over what optionally remains of a node.
pub open spec fn opt_node_model(o: Option<FsNode>) -> Option<NodeModel> {
    match o {
        Some(n) => Some(crate::fs_model::node_model(n)),
        None => None,
    }
}

/// Deletes one already-resolved node: its children first, post-order, then
/// the node itself.
fn delete_node(node: FsNode) -> (r: (Option<FsNode>, DeletionStatus))
    ensures
        opt_node_model(r.0) == spec_delete_node(crate::fs_model::node_model(node)).0,
        r.1 == spec_delete_node(crate::fs_model::node_model(node)).1,
    decreases model_size(crate::fs_model::node_model(node)), 0int,
{
    let ghost nm = crate::fs_model::node_model(node);
    if node.pending_delete {
        // Another handle already asked for this deletion: success-equivalent.
        return (None, DeletionStatus::AlreadyGone);
    }
    let is_file = matches!(node.kind, NodeKind::File);
    if node.reparse || is_file {
        // A reparse point is unlinked by itself, never entered.
        match node.fail_code {
            Some(c) => {
                return (Some(node), DeletionStatus::Failed(FailReason::OsError(c)));
            },
            None => {
                return (None, DeletionStatus::Deleted);
            },
        }
    }
    let FsNode { name, kind, reparse, pending_delete, fail_code, children } = node;
    proof {
        assert(nm.children == forest_model(children@));
        assert(model_size(nm) == 1 + forest_size(forest_model(children@)));
    }
    let (kept, ff) = delete_forest(children);
    match ff {
        Some(reason) => {
            let rebuilt = FsNode { name, kind, reparse, pending_delete, fail_code, children: kept };
            proof {
                assert(crate::fs_model::node_model(rebuilt) == NodeModel {
                    children: spec_delete_forest(nm.children).0,
                    ..nm
                });
            }
            (Some(rebuilt), DeletionStatus::Failed(reason))
        },
        None => {
            match fail_code {
                Some(c) => {
                    let rebuilt = FsNode {
                        name,
                        kind,
                        reparse,
                        pending_delete,
                        fail_code,
                        children: kept,
                    };
                    proof {
                        assert(crate::fs_model::node_model(rebuilt) == NodeModel {
                            children: spec_delete_forest(nm.children).0,
                            ..nm
                        });
                    }
                    (Some(rebuilt), DeletionStatus::Failed(FailReason::OsError(c)))
                },
                None => (None, DeletionStatus::Deleted),
            }
        },
    }
}

/// Deletes every entry of a directory in order, returning what remains and
/// the first failure among the entries, when any.
fn delete_forest(s: Vec<FsNode>) -> (r: (Vec<FsNode>, Option<FailReason>))
    ensures
        forest_model(r.0@) == spec_delete_forest(forest_model(s@)).0,
        r.1 == first_failure(spec_delete_forest(forest_model(s@)).1),
    decreases forest_size(forest_model(s@)), 1int,
{
    let ghost sv = s@;
    let ghost s0 = forest_model(sv);
    if s.len() == 0 {
        proof {
            assert(s0 =~= Seq::<NodeModel>::empty());
        }
        return (s, None);
    }
    proof {
        lemma_forest_model_len(sv);
        lemma_forest_model_index(sv, 0);
        lemma_forest_size_index(s0, 0);
    }
    let mut s = s;
    let child = s.remove(0);
    proof {
        assert(s@ =~= sv.drop_first());
        assert(s0.drop_first() =~= forest_model(s@));
        assert(crate::fs_model::node_model(child) == s0[0]);
        assert(model_size(s0[0]) >= 1);
        assert(forest_size(s0) == model_size(s0[0]) + forest_size(s0.drop_first()));
    }
    let (opt, st) = delete_node(child);
    let ghost opt_m = opt_node_model(opt);
    let (rest_kept, tail_ff) = delete_forest(s);
    let mut kept = rest_kept;
    match opt {
        Some(n2) => {
            kept.insert(0, n2);
        },
        None => {},
    }
    let ff = match st {
        DeletionStatus::Failed(reason) => Some(reason),
        _ => tail_ff,
    };
    proof {
        let h = spec_delete_node(s0[0]);
        let t = spec_delete_forest(s0.drop_first());
        assert(spec_delete_forest(s0).0 == (match h.0 {
            Some(n) => seq![n] + t.0,
            None => t.0,
        }));
        assert(spec_delete_forest(s0).1 == seq![h.1] + t.1);
        assert((seq![h.1] + t.1)[0] == h.1);
        assert((seq![h.1] + t.1).drop_first() =~= t.1);
        match opt_m {
            Some(m2) => {
                assert(h.0 == Some(m2));
                assert(kept@[0] == opt->0);
                assert(kept@.drop_first() =~= rest_kept@);
                assert(forest_model(kept@) =~= seq![m2] + t.0);
            },
            None => {
                assert(h.0 is None);
            },
        }
    }
    (kept, ff)
}

/// Resolving `path[d..]` among the siblings `s` and deleting its target:
/// the siblings as they remain and the outcome of the entry. A missing
/// component means the target is already gone; a component pending deletion
/// is as good as gone; a reparse point on the way is refused; a file on the
/// way means the target path cannot exist.
pub open spec fn spec_delete_at(s: Seq<NodeModel>, path: Seq<Seq<char>>, d: int) -> (
    Seq<NodeModel>,
    DeletionStatus,
)
    recommends
        0 <= d < path.len(),
    decreases path.len() - d,
{
    let i = find_in(s, path[d]);
    if i == s.len() {
        (s, DeletionStatus::AlreadyGone)
    } else if d >= path.len() - 1 {
        let r = spec_delete_node(s[i]);
        match r.0 {
            Some(n2) => (s.update(i, n2), r.1),
            None => (s.remove(i), r.1),
        }
    } else if s[i].pending_delete {
        (s, DeletionStatus::AlreadyGone)
    } else if s[i].reparse {
        (s, DeletionStatus::Failed(FailReason::ReparsePoint))
    } else if s[i].kind == NodeKind::File {
        (s, DeletionStatus::AlreadyGone)
    } else {
        let r = spec_delete_at(s[i].children, path, d + 1);
        (s.update(i, NodeModel { children: r.0, ..s[i] }), r.1)
    }
}

/// Walks `path[d..]` from the siblings `nodes`, component by component, and
/// deletes the target.
fn delete_entry_at(nodes: Vec<FsNode>, path: &SyncPath, d: usize) -> (r: (
    Vec<FsNode>,
    DeletionStatus,
))
    requires
        d < path@.len(),
    ensures
        forest_model(r.0@) == spec_delete_at(forest_model(nodes@), path@, d as int).0,
        r.1 == spec_delete_at(forest_model(nodes@), path@, d as int).1,
    decreases path@.len() - d,
{
    let ghost nv = nodes@;
    let ghost s0 = forest_model(nv);
    proof {
        lemma_forest_model_len(nv);
        assert(path.components@.len() == path@.len());
        assert(path.components@[d as int]@ == path@[d as int]);
    }
    let i = find_child(&nodes, &path.components[d]);
    proof {
        lemma_find_in_props(s0, path@[d as int]);
    }
    if i == nodes.len() {
        return (nodes, DeletionStatus::AlreadyGone);
    }
    proof {
        lemma_forest_model_index(nv, i as int);
    }
    let plen = path.components.len();
    let mut nodes = nodes;
    if d >= plen - 1 {
        // The final component: this node is the deletion target itself.
        let node = nodes.remove(i);
        proof {
            lemma_forest_model_remove(nv, i as int);
        }
        let (opt, st) = delete_node(node);
        match opt {
            Some(n2) => {
                let ghost m2 = crate::fs_model::node_model(n2);
                nodes.insert(i, n2);
                proof {
                    lemma_forest_model_insert(nv.remove(i as int), i as int, n2);
                    assert(s0.remove(i as int).insert(i as int, m2) =~= s0.update(i as int, m2));
                }
                (nodes, st)
            },
            None => (nodes, st),
        }
    } else if nodes[i].pending_delete {
        (nodes, DeletionStatus::AlreadyGone)
    } else if nodes[i].reparse {
        // Never traverse a reparse point: fail this entry instead of
        // deleting through whatever it redirects to.
        (nodes, DeletionStatus::Failed(FailReason::ReparsePoint))
    } else if matches!(nodes[i].kind, NodeKind::File) {
        (nodes, DeletionStatus::AlreadyGone)
    } else {
        let node = nodes.remove(i);
        proof {
            lemma_forest_model_remove(nv, i as int);
        }
        let FsNode { name, kind, reparse, pending_delete, fail_code, children } = node;
        let ghost ch0 = forest_model(children@);
        proof {
            assert(s0[i as int].children == ch0);
        }
        let (ch2, st) = delete_entry_at(children, path, d + 1);
        let rebuilt = FsNode { name, kind, reparse, pending_delete, fail_code, children: ch2 };
        proof {
            assert(crate::fs_model::node_model(rebuilt) == NodeModel {
                children: spec_delete_at(ch0, path@, d + 1).0,
                ..s0[i as int]
            });
        }
        let ghost mr = crate::fs_model::node_model(rebuilt);
        nodes.insert(i, rebuilt);
        proof {
            lemma_forest_model_insert(nv.remove(i as int), i as int, rebuilt);
            assert(s0.remove(i as int).insert(i as int, mr) =~= s0.update(i as int, mr));
        }
        (nodes, st)
    }
}

/// The statuses of a sequence of outcomes, in order.
pub open spec fn statuses_of(os: Seq<DeletionOutcome>) -> Seq<DeletionStatus> {
    os.map_values(|o: DeletionOutcome| o.status)
}

/// One entry of [`spec_delete_all`]: an entry whose kind is `Unknown` names
/// nothing present and is skipped as `AlreadyGone`; any other entry is
/// resolved and deleted from depth `d`.
pub open spec fn spec_delete_target(s: Seq<NodeModel>, e: ResolvedExclusion, d: int) -> (
    Seq<NodeModel>,
    DeletionStatus,
) {
    if e.kind == PathKind::Unknown {
        (s, DeletionStatus::AlreadyGone)
    } else {
        spec_delete_at(s, e.target_path@, d)
    }
}

/// Deleting every target in order from the tree `s`: the tree as it remains
/// and the status of each entry.
pub open spec fn spec_delete_all(s: Seq<NodeModel>, es: Seq<ResolvedExclusion>, d: int) -> (
    Seq<NodeModel>,
    Seq<DeletionStatus>,
)
    decreases es.len(),
{
    if es.len() == 0 {
        (s, Seq::empty())
    } else {
        let e = spec_delete_target(s, es[0], d);
        let rest = spec_delete_all(e.0, es.drop_first(), d);
        (rest.0, seq![e.1] + rest.1)
    }
}

/// Deletes every translated exclusion from the destination tree and reports
/// one terminal outcome per entry, in order. Entries are independent: a
/// failure is confined to its own entry and never stops the run.
pub fn delete_all(
    destination_root: &SyncPath,
    destination: &mut FsTree,
    resolved_exclusions: &Vec<ResolvedExclusion>,
) -> (outcomes: Vec<DeletionOutcome>)
    requires
        forall|i: int|
            0 <= i < resolved_exclusions@.len() ==> is_strict_path_prefix(
                destination_root@,
                (#[trigger] resolved_exclusions@[i]).target_path@,
            ),
    ensures
        outcomes@.len() == resolved_exclusions@.len(),
        forall|i: int|
            0 <= i < outcomes@.len() ==> (#[trigger] outcomes@[i]).target_path@
                == resolved_exclusions@[i].target_path@,
        forest_model(final(destination).entries@) == spec_delete_all(
            forest_model(old(destination).entries@),
            resolved_exclusions@,
            destination_root@.len() as int,
        ).0,
        statuses_of(outcomes@) == spec_delete_all(
            forest_model(old(destination).entries@),
            resolved_exclusions@,
            destination_root@.len() as int,
        ).1,
{
    let d = destination_root.components.len();
    let ghost es = resolved_exclusions@;
    let ghost dd = destination_root@.len() as int;
    let ghost s_init = forest_model(destination.entries@);
    proof {
        assert(d as int == dd);
        assert(es.skip(0) =~= es);
    }
    let mut outcomes: Vec<DeletionOutcome> = Vec::new();
    proof {
        assert(statuses_of(outcomes@) =~= Seq::<DeletionStatus>::empty());
        assert(statuses_of(outcomes@) + spec_delete_all(s_init, es, dd).1 =~= spec_delete_all(
            s_init,
            es,
            dd,
        ).1);
    }
    let mut i: usize = 0;
    while i < resolved_exclusions.len()
        invariant
            i <= es.len(),
            es == resolved_exclusions@,
            dd == destination_root@.len() as int,
            d as int == dd,
            d == destination_root.components@.len(),
            forall|k: int|
                0 <= k < es.len() ==> is_strict_path_prefix(
                    destination_root@,
                    (#[trigger] es[k]).target_path@,
                ),
            outcomes@.len() == i,
            forall|k: int|
                0 <= k < i ==> (#[trigger] outcomes@[k]).target_path@ == es[k].target_path@,
            spec_delete_all(s_init, es, dd).0 == spec_delete_all(
                forest_model(destination.entries@),
                es.skip(i as int),
                dd,
            ).0,
            spec_delete_all(s_init, es, dd).1 == statuses_of(outcomes@) + spec_delete_all(
                forest_model(destination.entries@),
                es.skip(i as int),
                dd,
            ).1,
        decreases es.len() - i,
    {
        let e = &resolved_exclusions[i];
        let ghost cur = forest_model(destination.entries@);
        proof {
            assert(es.skip(i as int).len() == es.len() - i);
            assert(es.skip(i as int)[0] == es[i as int]);
            assert(es.skip(i as int).drop_first() =~= es.skip(i as int + 1));
        }
        let st: DeletionStatus;
        if matches!(e.kind, PathKind::Unknown) {
            st = DeletionStatus::AlreadyGone;
        } else {
            let mut taken: Vec<FsNode> = Vec::new();
            core::mem::swap(&mut taken, &mut destination.entries);
            let (rest, st2) = delete_entry_at(taken, &e.target_path, d);
            destination.entries = rest;
            st = st2;
        }
        proof {
            assert(spec_delete_target(cur, es[i as int], dd) == (
                forest_model(destination.entries@),
                st,
            ));
        }
        let outcome = DeletionOutcome { target_path: e.target_path.clone_path(), status: st };
        let ghost oc0 = outcomes@;
        outcomes.push(outcome);
        proof {
            assert(statuses_of(outcomes@) =~= statuses_of(oc0).push(st));
            let tail = spec_delete_all(forest_model(destination.entries@), es.skip(i as int + 1), dd);
            assert(spec_delete_all(cur, es.skip(i as int), dd).0 == tail.0);
            assert(spec_delete_all(cur, es.skip(i as int), dd).1 == seq![st] + tail.1);
            assert(statuses_of(oc0) + (seq![st] + tail.1) =~= statuses_of(outcomes@) + tail.1);
        }
        i += 1;
    }
    proof {
        assert(es.skip(i as int) =~= Seq::<ResolvedExclusion>::empty());
        assert(statuses_of(outcomes@) + Seq::<DeletionStatus>::empty() =~= statuses_of(outcomes@));
    }
    outcomes
}

} // verus!
