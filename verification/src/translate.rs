//! Re-rooting excluded source paths under the destination root, with the
//! containment guard.
//!
//! Each excluded source path is made relative to the source root and joined
//! under the destination root. Before anything may be deleted, the guard
//! checks — independently of that arithmetic — that the result still lies
//! strictly below the destination root and that no re-rooted component could
//! make the operating system step outside its parent.

use crate::fs_model::{resolve_node, FsTree, NodeKind, NodeModel};
use crate::paths::{
    is_normal_component, is_path_prefix, is_strict_path_prefix, normal_component, views_of,
    SyncPath,
};
use vstd::prelude::*;

verus! {

/// What a metadata probe said a path names: a file, a directory, or nothing
/// present (`Unknown`).
#[derive(Clone, Copy, PartialEq, Eq, Structural, Debug)]
pub enum PathKind {
    File,
    Directory,
    Unknown,
}

/// Contract violations that abort a whole run. Both mark broken inputs or
/// broken path arithmetic, never an ordinary filesystem condition.
#[derive(Clone, Copy, PartialEq, Eq, Structural, Debug)]
pub enum SyncError {
    /// An excluded path does not lie below the source root.
    NotUnderSourceRoot,
    /// A re-rooted path failed the guard: it would not stay strictly below
    /// the destination root.
    ContainmentViolation,
}

/// One excluded entry, translated to the destination and classified.
pub struct ResolvedExclusion {
    pub source_path: SyncPath,
    pub target_path: SyncPath,
    /// What the destination currently holds at `target_path`; may be stale
    /// by the time deletion runs, so the engine treats it defensively.
    pub kind: PathKind,
}

/// The destination path for an excluded source path: the components below
/// the source root, re-rooted under the destination root.
pub open spec fn retargeted(
    source_root: Seq<Seq<char>>,
    destination_root: Seq<Seq<char>>,
    p: Seq<Seq<char>>,
) -> Seq<Seq<char>> {
    destination_root + p.skip(source_root.len() as int)
}

/// Containment law: re-rooting a strict descendant of the source root always
/// yields a strict descendant of the destination root.
pub proof fn lemma_retarget_containment(
    source_root: Seq<Seq<char>>,
    destination_root: Seq<Seq<char>>,
    p: Seq<Seq<char>>,
)
    requires
        is_strict_path_prefix(source_root, p),
    ensures
        is_strict_path_prefix(destination_root, retargeted(source_root, destination_root, p)),
{
    let t = retargeted(source_root, destination_root, p);
    assert(t.take(destination_root.len() as int) =~= destination_root);
}

/// What the destination tree holds at `path[d..]`, as a [`PathKind`].
pub open spec fn kind_at(dest: Seq<NodeModel>, path: Seq<Seq<char>>, d: int) -> PathKind {
    match resolve_node(dest, path, d) {
        Some(n) => match n.kind {
            NodeKind::File => PathKind::File,
            NodeKind::Directory => PathKind::Directory,
        },
        None => PathKind::Unknown,
    }
}

/// Every path of `paths` lies at or below `root`.
pub open spec fn all_under(root: Seq<Seq<char>>, paths: Seq<SyncPath>) -> bool {
    forall|i: int| 0 <= i < paths.len() ==> is_path_prefix(root, (#[trigger] paths[i])@)
}

/// Rewrites every path in `paths` from below `current_root` to the same
/// relative place below `new_root`; fails when some path is not below
/// `current_root`.
pub fn replace_root_path(current_root: &SyncPath, new_root: &SyncPath, paths: &Vec<SyncPath>) -> (r:
    Result<Vec<SyncPath>, SyncError>)
    ensures
        match r {
            Ok(out) => {
                &&& out@.len() == paths@.len()
                &&& all_under(current_root@, paths@)
                &&& forall|i: int|
                    0 <= i < paths@.len() ==> (#[trigger] out@[i])@ == retargeted(
                        current_root@,
                        new_root@,
                        paths@[i]@,
                    )
            },
            Err(e) => e == SyncError::NotUnderSourceRoot && !all_under(current_root@, paths@),
        },
        all_under(current_root@, paths@) ==> r is Ok,
{
    let mut out: Vec<SyncPath> = Vec::new();
    let mut i: usize = 0;
    while i < paths.len()
        invariant
            i <= paths.len(),
            out@.len() == i,
            forall|j: int| 0 <= j < i ==> is_path_prefix(current_root@, (#[trigger] paths@[j])@),
            forall|j: int|
                0 <= j < i ==> (#[trigger] out@[j])@ == retargeted(
                    current_root@,
                    new_root@,
                    paths@[j]@,
                ),
        decreases paths.len() - i,
    {
        let p = &paths[i];
        match p.relative_to(current_root) {
            Some(rel) => {
                let t = new_root.join_under(&rel);
                out.push(t);
            },
            None => {
                assert(!is_path_prefix(current_root@, paths@[i as int]@));
                return Err(SyncError::NotUnderSourceRoot);
            },
        }
        i += 1;
    }
    Ok(out)
}

/// The component sequences `p[from..]` are all safe to re-root.
pub open spec fn tail_normal(p: Seq<Seq<char>>, from: int) -> bool {
    forall|j: int| from <= j < p.len() ==> normal_component(#[trigger] p[j])
}

/// Every path of `paths` is a strict descendant of `root` whose components
/// below `root` are all safe to re-root: exactly the inputs on which
/// [`translate`] succeeds.
pub open spec fn all_translatable(root: Seq<Seq<char>>, paths: Seq<SyncPath>) -> bool {
    forall|i: int|
        0 <= i < paths.len() ==> is_strict_path_prefix(root, (#[trigger] paths[i])@)
            && tail_normal(paths[i]@, root.len() as int)
}

/// Translates each excluded source path to its destination path, proves the
/// result strictly below the destination root, and classifies what the
/// destination holds there.
///
/// Fails with `NotUnderSourceRoot` when some excluded path is not a
/// descendant of the source root, and with `ContainmentViolation` when a
/// re-rooted path would not be a strict descendant of the destination root —
/// a path equal to the source root, or a component (empty, a dot or dot-dot
/// mark, or one holding a separator) that path resolution could rewrite.
/// Succeeds on exactly the inputs where neither holds.
pub fn translate(
    source_root: &SyncPath,
    destination_root: &SyncPath,
    excluded: &Vec<SyncPath>,
    destination: &FsTree,
) -> (r: Result<Vec<ResolvedExclusion>, SyncError>)
    ensures
        match r {
            Ok(out) => {
                &&& out@.len() == excluded@.len()
                &&& all_translatable(source_root@, excluded@)
                &&& forall|i: int|
                    0 <= i < excluded@.len() ==> {
                        let t = retargeted(source_root@, destination_root@, excluded@[i]@);
                        &&& (#[trigger] out@[i]).source_path@ == excluded@[i]@
                        &&& out@[i].target_path@ == t
                        &&& is_strict_path_prefix(destination_root@, out@[i].target_path@)
                        &&& out@[i].kind == kind_at(destination@, t, destination_root@.len() as int)
                    }
            },
            Err(SyncError::NotUnderSourceRoot) => !all_under(source_root@, excluded@),
            Err(SyncError::ContainmentViolation) => !all_translatable(source_root@, excluded@),
        },
        all_translatable(source_root@, excluded@) ==> r is Ok,
{
    let mut out: Vec<ResolvedExclusion> = Vec::new();
    let mut i: usize = 0;
    while i < excluded.len()
        invariant
            i <= excluded.len(),
            out@.len() == i,
            forall|k: int|
                0 <= k < i ==> is_strict_path_prefix(source_root@, (#[trigger] excluded@[k])@)
                    && tail_normal(excluded@[k]@, source_root@.len() as int),
            forall|k: int|
                0 <= k < i ==> {
                    let t = retargeted(source_root@, destination_root@, excluded@[k]@);
                    &&& (#[trigger] out@[k]).source_path@ == excluded@[k]@
                    &&& out@[k].target_path@ == t
                    &&& is_strict_path_prefix(destination_root@, out@[k].target_path@)
                    &&& out@[k].kind == kind_at(destination@, t, destination_root@.len() as int)
                },
        decreases excluded.len() - i,
    {
        let p = &excluded[i];
        let rel = match p.relative_to(source_root) {
            Some(rel) => rel,
            None => {
                assert(!is_path_prefix(source_root@, excluded@[i as int]@));
                return Err(SyncError::NotUnderSourceRoot);
            },
        };
        proof {
            assert(views_of(rel@).len() == rel@.len());
        }
        if rel.len() == 0 {
            proof {
                assert(p@.len() == source_root@.len());
                assert(!is_strict_path_prefix(source_root@, excluded@[i as int]@));
            }
            return Err(SyncError::ContainmentViolation);
        }
        // The guard proper: every re-rooted component must be one the
        // operating system's path handling cannot bend.
        let mut j: usize = 0;
        while j < rel.len()
            invariant
                j <= rel@.len(),
                views_of(rel@) == p@.skip(source_root@.len() as int),
                views_of(rel@).len() == rel@.len(),
                is_path_prefix(source_root@, p@),
                p@ == excluded@[i as int]@,
                0 <= i < excluded@.len(),
                forall|k: int| 0 <= k < j ==> normal_component((#[trigger] rel@[k])@),
            decreases rel.len() - j,
        {
            if !is_normal_component(&rel[j]) {
                proof {
                    assert(views_of(rel@)[j as int] == rel@[j as int]@);
                    assert(p@.skip(source_root@.len() as int)[j as int] == p@[source_root@.len()
                        + j]);
                    assert(!normal_component(p@[source_root@.len() + j]));
                    assert(!tail_normal(excluded@[i as int]@, source_root@.len() as int));
                }
                return Err(SyncError::ContainmentViolation);
            }
            j += 1;
        }
        proof {
            assert forall|m: int|
                source_root@.len() <= m < p@.len() implies normal_component(#[trigger] p@[m]) by {
                let k = m - source_root@.len();
                assert(views_of(rel@)[k] == rel@[k]@);
                assert(p@.skip(source_root@.len() as int)[k] == p@[m]);
                assert(normal_component(rel@[k]@));
            }
            assert(tail_normal(p@, source_root@.len() as int));
        }
        let target = destination_root.join_under(&rel);
        // Defence in depth, as a final gate independent of the arithmetic
        // above: the computed destination path must still begin with the
        // destination root and be longer than it.
        if !(target.starts_with(destination_root) && target.components.len()
            > destination_root.components.len()) {
            proof {
                assert(target@.take(destination_root@.len() as int) =~= destination_root@);
                assert(target@.len() == destination_root@.len() + rel@.len());
                assert(false);
            }
            return Err(SyncError::ContainmentViolation);
        }
        let kind = match crate::fs_model::resolve_kind(
            &destination.entries,
            &target,
            destination_root.components.len(),
        ) {
            Some(NodeKind::File) => PathKind::File,
            Some(NodeKind::Directory) => PathKind::Directory,
            None => PathKind::Unknown,
        };
        let source_path = source_root.join_under(&rel);
        proof {
            assert(source_path@ =~= p@);
        }
        out.push(ResolvedExclusion { source_path, target_path: target, kind });
        i += 1;
    }
    Ok(out)
}

} // verus!
