//! The destination tree as the deletion engine sees it.
//!
//! Deletion works by handle, never by re-resolved path strings: once the
//! destination root is open, every object is reached component by component
//! from its parent. Within one run that handle chain pins each object, so the
//! engine's view of the destination is a tree of named nodes. [`FsNode`]
//! carries, besides name and kind, the conditions the resolver can meet on an
//! open: a reparse point (never traversed), a deletion already pending on
//! another handle (benign), or an operating-system error code that the object
//! answers with.

use vstd::prelude::*;

verus! {

/// What a destination entry is.
#[derive(Clone, Copy, PartialEq, Eq, Structural, Debug)]
pub enum NodeKind {
    File,
    Directory,
}

/// One filesystem object below the destination root.
pub struct FsNode {
    /// The single component naming this object in its parent directory.
    pub name: String,
    pub kind: NodeKind,
    /// The object is a symbolic link, junction or mount point. The resolver
    /// refuses to traverse it, and deleting it unlinks the point itself.
    pub reparse: bool,
    /// Another handle has already marked the object for deletion; the
    /// filesystem removes it once all handles close.
    pub pending_delete: bool,
    /// When set, any delete issued on the object fails with this code.
    pub fail_code: Option<u32>,
    /// Directory entries; empty for files and reparse points.
    pub children: Vec<FsNode>,
}

/// The destination tree under the opened destination root handle.
pub struct FsTree {
    pub entries: Vec<FsNode>,
}

/// The mathematical shape of one node: [`FsNode`] with sequences for text
/// and children.
pub struct NodeModel {
    pub name: Seq<char>,
    pub kind: NodeKind,
    pub reparse: bool,
    pub pending_delete: bool,
    pub fail_code: Option<u32>,
    pub children: Seq<NodeModel>,
}

/// The shape of one node.
pub open spec fn node_model(n: FsNode) -> NodeModel
    decreases n,
{
    NodeModel {
        name: n.name@,
        kind: n.kind,
        reparse: n.reparse,
        pending_delete: n.pending_delete,
        fail_code: n.fail_code,
        children: forest_model(n.children@),
    }
}

/// The shapes of a sequence of sibling nodes.
pub open spec fn forest_model(s: Seq<FsNode>) -> Seq<NodeModel>
    decreases s,
{
    if s.len() == 0 {
        Seq::empty()
    } else {
        seq![node_model(s[0])] + forest_model(s.drop_first())
    }
}

pub proof fn lemma_forest_model_len(s: Seq<FsNode>)
    ensures
        forest_model(s).len() == s.len(),
    decreases s,
{
    if s.len() > 0 {
        lemma_forest_model_len(s.drop_first());
    }
}

pub proof fn lemma_forest_model_index(s: Seq<FsNode>, i: int)
    requires
        0 <= i < s.len(),
    ensures
        forest_model(s).len() == s.len(),
        forest_model(s)[i] == node_model(s[i]),
    decreases s,
{
    lemma_forest_model_len(s);
    if i > 0 {
        lemma_forest_model_index(s.drop_first(), i - 1);
    }
}

pub proof fn lemma_forest_model_remove(s: Seq<FsNode>, i: int)
    requires
        0 <= i < s.len(),
    ensures
        forest_model(s.remove(i)) == forest_model(s).remove(i),
{
    lemma_forest_model_len(s);
    lemma_forest_model_len(s.remove(i));
    assert forall|j: int| 0 <= j < s.remove(i).len() implies forest_model(s.remove(i))[j]
        == forest_model(s).remove(i)[j] by {
        lemma_forest_model_index(s.remove(i), j);
        if j < i {
            lemma_forest_model_index(s, j);
            assert(s.remove(i)[j] == s[j]);
        } else {
            lemma_forest_model_index(s, j + 1);
            assert(s.remove(i)[j] == s[j + 1]);
        }
    }
    assert(forest_model(s.remove(i)) =~= forest_model(s).remove(i));
}

pub proof fn lemma_forest_model_insert(s: Seq<FsNode>, i: int, n: FsNode)
    requires
        0 <= i <= s.len(),
    ensures
        forest_model(s.insert(i, n)) == forest_model(s).insert(i, node_model(n)),
{
    lemma_forest_model_len(s);
    lemma_forest_model_len(s.insert(i, n));
    assert forall|j: int| 0 <= j < s.insert(i, n).len() implies forest_model(s.insert(i, n))[j]
        == forest_model(s).insert(i, node_model(n))[j] by {
        lemma_forest_model_index(s.insert(i, n), j);
        if j < i {
            lemma_forest_model_index(s, j);
            assert(s.insert(i, n)[j] == s[j]);
        } else if j == i {
            assert(s.insert(i, n)[j] == n);
        } else {
            lemma_forest_model_index(s, j - 1);
            assert(s.insert(i, n)[j] == s[j - 1]);
        }
    }
    assert(forest_model(s.insert(i, n)) =~= forest_model(s).insert(i, node_model(n)));
}

impl View for FsTree {
    type V = Seq<NodeModel>;

    open spec fn view(&self) -> Seq<NodeModel> {
        forest_model(self.entries@)
    }
}

/// The number of nodes in a tree, counting the node itself.
pub open spec fn model_size(n: NodeModel) -> nat
    decreases n,
{
    1 + forest_size(n.children)
}

/// The number of nodes in a forest.
pub open spec fn forest_size(s: Seq<NodeModel>) -> nat
    decreases s,
{
    if s.len() == 0 {
        0
    } else {
        model_size(s[0]) + forest_size(s.drop_first())
    }
}

pub proof fn lemma_forest_size_index(s: Seq<NodeModel>, i: int)
    requires
        0 <= i < s.len(),
    ensures
        model_size(s[i]) <= forest_size(s),
    decreases s,
{
    if i > 0 {
        lemma_forest_size_index(s.drop_first(), i - 1);
    }
}

/// Sibling names are distinct, files and reparse points carry no children.
pub open spec fn forest_wf(s: Seq<NodeModel>) -> bool
    decreases s,
{
    s.len() == 0 || {
        &&& node_wf(s[0])
        &&& (forall|j: int| 1 <= j < s.len() ==> (#[trigger] s[j]).name != s[0].name)
        &&& forest_wf(s.drop_first())
    }
}

pub proof fn lemma_forest_wf_index(s: Seq<NodeModel>, i: int)
    requires
        forest_wf(s),
        0 <= i < s.len(),
    ensures
        node_wf(s[i]),
    decreases s,
{
    if i > 0 {
        lemma_forest_wf_index(s.drop_first(), i - 1);
        assert(s.drop_first()[i - 1] == s[i]);
    }
}

pub proof fn lemma_forest_wf_distinct(s: Seq<NodeModel>, i: int, j: int)
    requires
        forest_wf(s),
        0 <= i < j < s.len(),
    ensures
        s[i].name != s[j].name,
    decreases s,
{
    if i == 0 {
        assert(s[j].name != s[0].name);
    } else {
        lemma_forest_wf_distinct(s.drop_first(), i - 1, j - 1);
        assert(s.drop_first()[i - 1] == s[i]);
        assert(s.drop_first()[j - 1] == s[j]);
    }
}

/// A node is well-formed: no children below a file or a reparse point, and
/// a well-formed forest below a directory.
pub open spec fn node_wf(n: NodeModel) -> bool
    decreases n,
{
    &&& (n.kind == NodeKind::File ==> n.children.len() == 0)
    &&& (n.reparse ==> n.children.len() == 0)
    &&& forest_wf(n.children)
}

/// The position of the sibling named `name`, or `s.len()` when there is none.
pub open spec fn find_in(s: Seq<NodeModel>, name: Seq<char>) -> int
    decreases s,
{
    if s.len() == 0 {
        0
    } else if s[0].name == name {
        0
    } else {
        1 + find_in(s.drop_first(), name)
    }
}

pub proof fn lemma_find_in_props(s: Seq<NodeModel>, name: Seq<char>)
    ensures
        0 <= find_in(s, name) <= s.len(),
        find_in(s, name) < s.len() ==> s[find_in(s, name)].name == name,
        forall|j: int| 0 <= j < find_in(s, name) ==> s[j].name != name,
        find_in(s, name) == s.len() ==> forall|j: int| 0 <= j < s.len() ==> s[j].name != name,
    decreases s,
{
    if s.len() > 0 && s[0].name != name {
        let t = s.drop_first();
        lemma_find_in_props(t, name);
        assert forall|j: int| 0 <= j < find_in(s, name) implies s[j].name != name by {
            if j > 0 {
                assert(t[j - 1] == s[j]);
            }
        }
        if find_in(s, name) == s.len() {
            assert forall|j: int| 0 <= j < s.len() implies s[j].name != name by {
                if j > 0 {
                    assert(t[j - 1] == s[j]);
                }
            }
        }
    }
}

/// Finds the entry of `nodes` named `name`; `nodes.len()` when there is none.
pub fn find_child(nodes: &Vec<FsNode>, name: &String) -> (i: usize)
    ensures
        i <= nodes.len(),
        i as int == find_in(forest_model(nodes@), name@),
{
    proof {
        lemma_forest_model_len(nodes@);
        lemma_find_in_props(forest_model(nodes@), name@);
    }
    let ghost s = forest_model(nodes@);
    let mut i: usize = 0;
    while i < nodes.len()
        invariant
            i <= nodes.len(),
            s == forest_model(nodes@),
            s.len() == nodes.len(),
            forall|j: int| 0 <= j < i ==> s[j].name != name@,
            0 <= find_in(s, name@) <= s.len(),
            find_in(s, name@) < s.len() ==> s[find_in(s, name@)].name == name@,
            forall|j: int| 0 <= j < find_in(s, name@) ==> s[j].name != name@,
            find_in(s, name@) == s.len() ==> forall|j: int| 0 <= j < s.len() ==> s[j].name
                != name@,
        decreases nodes.len() - i,
    {
        proof {
            lemma_forest_model_index(nodes@, i as int);
        }
        if nodes[i].name == *name {
            proof {
                let f = find_in(s, name@);
                if f < i {
                    assert(s[f].name != name@);
                } else if f > i {
                    assert(s[i as int].name != name@);
                }
            }
            return i;
        }
        i += 1;
    }
    i
}

/// Resolves `path[d..]` from the siblings `s`, traversing only plain
/// directories that are neither reparse points nor pending deletion.
pub open spec fn resolve_node(s: Seq<NodeModel>, path: Seq<Seq<char>>, d: int) -> Option<
    NodeModel,
>
    recommends
        0 <= d < path.len(),
    decreases path.len() - d,
{
    let i = find_in(s, path[d]);
    if i == s.len() {
        None
    } else if d >= path.len() - 1 {
        Some(s[i])
    } else if s[i].pending_delete || s[i].reparse || s[i].kind == NodeKind::File {
        None
    } else {
        resolve_node(s[i].children, path, d + 1)
    }
}

/// Looks up what `path[d..]` names in `nodes`, when anything.
pub fn resolve_kind(nodes: &Vec<FsNode>, path: &crate::paths::SyncPath, d: usize) -> (r: Option<
    NodeKind,
>)
    requires
        d < path.components@.len(),
    ensures
        r == match resolve_node(forest_model(nodes@), path@, d as int) {
            Some(n) => Some(n.kind),
            None => None::<NodeKind>,
        },
    decreases path.components@.len() - d,
{
    let ghost s = forest_model(nodes@);
    let i = find_child(nodes, &path.components[d]);
    proof {
        lemma_forest_model_len(nodes@);
        if (i as int) < s.len() {
            lemma_forest_model_index(nodes@, i as int);
        }
    }
    if i == nodes.len() {
        None
    } else {
        let node = &nodes[i];
        let n = path.components.len();
        if d >= n - 1 {
            Some(node.kind)
        } else if node.pending_delete || node.reparse {
            None
        } else if matches!(node.kind, NodeKind::File) {
            None
        } else {
            resolve_kind(&node.children, path, d + 1)
        }
    }
}

} // verus!
