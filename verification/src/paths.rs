//! Absolute paths as sequences of name components.
//!
//! The operating system's own path strings never reach the core logic: a path
//! is a list of components, compared and rewritten component by component, so
//! that prefix arithmetic (stripping a source root, re-rooting under a
//! destination root) is exact and the containment guard can be stated over
//! the component sequence.

use vstd::prelude::*;
use vstd::std_specs::iter::IteratorSpec;
use vstd::string::StringExecFns;

verus! {

/// An absolute filesystem path, held as its components in order.
///
/// A leading empty component stands for the filesystem root of a POSIX-style
/// absolute path (`/tmp/foo` is `["", "tmp", "foo"]`); a drive-style first
/// component such as `C:` needs no marker.
pub struct SyncPath {
    pub components: Vec<String>,
}

/// The character sequences of a sequence of strings.
pub open spec fn views_of(s: Seq<String>) -> Seq<Seq<char>> {
    s.map_values(|x: String| x@)
}

impl View for SyncPath {
    type V = Seq<Seq<char>>;

    open spec fn view(&self) -> Seq<Seq<char>> {
        views_of(self.components@)
    }
}

/// `p` names `q` or an ancestor of `q`: `q` begins with `p`'s components.
pub open spec fn is_path_prefix(p: Seq<Seq<char>>, q: Seq<Seq<char>>) -> bool {
    p.len() <= q.len() && q.take(p.len() as int) == p
}

/// `q` lies strictly below `p`: a descendant, never `p` itself.
pub open spec fn is_strict_path_prefix(p: Seq<Seq<char>>, q: Seq<Seq<char>>) -> bool {
    is_path_prefix(p, q) && p.len() < q.len()
}

impl SyncPath {
    /// Builds a path from its components.
    pub fn from_components(components: Vec<String>) -> (r: SyncPath)
        ensures
            r@ == views_of(components@),
    {
        SyncPath { components }
    }

    /// Structural equality of two paths, component by component.
    pub fn path_eq(&self, other: &SyncPath) -> (r: bool)
        ensures
            r == (self@ == other@),
    {
        if self.components.len() != other.components.len() {
            assert(self@.len() != other@.len());
            return false;
        }
        let n = self.components.len();
        let mut i: usize = 0;
        while i < n
            invariant
                n == self.components.len(),
                n == other.components.len(),
                i <= n,
                forall|j: int| 0 <= j < i ==> self@[j] == other@[j],
            decreases n - i,
        {
            if !(self.components[i] == other.components[i]) {
                assert(self@[i as int] != other@[i as int]);
                return false;
            }
            i += 1;
        }
        proof {
            assert(self@ =~= other@);
        }
        true
    }

    /// Whether this path equals `prefix` or lies below it.
    pub fn starts_with(&self, prefix: &SyncPath) -> (r: bool)
        ensures
            r == is_path_prefix(prefix@, self@),
    {
        if prefix.components.len() > self.components.len() {
            return false;
        }
        let n = prefix.components.len();
        let mut i: usize = 0;
        while i < n
            invariant
                n == prefix.components.len(),
                n <= self.components.len(),
                i <= n,
                forall|j: int| 0 <= j < i ==> self@[j] == prefix@[j],
            decreases n - i,
        {
            if !(self.components[i] == prefix.components[i]) {
                assert(self@.take(n as int)[i as int] == self@[i as int]);
                return false;
            }
            i += 1;
        }
        proof {
            assert(self@.take(n as int) =~= prefix@);
        }
        true
    }
    /// The components of this path below `root`, or `None` when this path
    /// does not lie at or below `root`.
    pub fn relative_to(&self, root: &SyncPath) -> (r: Option<Vec<String>>)
        ensures
            match r {
                Some(rel) => is_path_prefix(root@, self@)
                    && views_of(rel@) == self@.skip(root@.len() as int),
                None => !is_path_prefix(root@, self@),
            },
    {
        if !self.starts_with(root) {
            return None;
        }
        let n = self.components.len();
        let mut rel: Vec<String> = Vec::new();
        let mut i: usize = root.components.len();
        while i < n
            invariant
                n == self.components.len(),
                root.components.len() <= i <= n,
                rel@.len() == i - root.components.len(),
                forall|j: int| 0 <= j < rel@.len() ==> rel@[j]@ == self@[root@.len() + j],
            decreases n - i,
        {
            rel.push(self.components[i].clone());
            i += 1;
        }
        proof {
            assert(views_of(rel@) =~= self@.skip(root@.len() as int));
        }
        Some(rel)
    }

    /// A copy of this path.
    pub fn clone_path(&self) -> (r: SyncPath)
        ensures
            r@ == self@,
    {
        let empty = SyncPath { components: Vec::new() };
        let r = empty.join_under(&self.components);
        proof {
            assert(r@ =~= self@);
        }
        r
    }

    /// The path formed by appending the components `rel` under this path.
    pub fn join_under(&self, rel: &Vec<String>) -> (r: SyncPath)
        ensures
            r@ == self@ + views_of(rel@),
    {
        let mut components: Vec<String> = Vec::new();
        let mut i: usize = 0;
        while i < self.components.len()
            invariant
                i <= self.components.len(),
                components@.len() == i,
                forall|j: int| 0 <= j < i ==> components@[j]@ == self@[j],
            decreases self.components.len() - i,
        {
            components.push(self.components[i].clone());
            i += 1;
        }
        let mut k: usize = 0;
        while k < rel.len()
            invariant
                k <= rel.len(),
                components@.len() == self.components.len() + k,
                forall|j: int| 0 <= j < self@.len() ==> components@[j]@ == self@[j],
                forall|j: int| 0 <= j < k ==> components@[self@.len() + j]@ == rel@[j]@,
            decreases rel.len() - k,
        {
            components.push(rel[k].clone());
            k += 1;
        }
        let r = SyncPath { components };
        proof {
            assert(r@ =~= self@ + views_of(rel@));
        }
        r
    }
}

/// The components of `p` joined with the separator `sep`.
pub open spec fn joined(p: Seq<Seq<char>>, sep: Seq<char>) -> Seq<char>
    decreases p,
{
    if p.len() == 0 {
        Seq::empty()
    } else if p.len() == 1 {
        p[0]
    } else {
        p[0] + sep + joined(p.drop_first(), sep)
    }
}

pub proof fn lemma_joined_push(p: Seq<Seq<char>>, sep: Seq<char>, c: Seq<char>)
    ensures
        joined(p.push(c), sep) == if p.len() == 0 {
            c
        } else {
            joined(p, sep) + sep + c
        },
    decreases p,
{
    if p.len() == 0 {
        assert(p.push(c)[0] == c);
        assert(joined(p.push(c), sep) =~= c);
    } else if p.len() == 1 {
        assert(p.push(c)[0] == p[0]);
        assert(p.push(c).drop_first() =~= seq![c]);
        assert(joined(seq![c], sep) == c);
        assert(joined(p.push(c), sep) =~= joined(p, sep) + sep + c);
    } else {
        assert(p.push(c)[0] == p[0]);
        assert(p.push(c).drop_first() =~= p.drop_first().push(c));
        lemma_joined_push(p.drop_first(), sep, c);
        assert(p[0] + sep + (joined(p.drop_first(), sep) + sep + c) =~= (p[0] + sep + joined(
            p.drop_first(),
            sep,
        )) + sep + c);
    }
}

impl SyncPath {
    /// This path as one string, its components joined with `sep`.
    pub fn to_joined_string(&self, sep: &str) -> (r: String)
        ensures
            r@ == joined(self@, sep@),
    {
        let mut r = String::new();
        let mut i: usize = 0;
        while i < self.components.len()
            invariant
                i <= self.components.len(),
                r@ == joined(self@.take(i as int), sep@),
            decreases self.components.len() - i,
        {
            let ghost before = r@;
            if i > 0 {
                r.append(sep);
            }
            r.append(self.components[i].as_str());
            proof {
                assert(self.components@[i as int]@ == self@[i as int]);
                assert(self@.take(i as int + 1) =~= self@.take(i as int).push(self@[i as int]));
                lemma_joined_push(self@.take(i as int), sep@, self@[i as int]);
                if i == 0 {
                    assert(r@ =~= self@[0]);
                } else {
                    assert(r@ =~= joined(self@.take(i as int), sep@) + sep@ + self@[i as int]);
                }
            }
            i += 1;
        }
        proof {
            assert(self@.take(self@.len() as int) =~= self@);
        }
        r
    }
}

/// The characters of `s`, in order.
pub fn chars_of(s: &str) -> (r: Vec<char>)
    ensures
        r@ == s@,
{
    broadcast use vstd::string::axiom_spec_iter;
    broadcast use vstd::string::next_postcondition;

    let mut it = s.chars();
    let mut v: Vec<char> = Vec::new();
    loop
        invariant
            it.obeys_prophetic_iter_laws(),
            it.decrease() is Some,
            v@ + it.remaining() == s@,
        decreases it.decrease()->0,
    {
        match it.next() {
            Some(c) => {
                v.push(c);
            },
            None => {
                proof {
                    assert(v@ =~= s@);
                }
                return v;
            },
        }
    }
}

/// A component that is safe to re-root: non-empty, not a current- or
/// parent-directory mark, and free of path separators, so that handing it to
/// the operating system can never name anything outside its parent.
pub open spec fn normal_component(c: Seq<char>) -> bool {
    &&& c.len() > 0
    &&& c != seq!['.']
    &&& c != seq!['.', '.']
    &&& forall|i: int| 0 <= i < c.len() ==> c[i] != '/' && c[i] != '\\'
}

/// Checks that a component is safe to re-root (see [`normal_component`]).
pub fn is_normal_component(s: &String) -> (r: bool)
    ensures
        r == normal_component(s@),
{
    let cs = chars_of(s.as_str());
    if cs.len() == 0 {
        return false;
    }
    if cs.len() == 1 && cs[0] == '.' {
        proof {
            assert(s@ =~= seq!['.']);
        }
        return false;
    }
    if cs.len() == 2 && cs[0] == '.' && cs[1] == '.' {
        proof {
            assert(s@ =~= seq!['.', '.']);
        }
        return false;
    }
    let mut i: usize = 0;
    while i < cs.len()
        invariant
            i <= cs.len(),
            cs@ == s@,
            forall|j: int| 0 <= j < i ==> s@[j] != '/' && s@[j] != '\\',
        decreases cs.len() - i,
    {
        let c = cs[i];
        if c == '/' || c == '\\' {
            return false;
        }
        i += 1;
    }
    proof {
        if s@ == seq!['.'] {
            assert(s@.len() == 1 && s@[0] == '.');
        }
        if s@ == seq!['.', '.'] {
            assert(s@.len() == 2 && s@[0] == '.' && s@[1] == '.');
        }
    }
    true
}

} // verus!
