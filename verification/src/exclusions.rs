//! Computing the exclusion set.
//!
//! The set of source-side paths to exclude from the mirror: the hidden
//! top-level entries of the source root (when enabled) together with the
//! caller's explicit absolute paths, deduplicated, first occurrence kept.

use crate::paths::{views_of, SyncPath};
use vstd::prelude::*;

verus! {

/// The hidden bit of the platform's file attribute mask.
pub const HIDDEN_ATTRIBUTE: u32 = 2;

/// Whether a raw attribute mask marks an entry hidden.
pub fn attributes_mark_hidden(attributes: u32) -> (r: bool)
    ensures
        r == (attributes & HIDDEN_ATTRIBUTE != 0),
{
    attributes & HIDDEN_ATTRIBUTE > 0
}

/// One immediate child of the source root, as the directory listing and a
/// metadata probe reported it.
pub struct DirEntryInfo {
    /// The entry's name: a single path component.
    pub name: String,
    /// Whether the entry's metadata marks it hidden.
    pub hidden: bool,
}

/// The views of a sequence of paths.
pub open spec fn path_views(s: Seq<SyncPath>) -> Seq<Seq<Seq<char>>> {
    s.map_values(|p: SyncPath| p@)
}

/// The full paths of the hidden entries among `entries`, below `source`, in
/// listing order.
pub open spec fn hidden_child_paths(source: Seq<Seq<char>>, entries: Seq<DirEntryInfo>) -> Seq<
    Seq<Seq<char>>,
>
    decreases entries,
{
    if entries.len() == 0 {
        Seq::empty()
    } else {
        let rest = hidden_child_paths(source, entries.drop_first());
        if entries[0].hidden {
            seq![source.push(entries[0].name@)] + rest
        } else {
            rest
        }
    }
}

/// `s` without the paths already in `seen` and without repetitions, first
/// occurrence kept.
pub open spec fn dedup_paths_from(s: Seq<Seq<Seq<char>>>, seen: Seq<Seq<Seq<char>>>) -> Seq<
    Seq<Seq<char>>,
>
    decreases s,
{
    if s.len() == 0 {
        Seq::empty()
    } else if seen.contains(s[0]) {
        dedup_paths_from(s.drop_first(), seen)
    } else {
        seq![s[0]] + dedup_paths_from(s.drop_first(), seen.push(s[0]))
    }
}

/// Everything [`collect_exclude_paths`] gathers, before deduplication: the
/// hidden top-level entries (when enabled) followed by the explicit paths.
pub open spec fn gathered_exclusions(
    source: Seq<Seq<char>>,
    exclude_root_source_hidden_entries: bool,
    entries: Seq<DirEntryInfo>,
    explicit: Seq<SyncPath>,
) -> Seq<Seq<Seq<char>>> {
    (if exclude_root_source_hidden_entries {
        hidden_child_paths(source, entries)
    } else {
        Seq::empty()
    }) + path_views(explicit)
}

/// Whether some path of `v` has the same components as `p`.
pub fn contains_path(v: &Vec<SyncPath>, p: &SyncPath) -> (r: bool)
    ensures
        r == path_views(v@).contains(p@),
{
    let mut i: usize = 0;
    while i < v.len()
        invariant
            i <= v.len(),
            forall|j: int| 0 <= j < i ==> (#[trigger] v@[j])@ != p@,
        decreases v.len() - i,
    {
        if v[i].path_eq(p) {
            assert(path_views(v@)[i as int] == p@);
            return true;
        }
        i += 1;
    }
    proof {
        assert forall|j: int| 0 <= j < path_views(v@).len() implies path_views(v@)[j] != p@ by {
            assert(path_views(v@)[j] == v@[j]@);
        }
    }
    false
}

/// Computes the full exclusion set: every hidden top-level entry of the
/// source root (when `exclude_root_source_hidden_entries` is set) together
/// with the explicit paths, in that order, deduplicated with the first
/// occurrence kept.
pub fn collect_exclude_paths(
    source: &SyncPath,
    exclude_root_source_hidden_entries: bool,
    root_entries: &Vec<DirEntryInfo>,
    exclude_paths: &Vec<SyncPath>,
) -> (r: Vec<SyncPath>)
    ensures
        path_views(r@) == dedup_paths_from(
            gathered_exclusions(
                source@,
                exclude_root_source_hidden_entries,
                root_entries@,
                exclude_paths@,
            ),
            Seq::empty(),
        ),
{
    let ghost all = gathered_exclusions(
        source@,
        exclude_root_source_hidden_entries,
        root_entries@,
        exclude_paths@,
    );
    let mut candidates: Vec<SyncPath> = Vec::new();
    if exclude_root_source_hidden_entries {
        let mut i: usize = 0;
        while i < root_entries.len()
            invariant
                i <= root_entries@.len(),
                path_views(candidates@) == hidden_child_paths(source@, root_entries@.take(i as int)),
            decreases root_entries.len() - i,
        {
            let ghost cand0 = candidates@;
            let entry = &root_entries[i];
            if entry.hidden {
                let mut one: Vec<String> = Vec::new();
                one.push(entry.name.clone());
                let child = source.join_under(&one);
                proof {
                    assert(views_of(one@) =~= seq![entry.name@]);
                    assert(child@ =~= source@.push(entry.name@));
                }
                candidates.push(child);
            }
            proof {
                lemma_hidden_child_paths_take(source@, root_entries@, i as int);
                assert(path_views(candidates@) =~= hidden_child_paths(
                    source@,
                    root_entries@.take(i as int + 1),
                ));
            }
            i += 1;
        }
        proof {
            assert(root_entries@.take(root_entries@.len() as int) =~= root_entries@);
        }
    }
    let mut k: usize = 0;
    while k < exclude_paths.len()
        invariant
            k <= exclude_paths@.len(),
            path_views(candidates@) == (if exclude_root_source_hidden_entries {
                hidden_child_paths(source@, root_entries@)
            } else {
                Seq::<Seq<Seq<char>>>::empty()
            }) + path_views(exclude_paths@.take(k as int)),
        decreases exclude_paths.len() - k,
    {
        let ghost cand0 = candidates@;
        candidates.push(exclude_paths[k].clone_path());
        proof {
            assert(exclude_paths@.take(k as int + 1) =~= exclude_paths@.take(k as int).push(
                exclude_paths@[k as int],
            ));
            assert(path_views(candidates@) =~= path_views(cand0).push(exclude_paths@[k as int]@));
            assert(path_views(exclude_paths@.take(k as int + 1)) =~= path_views(
                exclude_paths@.take(k as int),
            ).push(exclude_paths@[k as int]@));
            assert(path_views(candidates@) =~= (if exclude_root_source_hidden_entries {
                hidden_child_paths(source@, root_entries@)
            } else {
                Seq::<Seq<Seq<char>>>::empty()
            }) + path_views(exclude_paths@.take(k as int + 1)));
        }
        k += 1;
    }
    proof {
        assert(exclude_paths@.take(exclude_paths@.len() as int) =~= exclude_paths@);
        assert(path_views(candidates@) == all);
    }
    // Deduplicate, keeping each path's first occurrence.
    let mut out: Vec<SyncPath> = Vec::new();
    let mut m: usize = 0;
    proof {
        assert(candidates@.skip(0) =~= candidates@);
        assert(path_views(out@) =~= Seq::<Seq<Seq<char>>>::empty());
        assert(path_views(out@) + dedup_paths_from(all, path_views(out@)) =~= dedup_paths_from(
            all,
            Seq::empty(),
        ));
    }
    while m < candidates.len()
        invariant
            m <= candidates@.len(),
            path_views(candidates@) == all,
            dedup_paths_from(all, Seq::empty()) == path_views(out@) + dedup_paths_from(
                path_views(candidates@.skip(m as int)),
                path_views(out@),
            ),
        decreases candidates.len() - m,
    {
        let ghost out0 = out@;
        let ghost tail = path_views(candidates@.skip(m as int));
        proof {
            assert(candidates@.skip(m as int)[0] == candidates@[m as int]);
            assert(tail[0] == candidates@[m as int]@);
            assert(candidates@.skip(m as int).drop_first() =~= candidates@.skip(m as int + 1));
            assert(tail.drop_first() =~= path_views(candidates@.skip(m as int + 1)));
        }
        let c = &candidates[m];
        if !contains_path(&out, c) {
            out.push(c.clone_path());
            proof {
                assert(path_views(out@) =~= path_views(out0).push(c@));
                assert(path_views(out0) + (seq![c@] + dedup_paths_from(
                    path_views(candidates@.skip(m as int + 1)),
                    path_views(out0).push(c@),
                )) =~= path_views(out@) + dedup_paths_from(
                    path_views(candidates@.skip(m as int + 1)),
                    path_views(out@),
                ));
            }
        }
        m += 1;
    }
    proof {
        assert(candidates@.skip(candidates@.len() as int) =~= Seq::<SyncPath>::empty());
        assert(path_views(candidates@.skip(candidates@.len() as int))
            =~= Seq::<Seq<Seq<char>>>::empty());
        assert(path_views(out@) + Seq::<Seq<Seq<char>>>::empty() =~= path_views(out@));
    }
    out
}

proof fn lemma_hidden_child_paths_take(source: Seq<Seq<char>>, entries: Seq<DirEntryInfo>, i: int)
    requires
        0 <= i < entries.len(),
    ensures
        hidden_child_paths(source, entries.take(i + 1)) == if entries[i].hidden {
            hidden_child_paths(source, entries.take(i)).push(source.push(entries[i].name@))
        } else {
            hidden_child_paths(source, entries.take(i))
        },
    decreases i,
{
    if i == 0 {
        assert(entries.take(1)[0] == entries[0]);
        assert(entries.take(1).drop_first() =~= Seq::<DirEntryInfo>::empty());
        assert(entries.take(0) =~= Seq::<DirEntryInfo>::empty());
        if entries[0].hidden {
            assert(hidden_child_paths(source, entries.take(1)) =~= hidden_child_paths(
                source,
                entries.take(0),
            ).push(source.push(entries[0].name@)));
        }
    } else {
        let t1 = entries.take(i + 1);
        let t0 = entries.take(i);
        assert(t1[0] == entries[0]);
        assert(t0[0] == entries[0]);
        assert(t1.drop_first() =~= entries.drop_first().take(i));
        assert(t0.drop_first() =~= entries.drop_first().take(i - 1));
        lemma_hidden_child_paths_take(source, entries.drop_first(), i - 1);
        assert(entries.drop_first()[i - 1] == entries[i]);
        if entries[i].hidden {
            assert(hidden_child_paths(source, t1) =~= hidden_child_paths(source, t0).push(
                source.push(entries[i].name@),
            ));
        } else {
            assert(hidden_child_paths(source, t1) =~= hidden_child_paths(source, t0));
        }
    }
}

} // verus!
