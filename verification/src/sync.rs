//! Planning one mirror run and formatting its report.
//!
//! The orchestrator around the external mirror tool is thin: it computes
//! the exclusion set, turns it into the tool's exclude arguments, and after
//! the copy hands the same set to the translator and the deletion engine.
//! Everything here is the computing part of that glue; invoking the tool
//! and reading directories belong to the caller.

use crate::engine::DeletionOutcome;
use crate::exclusions::{
    collect_exclude_paths, dedup_paths_from, gathered_exclusions, path_views, DirEntryInfo,
};
use crate::paths::{joined, views_of, SyncPath};
use crate::translate::PathKind;
use vstd::prelude::*;
use vstd::string::StringExecFns;

verus! {

/// One run's settings, as the configuration loader hands them over.
pub struct Configuration {
    pub source: SyncPath,
    pub target: SyncPath,
    /// Whether the caller should persist a textual run report.
    pub create_last_sync_result_file: bool,
    /// Whether hidden top-level entries of the source are excluded.
    pub exclude_root_source_hidden_entries: bool,
    /// Explicit absolute paths to exclude.
    pub exclude_paths: Vec<SyncPath>,
}

/// The paths of `paths` whose probe, in `kinds`, said `k`, joined for the
/// mirror tool's command line.
pub open spec fn bucket_args(
    paths: Seq<Seq<Seq<char>>>,
    kinds: Seq<PathKind>,
    k: PathKind,
) -> Seq<Seq<char>>
    decreases paths,
{
    if paths.len() == 0 || kinds.len() == 0 {
        Seq::empty()
    } else {
        let rest = bucket_args(paths.drop_first(), kinds.drop_first(), k);
        if kinds[0] == k {
            seq![joined(paths[0], "\\"@)] + rest
        } else {
            rest
        }
    }
}

/// The mirror tool's exclude arguments: `/XF` before the excluded files,
/// `/XD` before the excluded directories, either part absent when its
/// bucket is empty. A path whose probe found nothing joins no bucket.
pub open spec fn spec_robocopy_exclude_args(
    paths: Seq<Seq<Seq<char>>>,
    kinds: Seq<PathKind>,
) -> Seq<Seq<char>> {
    let files = bucket_args(paths, kinds, PathKind::File);
    let dirs = bucket_args(paths, kinds, PathKind::Directory);
    (if files.len() > 0 {
        seq!["/XF"@] + files
    } else {
        Seq::empty()
    }) + (if dirs.len() > 0 {
        seq!["/XD"@] + dirs
    } else {
        Seq::empty()
    })
}

proof fn lemma_bucket_args_take(
    paths: Seq<Seq<Seq<char>>>,
    kinds: Seq<PathKind>,
    i: int,
    k: PathKind,
)
    requires
        paths.len() == kinds.len(),
        0 <= i < paths.len(),
    ensures
        bucket_args(paths.take(i + 1), kinds.take(i + 1), k) == if kinds[i] == k {
            bucket_args(paths.take(i), kinds.take(i), k).push(joined(paths[i], "\\"@))
        } else {
            bucket_args(paths.take(i), kinds.take(i), k)
        },
    decreases i,
{
    reveal_with_fuel(bucket_args, 3);
    if i == 0 {
        assert(paths.take(1)[0] == paths[0]);
        assert(kinds.take(1)[0] == kinds[0]);
        assert(paths.take(1).drop_first() =~= Seq::<Seq<Seq<char>>>::empty());
        assert(kinds.take(1).drop_first() =~= Seq::<PathKind>::empty());
        assert(paths.take(0) =~= Seq::<Seq<Seq<char>>>::empty());
        if kinds[0] == k {
            assert(bucket_args(paths.take(1), kinds.take(1), k) =~= bucket_args(
                paths.take(0),
                kinds.take(0),
                k,
            ).push(joined(paths[0], "\\"@)));
        }
    } else {
        assert(paths.take(i + 1)[0] == paths[0]);
        assert(kinds.take(i + 1)[0] == kinds[0]);
        assert(paths.take(i + 1).drop_first() =~= paths.drop_first().take(i));
        assert(kinds.take(i + 1).drop_first() =~= kinds.drop_first().take(i));
        assert(paths.take(i)[0] == paths[0]);
        assert(kinds.take(i)[0] == kinds[0]);
        assert(paths.take(i).drop_first() =~= paths.drop_first().take(i - 1));
        assert(kinds.take(i).drop_first() =~= kinds.drop_first().take(i - 1));
        lemma_bucket_args_take(paths.drop_first(), kinds.drop_first(), i - 1, k);
        assert(paths.drop_first()[i - 1] == paths[i]);
        assert(kinds.drop_first()[i - 1] == kinds[i]);
        if kinds[i] == k {
            if kinds[0] == k {
                assert(bucket_args(paths.take(i + 1), kinds.take(i + 1), k) =~= bucket_args(
                    paths.take(i),
                    kinds.take(i),
                    k,
                ).push(joined(paths[i], "\\"@)));
            } else {
                assert(bucket_args(paths.take(i + 1), kinds.take(i + 1), k) =~= bucket_args(
                    paths.take(i),
                    kinds.take(i),
                    k,
                ).push(joined(paths[i], "\\"@)));
            }
        }
    }
}

/// Builds the mirror tool's exclude arguments from the collected exclusion
/// set and the kind that a metadata probe reported for each path.
pub fn build_robocopy_exclude_arguments(exclude_paths: &Vec<SyncPath>, kinds: &Vec<PathKind>) -> (r:
    Vec<String>)
    requires
        exclude_paths@.len() == kinds@.len(),
    ensures
        views_of(r@) == spec_robocopy_exclude_args(path_views(exclude_paths@), kinds@),
{
    let ghost pv = path_views(exclude_paths@);
    let mut files: Vec<String> = Vec::new();
    let mut dirs: Vec<String> = Vec::new();
    let mut i: usize = 0;
    proof {
        assert(pv.take(0) =~= Seq::<Seq<Seq<char>>>::empty());
        assert(kinds@.take(0) =~= Seq::<PathKind>::empty());
        assert(views_of(files@) =~= Seq::<Seq<char>>::empty());
        assert(views_of(dirs@) =~= Seq::<Seq<char>>::empty());
    }
    while i < exclude_paths.len()
        invariant
            i <= exclude_paths@.len(),
            exclude_paths@.len() == kinds@.len(),
            pv == path_views(exclude_paths@),
            views_of(files@) == bucket_args(
                pv.take(i as int),
                kinds@.take(i as int),
                PathKind::File,
            ),
            views_of(dirs@) == bucket_args(
                pv.take(i as int),
                kinds@.take(i as int),
                PathKind::Directory,
            ),
        decreases exclude_paths.len() - i,
    {
        let ghost files0 = files@;
        let ghost dirs0 = dirs@;
        proof {
            assert(pv[i as int] == exclude_paths@[i as int]@);
        }
        match kinds[i] {
            PathKind::File => {
                files.push(exclude_paths[i].to_joined_string("\\"));
                proof {
                    assert(views_of(files@) =~= views_of(files0).push(joined(pv[i as int], "\\"@)));
                }
            },
            PathKind::Directory => {
                dirs.push(exclude_paths[i].to_joined_string("\\"));
                proof {
                    assert(views_of(dirs@) =~= views_of(dirs0).push(joined(pv[i as int], "\\"@)));
                }
            },
            PathKind::Unknown => {},
        }
        proof {
            lemma_bucket_args_take(pv, kinds@, i as int, PathKind::File);
            lemma_bucket_args_take(pv, kinds@, i as int, PathKind::Directory);
        }
        i += 1;
    }
    proof {
        assert(pv.take(pv.len() as int) =~= pv);
        assert(kinds@.take(kinds@.len() as int) =~= kinds@);
    }
    let mut r: Vec<String> = Vec::new();
    let ghost fv = views_of(files@);
    let ghost dv = views_of(dirs@);
    if files.len() > 0 {
        r.push("/XF".to_owned());
        let mut j: usize = 0;
        while j < files.len()
            invariant
                j <= files@.len(),
                views_of(files@) == fv,
                views_of(r@) == seq!["/XF"@] + fv.take(j as int),
            decreases files.len() - j,
        {
            let ghost r0 = r@;
            r.push(files[j].clone());
            proof {
                assert(views_of(r@) =~= views_of(r0).push(fv[j as int]));
                assert(seq!["/XF"@] + fv.take(j as int + 1) =~= (seq!["/XF"@] + fv.take(
                    j as int,
                )).push(fv[j as int]));
            }
            j += 1;
        }
        proof {
            assert(fv.take(fv.len() as int) =~= fv);
        }
    } else {
        proof {
            assert(views_of(r@) =~= Seq::<Seq<char>>::empty());
        }
    }
    let ghost r1 = views_of(r@);
    if dirs.len() > 0 {
        let ghost rpre = r@;
        r.push("/XD".to_owned());
        proof {
            assert(views_of(r@) =~= r1.push("/XD"@));
        }
        let mut j: usize = 0;
        while j < dirs.len()
            invariant
                j <= dirs@.len(),
                views_of(dirs@) == dv,
                views_of(r@) == r1 + seq!["/XD"@] + dv.take(j as int),
            decreases dirs.len() - j,
        {
            let ghost r0 = r@;
            r.push(dirs[j].clone());
            proof {
                assert(views_of(r@) =~= views_of(r0).push(dv[j as int]));
                assert(r1 + seq!["/XD"@] + dv.take(j as int + 1) =~= (r1 + seq!["/XD"@] + dv.take(
                    j as int,
                )).push(dv[j as int]));
            }
            j += 1;
        }
        proof {
            assert(dv.take(dv.len() as int) =~= dv);
            assert(views_of(r@) =~= spec_robocopy_exclude_args(pv, kinds@));
        }
    } else {
        proof {
            assert(views_of(r@) =~= spec_robocopy_exclude_args(pv, kinds@));
        }
    }
    r
}

/// Everything the planning phase of one run yields: the collected exclusion
/// set and the mirror tool's full argument list.
pub struct MirrorPlan {
    pub exclude_paths: Vec<SyncPath>,
    pub arguments: Vec<String>,
}

/// The fixed argument prefix of every mirror invocation: source and
/// destination, then the tool's mirroring flags and its log destination.
pub open spec fn spec_mirror_base_args(
    source: Seq<Seq<char>>,
    target: Seq<Seq<char>>,
) -> Seq<Seq<char>> {
    seq![
        joined(source, "\\"@),
        joined(target, "\\"@),
        "/mir"@,
        "/z"@,
        "/r:1"@,
        "/w:1"@,
        "/sl"@,
        "/unilog:C:\\temp\\simple_folder_sync_robocopy.log"@,
    ]
}

/// Plans one mirror run: collects the exclusion set from the configuration
/// and the source root's listing, and builds the mirror tool's full
/// argument list from it. `exclude_kinds` holds, for each path of the
/// collected set in order, what a metadata probe of the source side
/// reported; the caller obtains the set first through
/// [`collect_exclude_paths`].
pub fn run_folder_sync(
    config: &Configuration,
    root_entries: &Vec<DirEntryInfo>,
    exclude_kinds: &Vec<PathKind>,
) -> (r: MirrorPlan)
    requires
        exclude_kinds@.len() == dedup_paths_from(
            gathered_exclusions(
                config.source@,
                config.exclude_root_source_hidden_entries,
                root_entries@,
                config.exclude_paths@,
            ),
            Seq::empty(),
        ).len(),
    ensures
        path_views(r.exclude_paths@) == dedup_paths_from(
            gathered_exclusions(
                config.source@,
                config.exclude_root_source_hidden_entries,
                root_entries@,
                config.exclude_paths@,
            ),
            Seq::empty(),
        ),
        views_of(r.arguments@) == spec_mirror_base_args(config.source@, config.target@)
            + spec_robocopy_exclude_args(path_views(r.exclude_paths@), exclude_kinds@),
{
    let exclude_paths = collect_exclude_paths(
        &config.source,
        config.exclude_root_source_hidden_entries,
        root_entries,
        &config.exclude_paths,
    );
    let mut arguments: Vec<String> = Vec::new();
    arguments.push(config.source.to_joined_string("\\"));
    arguments.push(config.target.to_joined_string("\\"));
    arguments.push("/mir".to_owned());
    arguments.push("/z".to_owned());
    arguments.push("/r:1".to_owned());
    arguments.push("/w:1".to_owned());
    arguments.push("/sl".to_owned());
    arguments.push("/unilog:C:\\temp\\simple_folder_sync_robocopy.log".to_owned());
    proof {
        assert(views_of(arguments@) =~= spec_mirror_base_args(config.source@, config.target@));
    }
    let ghost base = views_of(arguments@);
    let excl_args = build_robocopy_exclude_arguments(&exclude_paths, exclude_kinds);
    let mut k: usize = 0;
    while k < excl_args.len()
        invariant
            k <= excl_args@.len(),
            views_of(arguments@) == base + views_of(excl_args@).take(k as int),
        decreases excl_args.len() - k,
    {
        let ghost a0 = arguments@;
        arguments.push(excl_args[k].clone());
        proof {
            assert(views_of(arguments@) =~= views_of(a0).push(excl_args@[k as int]@));
            assert(views_of(excl_args@)[k as int] == excl_args@[k as int]@);
            assert(base + views_of(excl_args@).take(k as int + 1) =~= (base + views_of(
                excl_args@,
            ).take(k as int)).push(excl_args@[k as int]@));
        }
        k += 1;
    }
    proof {
        assert(views_of(excl_args@).take(views_of(excl_args@).len() as int) =~= views_of(
            excl_args@,
        ));
    }
    MirrorPlan { exclude_paths, arguments }
}

/// The run report's first part: the mirror tool's captured output streams.
pub fn format_sync_output(stdout_text: &str, stderr_text: &str) -> (r: String)
    ensures
        r@ == "=== STDOUT ===\n"@ + stdout_text@ + "\n=== STDERR ===\n"@ + stderr_text@,
{
    let mut r = "=== STDOUT ===\n".to_owned();
    r.append(stdout_text);
    r.append("\n=== STDERR ===\n");
    r.append(stderr_text);
    proof {
        assert(r@ =~= "=== STDOUT ===\n"@ + stdout_text@ + "\n=== STDERR ===\n"@ + stderr_text@);
    }
    r
}

/// The report word for one outcome.
pub open spec fn spec_status_label(st: crate::engine::DeletionStatus) -> Seq<char> {
    match st {
        crate::engine::DeletionStatus::Deleted => "deleted"@,
        crate::engine::DeletionStatus::AlreadyGone => "already gone"@,
        crate::engine::DeletionStatus::Failed(_) => "failed"@,
    }
}

/// One line per outcome: the target path and the report word for its status.
pub open spec fn spec_report_lines(os: Seq<DeletionOutcome>) -> Seq<char>
    decreases os,
{
    if os.len() == 0 {
        Seq::empty()
    } else {
        joined(os[0].target_path@, "\\"@) + ": "@ + spec_status_label(os[0].status) + "\n"@
            + spec_report_lines(os.drop_first())
    }
}

proof fn lemma_report_lines_take(os: Seq<DeletionOutcome>, i: int)
    requires
        0 <= i < os.len(),
    ensures
        spec_report_lines(os.take(i + 1)) == spec_report_lines(os.take(i)) + (joined(
            os[i].target_path@,
            "\\"@,
        ) + ": "@ + spec_status_label(os[i].status) + "\n"@),
    decreases i,
{
    if i == 0 {
        assert(os.take(1)[0] == os[0]);
        assert(os.take(1).drop_first() =~= Seq::<DeletionOutcome>::empty());
        assert(os.take(0) =~= Seq::<DeletionOutcome>::empty());
        assert(spec_report_lines(os.take(1)) =~= spec_report_lines(os.take(0)) + (joined(
            os[0].target_path@,
            "\\"@,
        ) + ": "@ + spec_status_label(os[0].status) + "\n"@));
    } else {
        assert(os.take(i + 1)[0] == os[0]);
        assert(os.take(i)[0] == os[0]);
        assert(os.take(i + 1).drop_first() =~= os.drop_first().take(i));
        assert(os.take(i).drop_first() =~= os.drop_first().take(i - 1));
        lemma_report_lines_take(os.drop_first(), i - 1);
        assert(os.drop_first()[i - 1] == os[i]);
        assert(spec_report_lines(os.take(i + 1)) =~= spec_report_lines(os.take(i)) + (joined(
            os[i].target_path@,
            "\\"@,
        ) + ": "@ + spec_status_label(os[i].status) + "\n"@));
    }
}

/// The full run report: the mirror tool's captured output followed by one
/// line per deletion outcome.
pub fn format_run_report(tool_output: &str, outcomes: &Vec<DeletionOutcome>) -> (r: String)
    ensures
        r@ == tool_output@ + "\n=== EXCLUDED ENTRIES ===\n"@ + spec_report_lines(outcomes@),
{
    let mut r = tool_output.to_owned();
    r.append("\n=== EXCLUDED ENTRIES ===\n");
    proof {
        assert(outcomes@.take(0) =~= Seq::<DeletionOutcome>::empty());
        assert(r@ =~= tool_output@ + "\n=== EXCLUDED ENTRIES ===\n"@ + spec_report_lines(
            outcomes@.take(0),
        ));
    }
    let mut i: usize = 0;
    while i < outcomes.len()
        invariant
            i <= outcomes@.len(),
            r@ == tool_output@ + "\n=== EXCLUDED ENTRIES ===\n"@ + spec_report_lines(
                outcomes@.take(i as int),
            ),
        decreases outcomes.len() - i,
    {
        let line_path = outcomes[i].target_path.to_joined_string("\\");
        r.append(line_path.as_str());
        r.append(": ");
        match &outcomes[i].status {
            crate::engine::DeletionStatus::Deleted => {
                r.append("deleted");
            },
            crate::engine::DeletionStatus::AlreadyGone => {
                r.append("already gone");
            },
            crate::engine::DeletionStatus::Failed(_) => {
                r.append("failed");
            },
        }
        r.append("\n");
        proof {
            lemma_report_lines_take(outcomes@, i as int);
            assert(outcomes@[i as int].target_path@ == outcomes@[i as int].target_path@);
            assert(r@ =~= tool_output@ + "\n=== EXCLUDED ENTRIES ===\n"@ + spec_report_lines(
                outcomes@.take(i as int + 1),
            ));
        }
        i += 1;
    }
    proof {
        assert(outcomes@.take(outcomes@.len() as int) =~= outcomes@);
    }
    r
}

} // verus!
