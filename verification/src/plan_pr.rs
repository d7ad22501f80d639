//! Planning the directories that a pull request touches, and the report of
//! what the plans found.

use crate::cmd_runner::{PlanOutcome, PlanOutcomeView};
use crate::grouped_dirs::{all_follow_layout, split_all, GroupedDirs};
use crate::grouping_laws::{grouping_of, lemma_grouping_of};
use crate::orchestrator::{
    legacy_schedule, legacy_steps, schedule, schedule_of, sso_schedule, sso_steps, step_views,
    Operation, Step,
};
use crate::grouped_dirs::account_views;
use crate::path::{file_name_of, parent_of, path_file_name, path_parent, texts};
use crate::run_cmd::{Cmd, CmdView};
use crate::schedule_laws::run_dirs;
use crate::text::{lines, same_text, split_lines};
use vstd::prelude::*;
use vstd::string::*;

verus! {

/// The values of a list of directories with the outcome of their plans.
pub open spec fn outcome_views(v: Seq<(String, PlanOutcome)>) -> Seq<(Seq<char>, PlanOutcomeView)> {
    v.map_values(|p: (String, PlanOutcome)| (p.0@, p.1@))
}

/// Whether a plan in `entries` found nothing to apply.
pub open spec fn any_unchanged(entries: Seq<(Seq<char>, PlanOutcomeView)>) -> bool
    decreases entries.len(),
{
    entries.len() > 0 && (entries.last().1 is NoChanges || any_unchanged(entries.drop_last()))
}

/// Whether a plan in `entries` found changes.
pub open spec fn any_changed(entries: Seq<(Seq<char>, PlanOutcomeView)>) -> bool
    decreases entries.len(),
{
    entries.len() > 0 && (entries.last().1 is Changes || any_changed(entries.drop_last()))
}

/// One line for each directory without changes.
pub open spec fn unchanged_lines(entries: Seq<(Seq<char>, PlanOutcomeView)>) -> Seq<char>
    decreases entries.len(),
{
    if entries.len() == 0 {
        Seq::empty()
    } else {
        let before = unchanged_lines(entries.drop_last());
        match entries.last().1 {
            PlanOutcomeView::NoChanges => before + "\u{2705} "@ + entries.last().0 + "\n"@,
            PlanOutcomeView::Changes(_) => before,
        }
    }
}

/// One line for each directory with changes.
pub open spec fn changed_lines(entries: Seq<(Seq<char>, PlanOutcomeView)>) -> Seq<char>
    decreases entries.len(),
{
    if entries.len() == 0 {
        Seq::empty()
    } else {
        let before = changed_lines(entries.drop_last());
        match entries.last().1 {
            PlanOutcomeView::NoChanges => before,
            PlanOutcomeView::Changes(_) => before + "\u{274c} "@ + entries.last().0 + "\n"@,
        }
    }
}

/// The plan output of each directory with changes, in a fenced block under
/// the directory's name.
pub open spec fn changed_outputs(entries: Seq<(Seq<char>, PlanOutcomeView)>) -> Seq<char>
    decreases entries.len(),
{
    if entries.len() == 0 {
        Seq::empty()
    } else {
        let before = changed_outputs(entries.drop_last());
        match entries.last().1 {
            PlanOutcomeView::NoChanges => before,
            PlanOutcomeView::Changes(output) => before + "\u{1f449} "@ + entries.last().0 + ":\n"@
                + "\n```\n"@ + output + "\n```\n"@,
        }
    }
}

/// The report: a title; the directories without changes under their
/// heading; the directories with changes under theirs; and the plan output
/// of the latter. A heading without directories is left out.
pub open spec fn report_of(entries: Seq<(Seq<char>, PlanOutcomeView)>) -> Seq<char> {
    "## \u{1f4c3}\u{1f4c3} Plan summary \u{1f4c3}\u{1f4c3}\n"@ + (if any_unchanged(entries) {
        "\nNo changes detected (apply not needed):\n"@
    } else {
        Seq::empty()
    }) + unchanged_lines(entries) + (if any_changed(entries) {
        "\nChanges detected (apply needed):\n"@
    } else {
        Seq::empty()
    }) + changed_lines(entries) + (if any_changed(entries) {
        "\n## \u{1f4c3}\u{1f4c3} Plan output \u{1f4c3}\u{1f4c3}\n"@
    } else {
        Seq::empty()
    }) + changed_outputs(entries)
}

/// Writes the report of what the plans found; see [`report_of`].
pub fn format_output(output: &Vec<(String, PlanOutcome)>) -> (r: String)
    ensures
        r@ == report_of(outcome_views(output@)),
{
    let ghost all = outcome_views(output@);
    let mut unchanged = String::new();
    let mut changed = String::new();
    let mut outputs = String::new();
    let mut some_unchanged = false;
    let mut some_changed = false;
    let mut i: usize = 0;
    proof {
        assert(all.take(0) =~= Seq::<(Seq<char>, PlanOutcomeView)>::empty());
    }
    while i < output.len()
        invariant
            i <= output.len(),
            all == outcome_views(output@),
            some_unchanged == any_unchanged(all.take(i as int)),
            some_changed == any_changed(all.take(i as int)),
            unchanged@ == unchanged_lines(all.take(i as int)),
            changed@ == changed_lines(all.take(i as int)),
            outputs@ == changed_outputs(all.take(i as int)),
        decreases output.len() - i,
    {
        proof {
            assert(all.take(i + 1).drop_last() =~= all.take(i as int));
            assert(all.take(i + 1).last() == all[i as int]);
            assert(all[i as int] == (output[i as int].0@, output[i as int].1@));
        }
        let dir = output[i].0.as_str();
        match &output[i].1 {
            PlanOutcome::NoChanges => {
                some_unchanged = true;
                unchanged.append("\u{2705} ");
                unchanged.append(dir);
                unchanged.append("\n");
            },
            PlanOutcome::Changes(plan) => {
                some_changed = true;
                changed.append("\u{274c} ");
                changed.append(dir);
                changed.append("\n");
                outputs.append("\u{1f449} ");
                outputs.append(dir);
                outputs.append(":\n");
                outputs.append("\n```\n");
                outputs.append(plan.as_str());
                outputs.append("\n```\n");
            },
        }
        i = i + 1;
    }
    proof {
        assert(all.take(i as int) =~= all);
    }
    let mut report = String::from_str("## \u{1f4c3}\u{1f4c3} Plan summary \u{1f4c3}\u{1f4c3}\n");
    let ghost title = report@;
    if some_unchanged {
        report.append("\nNo changes detected (apply not needed):\n");
    } else {
        proof {
            assert(title + Seq::<char>::empty() =~= title);
        }
    }
    report.append(unchanged.as_str());
    let ghost upper = report@;
    if some_changed {
        report.append("\nChanges detected (apply needed):\n");
    } else {
        proof {
            assert(upper + Seq::<char>::empty() =~= upper);
        }
    }
    report.append(changed.as_str());
    let ghost middle = report@;
    if some_changed {
        report.append("\n## \u{1f4c3}\u{1f4c3} Plan output \u{1f4c3}\u{1f4c3}\n");
    } else {
        proof {
            assert(middle + Seq::<char>::empty() =~= middle);
        }
    }
    report.append(outputs.as_str());
    report
}

/// The name of the file that pins a module's providers.
pub const LOCKFILE: &'static str = ".terraform.lock.hcl";

/// Whether `file` is a lockfile: its file name is [`LOCKFILE`].
pub open spec fn is_lock_file(file: Seq<char>) -> bool {
    path_file_name(file) == Some(".terraform.lock.hcl"@)
}

/// The lockfiles among `files`, in the order given.
pub open spec fn lock_files_of(files: Seq<Seq<char>>) -> Seq<Seq<char>>
    decreases files.len(),
{
    if files.len() == 0 {
        Seq::empty()
    } else {
        let before = lock_files_of(files.drop_last());
        if is_lock_file(files.last()) {
            before.push(files.last())
        } else {
            before
        }
    }
}

/// The lockfiles among `files`, in the order given.
pub fn get_lock_files(files: &Vec<String>) -> (r: Vec<String>)
    ensures
        texts(r@) == lock_files_of(texts(files@)),
{
    let ghost all = texts(files@);
    let mut r: Vec<String> = Vec::new();
    let mut i: usize = 0;
    proof {
        assert(all.take(0) =~= Seq::<Seq<char>>::empty());
        assert(texts(r@) =~= Seq::<Seq<char>>::empty());
    }
    while i < files.len()
        invariant
            i <= files.len(),
            all == texts(files@),
            texts(r@) == lock_files_of(all.take(i as int)),
        decreases files.len() - i,
    {
        proof {
            assert(all.take(i + 1).drop_last() =~= all.take(i as int));
            assert(all.take(i + 1).last() == files[i as int]@);
        }
        let is_lock = match file_name_of(files[i].as_str()) {
            Some(name) => same_text(name.as_str(), LOCKFILE),
            None => false,
        };
        if is_lock {
            proof {
                assert(texts(r@.push(files[i as int])) =~= texts(r@).push(files[i as int]@));
            }
            r.push(files[i].clone());
        }
        i = i + 1;
    }
    proof {
        assert(all.take(i as int) =~= all);
    }
    r
}

/// Whether every one of `paths` has a parent.
pub open spec fn all_have_parents(paths: Seq<Seq<char>>) -> bool {
    forall|i: int| 0 <= i < paths.len() ==> path_parent(#[trigger] paths[i]) is Some
}

/// The parent of each of `paths`.
pub open spec fn parents_of(paths: Seq<Seq<char>>) -> Seq<Seq<char>> {
    paths.map_values(|p: Seq<char>| path_parent(p).unwrap())
}

/// The directory that holds each of `paths`, or `None` where one of them
/// has no parent.
pub fn get_parents(paths: &Vec<String>) -> (r: Option<Vec<String>>)
    ensures
        r.is_some() == all_have_parents(texts(paths@)),
        r.is_some() ==> texts(r.unwrap()@) == parents_of(texts(paths@)),
{
    let ghost all = texts(paths@);
    let mut r: Vec<String> = Vec::new();
    let mut i: usize = 0;
    proof {
        assert(texts(r@) =~= parents_of(all).take(0));
    }
    while i < paths.len()
        invariant
            i <= paths.len(),
            all == texts(paths@),
            forall|j: int| 0 <= j < i ==> path_parent(#[trigger] all[j]) is Some,
            texts(r@) == parents_of(all).take(i as int),
        decreases paths.len() - i,
    {
        match parent_of(paths[i].as_str()) {
            Some(parent) => {
                proof {
                    assert(all[i as int] == paths[i as int]@);
                    assert(parents_of(all)[i as int] == parent@);
                    assert(texts(r@.push(parent)) =~= texts(r@).push(parent@));
                    assert(parents_of(all).take(i as int).push(parent@) =~= parents_of(all).take(
                        i + 1,
                    ));
                }
                r.push(parent);
            },
            None => {
                proof {
                    assert(all[i as int] == paths[i as int]@);
                    assert(path_parent(all[i as int]) is None);
                }
                return None;
            },
        }
        i = i + 1;
    }
    proof {
        assert(parents_of(all).take(i as int) =~= parents_of(all));
    }
    Some(r)
}

/// The command `gh pr diff <pr> --name-only`, its output kept from the
/// terminal: it prints the files that the pull request changes, one on
/// each line.
pub open spec fn files_changed_command(pr: Seq<char>) -> CmdView {
    CmdView {
        name: "gh"@,
        args: seq!["pr"@, "diff"@, pr, "--name-only"@],
        current_dir: None,
        hide_stdout: true,
    }
}

/// The command that lists the files that pull request `pr` changes.
pub fn get_files_changes(pr: &str) -> (r: Cmd)
    ensures
        r@ == files_changed_command(pr@),
{
    let args = ["pr", "diff", pr, "--name-only"];
    let mut cmd = Cmd::new("gh", args.as_slice());
    proof {
        assert(cmd@.args =~= files_changed_command(pr@).args);
    }
    cmd.hide_stdout();
    cmd
}

/// The files that the output of [`get_files_changes`] names: its lines.
pub fn files_changed(stdout: &str) -> (r: Vec<String>)
    ensures
        texts(r@) == lines(stdout@),
{
    split_lines(stdout)
}

/// The steps that plan the legacy account's directories: a logout, the
/// legacy login, a plan in each `terraform` directory, then a plan in each
/// legacy `terragrunt` directory.
pub fn plan_legacy_dirs(terraform_dirs: &Vec<String>, terragrunt_dirs: &Vec<String>) -> (r: Vec<
    Step,
>)
    ensures
        step_views(r@) == legacy_steps(
            Operation::Plan,
            texts(terraform_dirs@),
            texts(terragrunt_dirs@),
        ),
{
    legacy_schedule(Operation::Plan, terraform_dirs, terragrunt_dirs)
}

/// The steps that plan the directories of each account in turn: for each
/// account a logout, the login, and a plan in each of its directories.
pub fn plan_terragrunt_with_sso(terragrunt_sso_dirs: &Vec<(String, Vec<String>)>) -> (r: Vec<Step>)
    ensures
        step_views(r@) == sso_steps(Operation::Plan, account_views(terragrunt_sso_dirs@)),
{
    sso_schedule(Operation::Plan, terragrunt_sso_dirs)
}

/// The steps that plan `directories`, or `None` where a directory under
/// `terragrunt` does not follow the layout `terragrunt/accounts/<account>`.
pub fn plan_directories(directories: Vec<String>) -> (r: Option<Vec<Step>>)
    ensures
        r.is_some() == all_follow_layout(split_all(texts(directories@))),
        r.is_some() ==> step_views(r.unwrap()@) == schedule_of(
            Operation::Plan,
            grouping_of(split_all(texts(directories@))),
        ),
{
    match GroupedDirs::try_new(directories) {
        Some(grouped) => {
            proof {
                lemma_grouping_of(grouped@, split_all(texts(directories@)));
            }
            Some(schedule(Operation::Plan, &grouped))
        },
        None => None,
    }
}

/// The values of a list of outcomes.
pub open spec fn plan_views(v: Seq<PlanOutcome>) -> Seq<PlanOutcomeView> {
    v.map_values(|o: PlanOutcome| o@)
}

/// The `k`th directory with the `k`th outcome, for every directory.
pub open spec fn paired(dirs: Seq<Seq<char>>, outcomes: Seq<PlanOutcomeView>) -> Seq<
    (Seq<char>, PlanOutcomeView),
> {
    Seq::new(dirs.len(), |k: int| (dirs[k], outcomes[k]))
}

/// A copy of an outcome.
pub fn copy_outcome(outcome: &PlanOutcome) -> (r: PlanOutcome)
    ensures
        r@ == outcome@,
{
    match outcome {
        PlanOutcome::NoChanges => PlanOutcome::NoChanges,
        PlanOutcome::Changes(output) => PlanOutcome::Changes(output.clone()),
    }
}

/// Each directory that `steps` run in with the outcome of its run:
/// `outcomes` holds them in the order of the runs. `None` where there are
/// not as many outcomes as runs.
pub fn collect_outcomes(steps: &Vec<Step>, outcomes: &Vec<PlanOutcome>) -> (r: Option<
    Vec<(String, PlanOutcome)>,
>)
    ensures
        r.is_some() == (run_dirs(step_views(steps@)).len() == outcomes.len()),
        r.is_some() ==> outcome_views(r.unwrap()@) == paired(
            run_dirs(step_views(steps@)),
            plan_views(outcomes@),
        ),
{
    let ghost all = step_views(steps@);
    let mut pairs: Vec<(String, PlanOutcome)> = Vec::new();
    let mut i: usize = 0;
    proof {
        assert(all.take(0) =~= Seq::<crate::orchestrator::StepView>::empty());
        assert(outcome_views(pairs@) =~= paired(run_dirs(all.take(0)), plan_views(outcomes@)));
    }
    while i < steps.len()
        invariant
            i <= steps.len(),
            all == step_views(steps@),
            pairs.len() == run_dirs(all.take(i as int)).len(),
            pairs.len() <= outcomes.len(),
            outcome_views(pairs@) == paired(run_dirs(all.take(i as int)), plan_views(outcomes@)),
        decreases steps.len() - i,
    {
        proof {
            assert(all.take(i + 1).drop_last() =~= all.take(i as int));
            assert(all.take(i + 1).last() == steps[i as int]@);
        }
        match &steps[i] {
            Step::Run(_, _, dir) => {
                if pairs.len() >= outcomes.len() {
                    proof {
                        lemma_run_dirs_grow(all, i + 1);
                    }
                    return None;
                }
                let pair = (dir.clone(), copy_outcome(&outcomes[pairs.len()]));
                proof {
                    let n = pairs.len() as int;
                    let dirs = run_dirs(all.take(i as int));
                    let found = plan_views(outcomes@);
                    assert(pair.1@ == found[n]);
                    let old_pairs = outcome_views(pairs@);
                    let new_pairs = outcome_views(pairs@.push(pair));
                    let wanted = paired(dirs.push(dir@), found);
                    assert(new_pairs.len() == wanted.len());
                    assert forall|k: int| 0 <= k < new_pairs.len() implies new_pairs[k]
                        == wanted[k] by {
                        if k < n {
                            assert(new_pairs[k] == old_pairs[k]);
                            assert(old_pairs[k] == paired(dirs, found)[k]);
                        } else {
                            assert(new_pairs[k] == (dir@, pair.1@));
                        }
                    }
                    assert(new_pairs =~= wanted);
                }
                pairs.push(pair);
            },
            _ => {},
        }
        i = i + 1;
    }
    proof {
        assert(all.take(i as int) =~= all);
    }
    if pairs.len() == outcomes.len() {
        Some(pairs)
    } else {
        None
    }
}

/// The runs of a list of steps are no fewer than the runs of its beginning.
proof fn lemma_run_dirs_grow(steps: Seq<crate::orchestrator::StepView>, n: int)
    requires
        0 <= n <= steps.len(),
    ensures
        run_dirs(steps.take(n)).len() <= run_dirs(steps).len(),
    decreases steps.len() - n,
{
    if n < steps.len() {
        assert(steps.take(n + 1).drop_last() =~= steps.take(n));
        lemma_run_dirs_grow(steps, n + 1);
    } else {
        assert(steps.take(n) =~= steps);
    }
}

/// The steps that plan a pull request, given the files it changes: a plan
/// in the directory of every lockfile among them, laid out as every
/// schedule is. `None` where a lockfile has no directory, or where a
/// directory under `terragrunt` does not follow the layout
/// `terragrunt/accounts/<account>`.
pub fn plan_pr(files_changed: &Vec<String>) -> (r: Option<Vec<Step>>)
    ensures
        r.is_some() == (all_have_parents(lock_files_of(texts(files_changed@)))
            && all_follow_layout(split_all(parents_of(lock_files_of(texts(files_changed@)))))),
        r.is_some() ==> step_views(r.unwrap()@) == schedule_of(
            Operation::Plan,
            grouping_of(split_all(parents_of(lock_files_of(texts(files_changed@))))),
        ),
{
    let lock_files = get_lock_files(files_changed);
    match get_parents(&lock_files) {
        Some(directories) => plan_directories(directories),
        None => None,
    }
}

} // verus!
