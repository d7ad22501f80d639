//! The order of work across accounts.
//!
//! Work is laid out as a list of steps before any of it is done. Work under
//! the legacy account's credentials comes first: the `terraform`
//! directories, then the `terragrunt` directories of the `legacy` account.
//! The other accounts follow in ascending order of their names. Before every
//! login comes a logout, so that no two sets of credentials are ever live
//! together.

use crate::grouped_dirs::{
    account_views, group_of, has_account, without_account, GroupedDirs, GroupedDirsView,
};
use crate::path::texts;
use vstd::prelude::*;
use vstd::string::*;

verus! {

/// The tool that works on a directory.
#[derive(Clone, Copy, Debug, PartialEq, Eq, Structural)]
pub enum Engine {
    Terraform,
    Terragrunt,
}

/// What is done in a directory.
#[derive(Clone, Copy, Debug, PartialEq, Eq, Structural)]
pub enum Operation {
    /// Check for changes that are not applied yet.
    Plan,
    /// Bring the lockfile up to date.
    InitUpgrade,
}

/// One step of the work.
#[derive(Debug)]
pub enum Step {
    /// End the session of whichever account is logged in.
    Logout,
    /// Take on the credentials of the legacy account.
    LegacyLogin,
    /// Log in to the named account.
    SsoLogin(String),
    /// Run an operation in a directory with an engine.
    Run(Operation, Engine, String),
}

/// The mathematical value of a [`Step`].
pub ghost enum StepView {
    Logout,
    LegacyLogin,
    SsoLogin(Seq<char>),
    Run(Operation, Engine, Seq<char>),
}

impl View for Step {
    type V = StepView;

    open spec fn view(&self) -> StepView {
        match self {
            Step::Logout => StepView::Logout,
            Step::LegacyLogin => StepView::LegacyLogin,
            Step::SsoLogin(account) => StepView::SsoLogin(account@),
            Step::Run(operation, engine, dir) => StepView::Run(*operation, *engine, dir@),
        }
    }
}

/// The values of a list of steps.
pub open spec fn step_views(steps: Seq<Step>) -> Seq<StepView> {
    steps.map_values(|s: Step| s@)
}

/// One run of `operation` with `engine` in each of `dirs`, in their order.
pub open spec fn runs(operation: Operation, engine: Engine, dirs: Seq<Seq<char>>) -> Seq<StepView> {
    dirs.map_values(|d: Seq<char>| StepView::Run(operation, engine, d))
}

/// The work under the legacy account's credentials: a logout, the login,
/// the `terraform` directories, then the legacy `terragrunt` directories.
pub open spec fn legacy_steps(
    operation: Operation,
    terraform: Seq<Seq<char>>,
    terragrunt: Seq<Seq<char>>,
) -> Seq<StepView> {
    seq![StepView::Logout, StepView::LegacyLogin] + runs(operation, Engine::Terraform, terraform)
        + runs(operation, Engine::Terragrunt, terragrunt)
}

/// The work of one account: a logout, the login, and the account's
/// directories.
pub open spec fn account_steps(operation: Operation, account: Seq<char>, dirs: Seq<Seq<char>>) -> Seq<
    StepView,
> {
    seq![StepView::Logout, StepView::SsoLogin(account)] + runs(operation, Engine::Terragrunt, dirs)
}

/// The work of each account in turn.
pub open spec fn sso_steps(operation: Operation, accounts: Seq<(Seq<char>, Seq<Seq<char>>)>) -> Seq<
    StepView,
>
    decreases accounts.len(),
{
    if accounts.len() == 0 {
        Seq::empty()
    } else {
        sso_steps(operation, accounts.drop_last()) + account_steps(
            operation,
            accounts.last().0,
            accounts.last().1,
        )
    }
}

/// Whether `g` calls for work under the legacy account's credentials.
pub open spec fn needs_legacy(g: GroupedDirsView) -> bool {
    has_account(g.accounts, "legacy"@) || g.terraform.len() > 0
}

/// All the work that `g` calls for, in order.
pub open spec fn schedule_of(operation: Operation, g: GroupedDirsView) -> Seq<StepView> {
    (if needs_legacy(g) {
        legacy_steps(operation, g.terraform, group_of(g.accounts, "legacy"@))
    } else {
        Seq::empty()
    }) + sso_steps(operation, without_account(g.accounts, "legacy"@))
}

/// Appends one run in each of `dirs` to `steps`.
fn push_runs(steps: &mut Vec<Step>, operation: Operation, engine: Engine, dirs: &Vec<String>)
    ensures
        step_views(final(steps)@) == step_views(old(steps)@) + runs(
            operation,
            engine,
            texts(dirs@),
        ),
{
    let ghost before = step_views(steps@);
    let ghost wanted = runs(operation, engine, texts(dirs@));
    let mut i: usize = 0;
    proof {
        assert(before + wanted.take(0) =~= before);
    }
    while i < dirs.len()
        invariant
            i <= dirs.len(),
            wanted == runs(operation, engine, texts(dirs@)),
            step_views(steps@) == before + wanted.take(i as int),
        decreases dirs.len() - i,
    {
        let step = Step::Run(operation, engine, dirs[i].clone());
        proof {
            assert(step@ == wanted[i as int]);
            assert(step_views(steps@.push(step)) =~= step_views(steps@).push(step@));
            assert((before + wanted.take(i as int)).push(wanted[i as int]) =~= before
                + wanted.take(i + 1));
        }
        steps.push(step);
        i = i + 1;
    }
    proof {
        assert(wanted.take(i as int) =~= wanted);
    }
}

/// The work under the legacy account's credentials; see [`legacy_steps`].
pub fn legacy_schedule(operation: Operation, terraform_dirs: &Vec<String>, terragrunt_dirs: &Vec<
    String,
>) -> (r: Vec<Step>)
    ensures
        step_views(r@) == legacy_steps(operation, texts(terraform_dirs@), texts(terragrunt_dirs@)),
{
    let mut steps: Vec<Step> = Vec::new();
    steps.push(Step::Logout);
    steps.push(Step::LegacyLogin);
    proof {
        assert(step_views(steps@) =~= seq![StepView::Logout, StepView::LegacyLogin]);
    }
    push_runs(&mut steps, operation, Engine::Terraform, terraform_dirs);
    push_runs(&mut steps, operation, Engine::Terragrunt, terragrunt_dirs);
    steps
}

/// The work of each account in turn; see [`sso_steps`].
pub fn sso_schedule(operation: Operation, accounts: &Vec<(String, Vec<String>)>) -> (r: Vec<Step>)
    ensures
        step_views(r@) == sso_steps(operation, account_views(accounts@)),
{
    let ghost all = account_views(accounts@);
    let mut steps: Vec<Step> = Vec::new();
    let mut i: usize = 0;
    proof {
        assert(all.take(0) =~= Seq::<(Seq<char>, Seq<Seq<char>>)>::empty());
        assert(step_views(steps@) =~= Seq::<StepView>::empty());
    }
    while i < accounts.len()
        invariant
            i <= accounts.len(),
            all == account_views(accounts@),
            step_views(steps@) == sso_steps(operation, all.take(i as int)),
        decreases accounts.len() - i,
    {
        let ghost before = step_views(steps@);
        proof {
            assert(all.take(i + 1).drop_last() =~= all.take(i as int));
            assert(all.take(i + 1).last() == all[i as int]);
        }
        steps.push(Step::Logout);
        steps.push(Step::SsoLogin(accounts[i].0.clone()));
        proof {
            assert(step_views(steps@) =~= before + seq![
                StepView::Logout,
                StepView::SsoLogin(all[i as int].0),
            ]);
        }
        push_runs(&mut steps, operation, Engine::Terragrunt, &accounts[i].1);
        proof {
            let head = seq![StepView::Logout, StepView::SsoLogin(all[i as int].0)];
            let tail = runs(operation, Engine::Terragrunt, all[i as int].1);
            assert((before + head) + tail =~= before + (head + tail));
        }
        i = i + 1;
    }
    proof {
        assert(all.take(i as int) =~= all);
    }
    steps
}

/// All the work that `grouped` calls for, in order; see [`schedule_of`].
pub fn schedule(operation: Operation, grouped: &GroupedDirs) -> (r: Vec<Step>)
    ensures
        step_views(r@) == schedule_of(operation, grouped@),
{
    let mut steps: Vec<Step> = Vec::new();
    proof {
        assert(step_views(steps@) =~= Seq::<StepView>::empty());
    }
    if grouped.contains_legacy_account() {
        let legacy_dirs = grouped.legacy_terragrunt_dirs();
        steps = legacy_schedule(operation, grouped.terraform_dirs(), &legacy_dirs);
    }
    let ghost first = step_views(steps@);
    let sso_dirs = grouped.sso_terragrunt_dirs();
    let mut rest = sso_schedule(operation, &sso_dirs);
    proof {
        assert(step_views(steps@ + rest@) =~= first + step_views(rest@));
    }
    steps.append(&mut rest);
    steps
}

} // verus!
