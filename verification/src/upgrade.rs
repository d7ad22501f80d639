//! The upgrade of chosen states of chosen accounts.

use crate::cmd_runner::PlanOutcome;
use crate::orchestrator::{step_views, Engine, Operation, Step, StepView};
use crate::path::{file_name_of, join, path_file_name, path_join, texts};
use crate::text::same_text;
use vstd::prelude::*;
use vstd::string::*;

verus! {

/// The directory that holds one directory for each account:
/// `terragrunt/accounts` under the root of the repository.
pub fn accounts_dir(git_root: &str) -> (r: String)
    ensures
        r@ == path_join(path_join(git_root@, "terragrunt"@), "accounts"@),
{
    let terragrunt = join(git_root, "terragrunt");
    join(terragrunt.as_str(), "accounts")
}

/// The login of the account named `name`.
pub open spec fn login_step(name: Seq<char>) -> StepView {
    if name == "legacy"@ {
        StepView::LegacyLogin
    } else {
        StepView::SsoLogin(name)
    }
}

/// An upgrade and a plan in each of `states`, state by state.
pub open spec fn upgrade_and_plan(states: Seq<Seq<char>>) -> Seq<StepView>
    decreases states.len(),
{
    if states.len() == 0 {
        Seq::empty()
    } else {
        upgrade_and_plan(states.drop_last()) + seq![
            StepView::Run(Operation::InitUpgrade, Engine::Terragrunt, states.last()),
            StepView::Run(Operation::Plan, Engine::Terragrunt, states.last()),
        ]
    }
}

/// The steps that open the work on the account in directory `account`: a
/// logout, then the login of the account, which is named by the last
/// component of the directory. `None` where the directory has no name.
pub fn upgrade_account_login(account: &str) -> (r: Option<Vec<Step>>)
    ensures
        r.is_some() == path_file_name(account@).is_some(),
        r.is_some() ==> step_views(r.unwrap()@) == seq![
            StepView::Logout,
            login_step(path_file_name(account@).unwrap()),
        ],
{
    let name = match file_name_of(account) {
        Some(name) => name,
        None => {
            return None;
        },
    };
    let mut steps: Vec<Step> = Vec::new();
    steps.push(Step::Logout);
    if same_text(name.as_str(), "legacy") {
        steps.push(Step::LegacyLogin);
    } else {
        steps.push(Step::SsoLogin(name));
    }
    proof {
        assert(step_views(steps@) =~= seq![
            StepView::Logout,
            login_step(path_file_name(account@).unwrap()),
        ]);
    }
    Some(steps)
}

/// The steps that upgrade the chosen states of one account: in each state
/// the lockfile is brought up to date, then a plan checks that nothing is
/// left to apply.
pub fn upgrade_states(selected_states: &Vec<String>) -> (r: Vec<Step>)
    ensures
        step_views(r@) == upgrade_and_plan(texts(selected_states@)),
{
    let ghost all = texts(selected_states@);
    let mut steps: Vec<Step> = Vec::new();
    let mut i: usize = 0;
    proof {
        assert(all.take(0) =~= Seq::<Seq<char>>::empty());
        assert(step_views(steps@) =~= Seq::<StepView>::empty());
    }
    while i < selected_states.len()
        invariant
            i <= selected_states.len(),
            all == texts(selected_states@),
            step_views(steps@) == upgrade_and_plan(all.take(i as int)),
        decreases selected_states.len() - i,
    {
        let ghost before = step_views(steps@);
        proof {
            assert(all.take(i + 1).drop_last() =~= all.take(i as int));
            assert(all.take(i + 1).last() == selected_states[i as int]@);
        }
        steps.push(Step::Run(Operation::InitUpgrade, Engine::Terragrunt, selected_states[i].clone()));
        steps.push(Step::Run(Operation::Plan, Engine::Terragrunt, selected_states[i].clone()));
        proof {
            assert(step_views(steps@) =~= before + seq![
                StepView::Run(Operation::InitUpgrade, Engine::Terragrunt, all[i as int]),
                StepView::Run(Operation::Plan, Engine::Terragrunt, all[i as int]),
            ]);
        }
        i = i + 1;
    }
    proof {
        assert(all.take(i as int) =~= all);
    }
    steps
}

/// Whether a state is up to date after its upgrade: the plan that follows
/// must find no changes.
pub fn is_up_to_date(outcome: &PlanOutcome) -> (r: bool)
    ensures
        r == (outcome@ is NoChanges),
{
    match outcome {
        PlanOutcome::NoChanges => true,
        PlanOutcome::Changes(_) => false,
    }
}

} // verus!
