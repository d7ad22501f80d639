//! Terragrunt on one state, without credentials of its own.

use crate::cmd_runner::operation_command;
use crate::orchestrator::{Engine, Operation};
use crate::run_cmd::Cmd;
use vstd::prelude::*;

pub use crate::cmd_runner::PlanOutcome;

verus! {

/// The command that checks the state in `state` for changes that are not
/// applied. Read its outcome with [`plan_outcome`](crate::cmd_runner::plan_outcome).
pub fn are_changes_applied(state: &str) -> (r: Cmd)
    ensures
        r@ == operation_command(Operation::Plan, Engine::Terragrunt, state@),
{
    let args = ["plan", "-detailed-exitcode", "-input=false"];
    let mut cmd = Cmd::new("terragrunt", args.as_slice());
    proof {
        assert(cmd@.args =~= operation_command(Operation::Plan, Engine::Terragrunt, state@).args);
    }
    cmd.with_current_dir(state);
    cmd
}

/// The command that brings the lockfile of the state in `state` up to date.
pub fn terragrunt_init_upgrade(state: &str) -> (r: Cmd)
    ensures
        r@ == operation_command(Operation::InitUpgrade, Engine::Terragrunt, state@),
{
    let args = ["init", "--upgrade", "-input=false"];
    let mut cmd = Cmd::new("terragrunt", args.as_slice());
    proof {
        assert(cmd@.args =~= operation_command(
            Operation::InitUpgrade,
            Engine::Terragrunt,
            state@,
        ).args);
    }
    cmd.with_current_dir(state);
    cmd
}

} // verus!
