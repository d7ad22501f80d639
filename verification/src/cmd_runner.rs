//! The commands that plan and upgrade a directory, and the reading of a
//! plan's exit code.

use crate::aws::{
    legacy_login, legacy_login_command, sso_login, sso_login_command, sso_logout,
    sso_logout_command,
};
use crate::orchestrator::{Engine, Operation, Step, StepView};
use crate::text::same_text;
use crate::run_cmd::{Cmd, CmdOutput, CmdView};
use crate::secret::{secret_text, SecretText};
use vstd::prelude::*;
use vstd::string::*;

verus! {

/// What a plan found.
#[derive(Debug, PartialEq, Eq)]
pub enum PlanOutcome {
    /// Everything is applied.
    NoChanges,
    /// There are changes to apply; the plan's output tells which.
    Changes(String),
}

/// The mathematical value of a [`PlanOutcome`].
pub ghost enum PlanOutcomeView {
    NoChanges,
    Changes(Seq<char>),
}

impl View for PlanOutcome {
    type V = PlanOutcomeView;

    open spec fn view(&self) -> PlanOutcomeView {
        match self {
            PlanOutcome::NoChanges => PlanOutcomeView::NoChanges,
            PlanOutcome::Changes(output) => PlanOutcomeView::Changes(output@),
        }
    }
}

/// Why a plan has no outcome.
#[derive(Debug, PartialEq, Eq, Structural, Clone, Copy)]
pub enum PlanError {
    /// The plan failed; it exited with this code.
    Failed(i32),
    /// The plan did not exit by itself.
    NoExitCode,
}

/// What the exit code of a plan with `-detailed-exitcode` says: 0 that the
/// diff is empty, 2 that there is a diff, anything else that the plan
/// failed.
pub open spec fn outcome_of(status: Option<i32>, stdout: Seq<char>) -> Result<
    PlanOutcomeView,
    PlanError,
> {
    match status {
        Some(code) => if code == 0 {
            Ok(PlanOutcomeView::NoChanges)
        } else if code == 2 {
            Ok(PlanOutcomeView::Changes(stdout))
        } else {
            Err(PlanError::Failed(code))
        },
        None => Err(PlanError::NoExitCode),
    }
}

/// Reads the outcome of a plan off what the command left behind.
pub fn plan_outcome(output: &CmdOutput) -> (r: Result<PlanOutcome, PlanError>)
    ensures
        match r {
            Ok(outcome) => outcome_of(output.status(), output.spec_stdout()) == Ok::<
                PlanOutcomeView,
                PlanError,
            >(outcome@),
            Err(e) => outcome_of(output.status(), output.spec_stdout()) == Err::<
                PlanOutcomeView,
                PlanError,
            >(e),
        },
{
    match output.status() {
        Some(code) => {
            if code == 0 {
                Ok(PlanOutcome::NoChanges)
            } else if code == 2 {
                Ok(PlanOutcome::Changes(String::from_str(output.stdout())))
            } else {
                Err(PlanError::Failed(code))
            }
        },
        None => Err(PlanError::NoExitCode),
    }
}

/// The program of an engine.
pub open spec fn program_of(engine: Engine) -> Seq<char> {
    match engine {
        Engine::Terraform => "terraform"@,
        Engine::Terragrunt => "terragrunt"@,
    }
}

/// The arguments of an operation.
pub open spec fn arguments_of(operation: Operation) -> Seq<Seq<char>> {
    match operation {
        Operation::Plan => seq!["plan"@, "-detailed-exitcode"@, "-input=false"@],
        Operation::InitUpgrade => seq!["init"@, "--upgrade"@, "-input=false"@],
    }
}

/// The command that runs `operation` with `engine` in `dir`.
pub open spec fn operation_command(operation: Operation, engine: Engine, dir: Seq<char>) -> CmdView {
    CmdView {
        name: program_of(engine),
        args: arguments_of(operation),
        current_dir: Some(dir),
        hide_stdout: false,
    }
}

/// Runs commands under one set of credentials: the environment variables
/// that a login gave.
#[derive(Debug)]
pub struct CmdRunner {
    env_vars: Vec<(String, SecretText)>,
}

/// The names and secret texts of a list of environment variables.
pub open spec fn env_views(v: Seq<(String, SecretText)>) -> Seq<(Seq<char>, Seq<char>)> {
    v.map_values(|p: (String, SecretText)| (p.0@, secret_text(p.1)))
}

impl CmdRunner {
    /// The environment variables that every command is run with.
    pub closed spec fn spec_env_vars(&self) -> Seq<(Seq<char>, Seq<char>)> {
        env_views(self.env_vars@)
    }

    /// A runner for the account whose login gave `env_vars`.
    pub fn new(env_vars: Vec<(String, SecretText)>) -> (r: CmdRunner)
        ensures
            r.spec_env_vars() == env_views(env_vars@),
    {
        CmdRunner { env_vars }
    }

    /// The environment variables that every command is run with.
    pub fn env_vars(&self) -> (r: &Vec<(String, SecretText)>)
        ensures
            env_views(r@) == self.spec_env_vars(),
    {
        &self.env_vars
    }

    /// The command that runs `operation` with `engine` in `directory`.
    pub fn command(&self, operation: Operation, engine: Engine, directory: &str) -> (r: Cmd)
        ensures
            r@ == operation_command(operation, engine, directory@),
    {
        let program = match engine {
            Engine::Terraform => "terraform",
            Engine::Terragrunt => "terragrunt",
        };
        let mut cmd = match operation {
            Operation::Plan => {
                let args = ["plan", "-detailed-exitcode", "-input=false"];
                let cmd = Cmd::new(program, args.as_slice());
                proof {
                    assert(cmd@.args =~= arguments_of(operation));
                }
                cmd
            },
            Operation::InitUpgrade => {
                let args = ["init", "--upgrade", "-input=false"];
                let cmd = Cmd::new(program, args.as_slice());
                proof {
                    assert(cmd@.args =~= arguments_of(operation));
                }
                cmd
            },
        };
        cmd.with_current_dir(directory);
        cmd
    }

    /// The command that checks the terragrunt state in `state` for changes
    /// that are not applied.
    pub fn terragrunt_plan(&self, state: &str) -> (r: Cmd)
        ensures
            r@ == operation_command(Operation::Plan, Engine::Terragrunt, state@),
    {
        self.tg_or_tf_plan(state, Engine::Terragrunt)
    }

    /// The command that checks the terraform module in `module` for changes
    /// that are not applied.
    pub fn terraform_plan(&self, module: &str) -> (r: Cmd)
        ensures
            r@ == operation_command(Operation::Plan, Engine::Terraform, module@),
    {
        self.tg_or_tf_plan(module, Engine::Terraform)
    }

    fn tg_or_tf_plan(&self, directory: &str, engine: Engine) -> (r: Cmd)
        ensures
            r@ == operation_command(Operation::Plan, engine, directory@),
    {
        self.command(Operation::Plan, engine, directory)
    }

    /// The command that brings the lockfile of the terragrunt state in
    /// `state` up to date.
    pub fn terragrunt_init_upgrade(&self, state: &str) -> (r: Cmd)
        ensures
            r@ == operation_command(Operation::InitUpgrade, Engine::Terragrunt, state@),
    {
        self.command(Operation::InitUpgrade, Engine::Terragrunt, state)
    }

    /// The command that brings the lockfile of the terraform module in
    /// `module` up to date.
    pub fn terraform_init_upgrade(&self, module: &str) -> (r: Cmd)
        ensures
            r@ == operation_command(Operation::InitUpgrade, Engine::Terraform, module@),
    {
        self.command(Operation::InitUpgrade, Engine::Terraform, module)
    }
}

/// The command that carries out `step`. There is none for a single sign-on
/// to the legacy account, which has no such login.
pub open spec fn step_command_of(step: StepView) -> Option<CmdView> {
    match step {
        StepView::Logout => Some(sso_logout_command()),
        StepView::LegacyLogin => Some(legacy_login_command()),
        StepView::SsoLogin(account) => if account == "legacy"@ {
            None
        } else {
            Some(sso_login_command(account))
        },
        StepView::Run(operation, engine, dir) => Some(operation_command(operation, engine, dir)),
    }
}

impl CmdRunner {
    /// The command that carries out `step`; see [`step_command_of`].
    pub fn step_command(&self, step: &Step) -> (r: Option<Cmd>)
        ensures
            r.is_some() == step_command_of(step@).is_some(),
            r.is_some() ==> r.unwrap()@ == step_command_of(step@).unwrap(),
    {
        match step {
            Step::Logout => Some(sso_logout()),
            Step::LegacyLogin => Some(legacy_login()),
            Step::SsoLogin(account) => {
                if same_text(account.as_str(), "legacy") {
                    None
                } else {
                    Some(sso_login(account.as_str()))
                }
            },
            Step::Run(operation, engine, dir) => Some(self.command(*operation, *engine, dir.as_str())),
        }
    }
}

} // verus!
