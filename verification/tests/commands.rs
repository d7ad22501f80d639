use infratk::aws::{legacy_login, login, sso_login, sso_logout};
use infratk::cmd_runner::{plan_outcome, CmdRunner, PlanError, PlanOutcome};
use infratk::config::Config;
use infratk::git::{assert_current_branch_is_same_as_pr, get_current_branch, get_pr_branch};
use infratk::legacy_login::login_to_legacy_aws_account;
use infratk::orchestrator::{Engine, Operation, Step};
use infratk::plan_pr::{files_changed, get_files_changes};
use infratk::run_cmd::{Cmd, CmdOutput};
use infratk::terragrunt::{are_changes_applied, terragrunt_init_upgrade};

fn shape(cmd: &Cmd) -> (String, Vec<String>, Option<String>, bool) {
    (
        cmd.name().to_string(),
        cmd.args().clone(),
        cmd.current_dir().map(|d| d.to_string()),
        cmd.is_stdout_hidden(),
    )
}

fn expect(name: &str, args: &[&str], dir: Option<&str>, hidden: bool) -> (String, Vec<String>, Option<String>, bool) {
    (
        name.to_string(),
        args.iter().map(|a| a.to_string()).collect(),
        dir.map(|d| d.to_string()),
        hidden,
    )
}

#[test]
fn single_sign_on_uses_the_profile_of_the_account() {
    assert_eq!(
        shape(&sso_login("prod")),
        expect("aws", &["sso", "login", "--profile", "prod"], None, false)
    );
    assert_eq!(
        shape(&sso_login("root")),
        expect("aws", &["sso", "login", "--profile", "rust-root"], None, false)
    );
    assert_eq!(shape(&sso_logout()), expect("aws", &["sso", "logout"], None, false));
}

#[test]
fn login_is_chosen_by_the_account() {
    assert_eq!(shape(&login("legacy")), expect("python3", &["./aws-creds.py"], None, false));
    assert_eq!(shape(&login("legacy")), shape(&legacy_login()));
    assert_eq!(shape(&login("dev")), shape(&sso_login("dev")));
    let config = Config { op_legacy_item_id: Some("item".to_string()) };
    assert_eq!(shape(&login_to_legacy_aws_account(&config)), shape(&legacy_login()));
}

#[test]
fn plans_and_upgrades_run_in_their_directory() {
    let runner = CmdRunner::new(vec![]);
    assert!(runner.env_vars().is_empty());
    assert_eq!(
        shape(&runner.terragrunt_plan("terragrunt/accounts/prod/app")),
        expect(
            "terragrunt",
            &["plan", "-detailed-exitcode", "-input=false"],
            Some("terragrunt/accounts/prod/app"),
            false
        )
    );
    assert_eq!(
        shape(&runner.terraform_plan("terraform/x")),
        expect("terraform", &["plan", "-detailed-exitcode", "-input=false"], Some("terraform/x"), false)
    );
    assert_eq!(
        shape(&runner.terragrunt_init_upgrade("s")),
        expect("terragrunt", &["init", "--upgrade", "-input=false"], Some("s"), false)
    );
    assert_eq!(
        shape(&runner.terraform_init_upgrade("m")),
        expect("terraform", &["init", "--upgrade", "-input=false"], Some("m"), false)
    );
    assert_eq!(shape(&are_changes_applied("s")), shape(&runner.terragrunt_plan("s")));
    assert_eq!(shape(&terragrunt_init_upgrade("s")), shape(&runner.terragrunt_init_upgrade("s")));
}

#[test]
fn every_step_has_its_command() {
    let runner = CmdRunner::new(vec![]);
    assert_eq!(shape(&runner.step_command(&Step::Logout).unwrap()), shape(&sso_logout()));
    assert_eq!(shape(&runner.step_command(&Step::LegacyLogin).unwrap()), shape(&legacy_login()));
    assert_eq!(
        shape(&runner.step_command(&Step::SsoLogin("root".to_string())).unwrap()),
        shape(&sso_login("root"))
    );
    assert!(runner.step_command(&Step::SsoLogin("legacy".to_string())).is_none());
    let run = Step::Run(Operation::Plan, Engine::Terraform, "terraform/x".to_string());
    assert_eq!(shape(&runner.step_command(&run).unwrap()), shape(&runner.terraform_plan("terraform/x")));
}

#[test]
fn exit_code_tells_the_outcome_of_a_plan() {
    let out = |code: Option<i32>| CmdOutput::new(code, "the diff".to_string(), "".to_string());
    assert_eq!(plan_outcome(&out(Some(0))), Ok(PlanOutcome::NoChanges));
    assert_eq!(plan_outcome(&out(Some(2))), Ok(PlanOutcome::Changes("the diff".to_string())));
    assert_eq!(plan_outcome(&out(Some(1))), Err(PlanError::Failed(1)));
    assert_eq!(plan_outcome(&out(Some(-1))), Err(PlanError::Failed(-1)));
    assert_eq!(plan_outcome(&out(None)), Err(PlanError::NoExitCode));
    assert!(out(Some(0)).success());
    assert!(!out(Some(2)).success());
    assert!(!out(None).success());
    assert_eq!(out(Some(3)).status(), Some(3));
    assert_eq!(out(Some(3)).stdout(), "the diff");
    assert_eq!(out(Some(3)).stderr(), "");
}

#[test]
fn command_is_built_step_by_step() {
    let mut cmd = Cmd::new("git", &["rev-parse", "--show-toplevel"]);
    assert_eq!(shape(&cmd), expect("git", &["rev-parse", "--show-toplevel"], None, false));
    cmd.with_current_dir("repo").hide_stdout();
    assert_eq!(shape(&cmd), expect("git", &["rev-parse", "--show-toplevel"], Some("repo"), true));
    assert_eq!(cmd.command_line(), "git rev-parse --show-toplevel");
    assert_eq!(Cmd::new("ls", &[]).command_line(), "ls");
}

#[test]
fn branches_are_asked_of_git_and_gh() {
    assert_eq!(
        shape(&get_current_branch()),
        expect("git", &["rev-parse", "--abbrev-ref", "HEAD"], None, true)
    );
    assert_eq!(
        shape(&get_pr_branch("42")),
        expect("gh", &["pr", "view", "42", "--json", "headRefName", "-q", ".headRefName"], None, true)
    );
    assert!(assert_current_branch_is_same_as_pr("feature\n", "  feature"));
    assert!(!assert_current_branch_is_same_as_pr("feature\n", "main\n"));
    assert!(!assert_current_branch_is_same_as_pr("feat ure", "feature"));
}

#[test]
fn changed_files_are_the_lines_of_the_diff() {
    assert_eq!(
        shape(&get_files_changes("https://example.org/pr/7")),
        expect("gh", &["pr", "diff", "https://example.org/pr/7", "--name-only"], None, true)
    );
    assert_eq!(files_changed("a/main.tf\nb/.terraform.lock.hcl\n"), vec!["a/main.tf", "b/.terraform.lock.hcl"]);
    assert!(files_changed("").is_empty());
}
