use infratk::grouped_dirs::GroupedDirs;
use infratk::orchestrator::{schedule, Engine, Operation, Step};
use infratk::plan_pr::plan_directories;
use infratk::session::Session;

fn dirs(list: &[&str]) -> Vec<String> {
    list.iter().map(|d| d.to_string()).collect()
}

fn shown(steps: &[Step]) -> Vec<String> {
    steps.iter().map(|s| format!("{:?}", s)).collect()
}

#[test]
fn legacy_comes_first_then_the_accounts_in_order() {
    let steps = plan_directories(dirs(&[
        "terragrunt/accounts/staging/api",
        "terragrunt/accounts/prod/api",
        "terragrunt/accounts/legacy/dns",
        "terragrunt/accounts/prod/web",
        "terraform/shared",
        "terragrunt/accounts/legacy/mail",
    ]))
    .unwrap();
    assert_eq!(
        shown(&steps),
        vec![
            "Logout",
            "LegacyLogin",
            "Run(Plan, Terraform, \"terraform/shared\")",
            "Run(Plan, Terragrunt, \"terragrunt/accounts/legacy/dns\")",
            "Run(Plan, Terragrunt, \"terragrunt/accounts/legacy/mail\")",
            "Logout",
            "SsoLogin(\"prod\")",
            "Run(Plan, Terragrunt, \"terragrunt/accounts/prod/api\")",
            "Run(Plan, Terragrunt, \"terragrunt/accounts/prod/web\")",
            "Logout",
            "SsoLogin(\"staging\")",
            "Run(Plan, Terragrunt, \"terragrunt/accounts/staging/api\")",
        ]
    );
}

#[test]
fn a_logout_stands_before_every_login() {
    let grouped = GroupedDirs::new(dirs(&[
        "terragrunt/accounts/b/x",
        "terragrunt/accounts/a/y",
        "terragrunt/accounts/legacy/z",
    ]));
    let steps = schedule(Operation::InitUpgrade, &grouped);
    let mut logins = 0;
    for (i, step) in steps.iter().enumerate() {
        if matches!(step, Step::LegacyLogin | Step::SsoLogin(_)) {
            logins += 1;
            assert!(i > 0);
            assert!(matches!(steps[i - 1], Step::Logout));
        }
    }
    assert_eq!(logins, 3);
}

#[test]
fn the_session_admits_every_step_of_a_schedule() {
    let grouped = GroupedDirs::new(dirs(&[
        "terraform/t",
        "terragrunt/accounts/prod/p",
        "terragrunt/accounts/dev/d",
    ]));
    let steps = schedule(Operation::Plan, &grouped);
    let mut session = Session::start();
    let mut accounts = vec![];
    for step in &steps {
        session = session.advance(step).unwrap();
        if let (Step::Run(_, _, dir), Session::LoggedIn(account)) = (step, &session) {
            accounts.push((dir.clone(), account.clone()));
        }
    }
    assert_eq!(
        accounts,
        vec![
            ("terraform/t".to_string(), "legacy".to_string()),
            ("terragrunt/accounts/dev/d".to_string(), "dev".to_string()),
            ("terragrunt/accounts/prod/p".to_string(), "prod".to_string()),
        ]
    );
    assert!(matches!(session.finish(), Session::Done));
}

#[test]
fn the_session_refuses_steps_out_of_turn() {
    let run = Step::Run(Operation::Plan, Engine::Terragrunt, "x".to_string());
    assert!(Session::start().advance(&run).is_none());
    assert!(Session::start().advance(&Step::LegacyLogin).is_none());
    assert!(Session::LoggedOut.advance(&run).is_none());
    assert!(Session::LoggedIn("a".to_string()).advance(&Step::SsoLogin("b".to_string())).is_none());
    assert!(Session::LoggedOut.advance(&Step::SsoLogin("legacy".to_string())).is_none());
    assert!(Session::Done.advance(&Step::Logout).is_none());
    assert!(matches!(
        Session::LoggedIn("a".to_string()).advance(&Step::Logout),
        Some(Session::LoggedOut)
    ));
}

#[test]
fn nothing_to_do_is_an_empty_schedule() {
    assert!(plan_directories(vec![]).unwrap().is_empty());
    assert!(plan_directories(dirs(&["docs/x"])).unwrap().is_empty());
    assert!(plan_directories(dirs(&["terragrunt/nope/x/y"])).is_none());
}
