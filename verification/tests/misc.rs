use infratk::clipboard::strip_ansi_escapes;
use infratk::cmd_runner::PlanOutcome;
use infratk::config::{config_file, create_config_dir, create_default_config, parse_config, Config};
use infratk::dependency::get_relative_path;
use infratk::dir::{current_dir_is_simpleinfra, get_stripped_parent, strip_current_dir};
use infratk::graph::ModuleFile;
use infratk::graph_cmd::{get_packages_with_outdated_providers, print_graph};
use infratk::orchestrator::{Engine, Operation, Step};
use infratk::plan_pr::collect_outcomes;
use infratk::provider::outdated_providers;
use infratk::scan::{get_all_lockfiles, get_all_tf_and_hcl_files, WalkEntry};
use infratk::select::{select_accounts, select_providers, select_states, validate_selection};
use infratk::text::ordered_set;
use infratk::upgrade::{accounts_dir, is_up_to_date, upgrade_account_login, upgrade_states};
use infratk::upgrade_provider::{get_all_providers, LockFile};
use infratk::version::Version;

fn strings(list: &[&str]) -> Vec<String> {
    list.iter().map(|d| d.to_string()).collect()
}

#[test]
fn terminal_colours_are_taken_out() {
    assert_eq!(
        strip_ansi_escapes("\x1b[31mred\x1b[0m and \x1b[1;32mgreen\x1b[0m"),
        Some("red and green".to_string())
    );
    assert_eq!(strip_ansi_escapes("plain [text]"), Some("plain [text]".to_string()));
}

#[test]
fn paths_are_seen_from_the_current_directory() {
    assert_eq!(strip_current_dir("/repo/terraform/x", "/repo"), "terraform/x");
    assert_eq!(strip_current_dir("/elsewhere/x", "/repo"), "/elsewhere/x");
    assert_eq!(strip_current_dir("/repo", "/repo"), "");
    assert_eq!(get_stripped_parent("/repo/a/main.tf", "/repo"), Some("a".to_string()));
    assert_eq!(get_stripped_parent("/", "/repo"), None);
    assert!(current_dir_is_simpleinfra("/home/me/simpleinfra"));
    assert!(!current_dir_is_simpleinfra("/home/me/simpleinfra2"));
    assert!(!current_dir_is_simpleinfra("/home/me/my-simpleinfra"));
}

#[test]
fn resolved_dependency_is_preferred_and_unresolved_one_kept() {
    assert_eq!(get_relative_path("/repo/a/../b", Some("/repo/b"), "/repo"), "b");
    assert_eq!(get_relative_path("/repo/a/../b", None, "/repo"), "a/../b");
}

#[test]
fn configuration_lies_under_the_home_directory() {
    let (above, dir) = create_config_dir("/home/me");
    assert_eq!(above, "/home/me/.config");
    assert_eq!(dir, "/home/me/.config/infratk");
    assert_eq!(config_file(&dir), "/home/me/.config/infratk/config.toml");
}

#[test]
fn configuration_defaults_where_there_is_no_file() {
    let config = parse_config("c.toml", None).unwrap();
    assert_eq!(config.op_legacy_item_id, None);
    let given = Config { op_legacy_item_id: Some("id".to_string()) };
    let config = parse_config("c.toml", Some(Ok(given))).unwrap();
    assert_eq!(config.op_legacy_item_id, Some("id".to_string()));
    let error = parse_config("c.toml", Some(Err("unknown field".to_string()))).unwrap_err();
    assert_eq!(error.file, "c.toml");
    assert_eq!(error.cause, "unknown field");
    assert!(create_default_config(true).is_none());
    assert_eq!(create_default_config(false).unwrap().op_legacy_item_id, Some(String::new()));
}

#[test]
fn scan_keeps_the_files_of_interest() {
    let entry = |path: &str, is_dir: bool| WalkEntry { path: path.to_string(), is_dir };
    let entries = vec![
        entry("a", true),
        entry("a/main.tf", false),
        entry("a/terragrunt.hcl", false),
        entry("a/.terraform.lock.hcl", false),
        entry("a/README.md", false),
        entry("dir.tf", true),
        entry("b/.terraform.lock.hcl", true),
        entry("b/tf", false),
    ];
    assert_eq!(
        get_all_tf_and_hcl_files(&entries),
        vec!["a/main.tf", "a/terragrunt.hcl", "a/.terraform.lock.hcl"]
    );
    assert_eq!(get_all_lockfiles(&entries), vec!["a/.terraform.lock.hcl"]);
}

#[test]
fn questions_name_what_is_to_be_chosen() {
    let question = select_accounts(strings(&["a", "b"]));
    assert_eq!(question.message, "Select one or more accounts:");
    assert_eq!(question.options, strings(&["a", "b"]));
    assert_eq!(select_states(vec![]).message, "Select one or more states:");
    assert_eq!(select_providers(vec![]).message, "Select one or more providers:");
    assert_eq!(validate_selection(0), Err("Select one item!"));
    assert_eq!(validate_selection(1), Ok(()));
    assert_eq!(validate_selection(7), Ok(()));
}

#[test]
fn account_is_upgraded_state_by_state() {
    assert_eq!(accounts_dir("/repo"), "/repo/terragrunt/accounts");
    let shown = |steps: Vec<Step>| steps.iter().map(|s| format!("{:?}", s)).collect::<Vec<_>>();
    assert_eq!(
        shown(upgrade_account_login("/repo/terragrunt/accounts/prod").unwrap()),
        vec!["Logout", "SsoLogin(\"prod\")"]
    );
    assert_eq!(
        shown(upgrade_account_login("/repo/terragrunt/accounts/legacy").unwrap()),
        vec!["Logout", "LegacyLogin"]
    );
    assert!(upgrade_account_login("/").is_none());
    assert_eq!(
        shown(upgrade_states(&strings(&["s1", "s2"]))),
        vec![
            "Run(InitUpgrade, Terragrunt, \"s1\")",
            "Run(Plan, Terragrunt, \"s1\")",
            "Run(InitUpgrade, Terragrunt, \"s2\")",
            "Run(Plan, Terragrunt, \"s2\")",
        ]
    );
    assert!(is_up_to_date(&PlanOutcome::NoChanges));
    assert!(!is_up_to_date(&PlanOutcome::Changes("x".to_string())));
}

#[test]
fn outcomes_are_paired_with_the_directories_of_the_runs() {
    let steps = vec![
        Step::Logout,
        Step::LegacyLogin,
        Step::Run(Operation::Plan, Engine::Terraform, "t".to_string()),
        Step::Logout,
        Step::SsoLogin("a".to_string()),
        Step::Run(Operation::Plan, Engine::Terragrunt, "g".to_string()),
    ];
    let outcomes = vec![PlanOutcome::NoChanges, PlanOutcome::Changes("diff".to_string())];
    assert_eq!(
        collect_outcomes(&steps, &outcomes),
        Some(vec![
            ("t".to_string(), PlanOutcome::NoChanges),
            ("g".to_string(), PlanOutcome::Changes("diff".to_string())),
        ])
    );
    assert_eq!(collect_outcomes(&steps, &vec![PlanOutcome::NoChanges]), None);
    assert_eq!(collect_outcomes(&steps, &vec![]), None);
    assert_eq!(collect_outcomes(&vec![], &vec![]), Some(vec![]));
    assert_eq!(collect_outcomes(&vec![], &outcomes), None);
}

#[test]
fn ordered_set_holds_each_text_once() {
    assert_eq!(ordered_set(&strings(&["b", "a", "c", "a", "b"])), strings(&["a", "b", "c"]));
    assert!(ordered_set(&vec![]).is_empty());
}

const LOCK: &str = "provider \"registry.terraform.io/hashicorp/aws\" {\n  version = \"5.0.0\"\n}\n";

#[test]
fn outdated_modules_are_marked_in_the_graph() {
    let lockfiles = vec![
        LockFile { path: "/repo/b/.terraform.lock.hcl".to_string(), content: LOCK.to_string() },
        LockFile { path: "/repo/a/.terraform.lock.hcl".to_string(), content: LOCK.to_string() },
        LockFile {
            path: "/repo/c/.terraform.lock.hcl".to_string(),
            content: LOCK.replace("5.0.0", "5.1.0"),
        },
    ];
    let providers = get_all_providers(&lockfiles).unwrap();
    let outdated = outdated_providers(&providers, &vec![Version::parse("5.1.0").unwrap()]);
    let packages = get_packages_with_outdated_providers(&outdated, "/repo").unwrap();
    assert_eq!(packages, strings(&["a", "b"]));
    let files = vec![ModuleFile { dir: "a".to_string(), dependencies: strings(&["c", "d"]) }];
    let dot = print_graph(&files, Some(&packages), &strings(&["a", "b", "c"]));
    assert_eq!(
        dot,
        "digraph {\n    0 [ label = \"\\\"a/ \u{274c}\\\"\" ]\n    1 [ label = \"\\\"c/ \u{2705}\\\"\" ]\n    \
         2 [ label = \"\\\"d\\\"\" ]\n    0 -> 1 [ ]\n    0 -> 2 [ ]\n}\n"
    );
    assert_eq!(
        providers.to_text("/repo").unwrap(),
        "- hashicorp/aws:\n  - 5.0.0 -> [\"b/.terraform.lock.hcl\", \"a/.terraform.lock.hcl\"]\n\n  \
         - 5.1.0 -> [\"c/.terraform.lock.hcl\"]\n\n"
    );
    assert!(providers.to_text("/elsewhere").is_none());
}
