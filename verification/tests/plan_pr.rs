use infratk::cmd_runner::PlanOutcome;
use infratk::plan_pr::{format_output, get_lock_files, get_parents, plan_pr};

#[test]
fn lock_files_are_filtered() {
    let files = vec![
        "main.tf".to_string(),
        "module1/main.tf".to_string(),
        "module1/.terraform.lock.hcl".to_string(),
        "module2/.terraform.lock.hcl".to_string(),
    ];
    let lock_files = get_lock_files(&files);
    assert_eq!(
        lock_files,
        vec![
            "module1/.terraform.lock.hcl".to_string(),
            "module2/.terraform.lock.hcl".to_string(),
        ]
    );
}

#[test]
fn parents_are_the_directories_of_the_files() {
    let files = vec!["module1/.terraform.lock.hcl".to_string(), "a/b/c".to_string()];
    assert_eq!(get_parents(&files), Some(vec!["module1".to_string(), "a/b".to_string()]));
    assert_eq!(get_parents(&vec!["/".to_string()]), None);
}

#[test]
fn report_lists_both_kinds_of_outcome() {
    let output = vec![
        ("a".to_string(), PlanOutcome::NoChanges),
        ("b".to_string(), PlanOutcome::Changes("diff of b".to_string())),
        ("c".to_string(), PlanOutcome::NoChanges),
    ];
    assert_eq!(
        format_output(&output),
        "## 📃📃 Plan summary 📃📃\n\
         \nNo changes detected (apply not needed):\n✅ a\n✅ c\n\
         \nChanges detected (apply needed):\n❌ b\n\
         \n## 📃📃 Plan output 📃📃\n👉 b:\n\n```\ndiff of b\n```\n"
    );
}

#[test]
fn report_leaves_out_empty_headings() {
    assert_eq!(format_output(&vec![]), "## 📃📃 Plan summary 📃📃\n");
    let output = vec![("a".to_string(), PlanOutcome::NoChanges)];
    assert_eq!(
        format_output(&output),
        "## 📃📃 Plan summary 📃📃\n\nNo changes detected (apply not needed):\n✅ a\n"
    );
}

#[test]
fn pull_request_is_planned_where_its_lockfiles_lie() {
    let files = vec![
        "terraform/shared/main.tf".to_string(),
        "terragrunt/accounts/prod/app/.terraform.lock.hcl".to_string(),
        "terraform/shared/.terraform.lock.hcl".to_string(),
        "README.md".to_string(),
    ];
    let steps: Vec<String> = plan_pr(&files).unwrap().iter().map(|s| format!("{:?}", s)).collect();
    assert_eq!(
        steps,
        vec![
            "Logout",
            "LegacyLogin",
            "Run(Plan, Terraform, \"terraform/shared\")",
            "Logout",
            "SsoLogin(\"prod\")",
            "Run(Plan, Terragrunt, \"terragrunt/accounts/prod/app\")",
        ]
    );
    assert!(plan_pr(&vec!["terragrunt/.terraform.lock.hcl".to_string()]).is_none());
    assert!(plan_pr(&vec!["main.tf".to_string()]).unwrap().is_empty());
}
