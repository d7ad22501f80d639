use infratk::grouped_dirs::GroupedDirs;

fn dirs(list: &[&str]) -> Vec<String> {
    list.iter().map(|d| d.to_string()).collect()
}

#[test]
fn directories_are_grouped_by_engine_and_account() {
    let grouped = GroupedDirs::new(dirs(&[
        "terragrunt/accounts/prod/a",
        "terragrunt/accounts/prod/b",
        "terragrunt/accounts/legacy/c",
        "terraform/x",
    ]));
    assert!(grouped.contains_legacy_account());
    assert_eq!(grouped.legacy_terragrunt_dirs(), dirs(&["terragrunt/accounts/legacy/c"]));
    assert_eq!(
        grouped.sso_terragrunt_dirs(),
        vec![(
            "prod".to_string(),
            dirs(&["terragrunt/accounts/prod/a", "terragrunt/accounts/prod/b"])
        )]
    );
    assert_eq!(grouped.terraform_dirs(), &dirs(&["terraform/x"]));
}

#[test]
fn missing_accounts_segment_is_a_malformed_layout() {
    assert!(GroupedDirs::try_new(dirs(&["terragrunt/wrong/prod/a"])).is_none());
}

#[test]
fn directory_without_account_is_a_malformed_layout() {
    assert!(GroupedDirs::try_new(dirs(&["terragrunt/accounts"])).is_none());
    assert!(GroupedDirs::try_new(dirs(&["terragrunt"])).is_none());
}

#[test]
fn directories_outside_both_roots_are_dropped() {
    let grouped = GroupedDirs::try_new(dirs(&["docs/readme", "/terraform/x", "./terragrunt/y"]))
        .unwrap();
    assert!(!grouped.contains_legacy_account());
    assert!(grouped.terraform_dirs().is_empty());
    assert!(grouped.accounts().is_empty());
}

#[test]
fn accounts_come_in_ascending_order() {
    let grouped = GroupedDirs::new(dirs(&[
        "terragrunt/accounts/staging/a",
        "terragrunt/accounts/dev/b",
        "terragrunt/accounts/prod/c",
        "terragrunt/accounts/dev/d",
        "terragrunt/accounts/Zeta/e",
    ]));
    let names: Vec<String> = grouped.accounts().iter().map(|(n, _)| n.clone()).collect();
    assert_eq!(names, dirs(&["Zeta", "dev", "prod", "staging"]));
    let mut sorted = names.clone();
    sorted.sort();
    assert_eq!(names, sorted);
    assert_eq!(
        grouped.accounts()[1].1,
        dirs(&["terragrunt/accounts/dev/b", "terragrunt/accounts/dev/d"])
    );
    assert!(!grouped.contains_legacy_account());
    assert!(grouped.legacy_terragrunt_dirs().is_empty());
}

#[test]
fn terraform_directories_call_for_the_legacy_account() {
    let grouped = GroupedDirs::new(dirs(&["terraform/x"]));
    assert!(grouped.contains_legacy_account());
    assert!(grouped.legacy_terragrunt_dirs().is_empty());
}

#[test]
fn only_the_account_named_legacy_is_the_legacy_account() {
    let grouped = GroupedDirs::new(dirs(&["terragrunt/accounts/legacy-old/a"]));
    assert!(!grouped.contains_legacy_account());
    assert_eq!(
        grouped.sso_terragrunt_dirs(),
        vec![("legacy-old".to_string(), dirs(&["terragrunt/accounts/legacy-old/a"]))]
    );
}
