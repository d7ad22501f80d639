use infratk::lockfile::{read_lockfile, LockfileError};
use infratk::provider::{outdated_providers, registry_url};
use infratk::upgrade_provider::{get_all_providers, update_lockfiles, LockFile, Providers};
use infratk::orchestrator::{Engine, Operation, Step};
use infratk::version::Version;

const LOCK: &str = r#"# This file is maintained automatically by "terraform init".
# Manual edits may be lost in future updates.

provider "registry.terraform.io/hashicorp/aws" {
  version     = "5.0.0"
  constraints = "~> 5.0"
  hashes = [
    "h1:abc",
  ]
}

provider "registry.terraform.io/hashicorp/null" {
  version = "3.0.0"
  hashes = [
    "h1:def",
  ]
}
"#;

fn version(text: &str) -> Version {
    Version::parse(text).unwrap()
}

fn flat(providers: &Providers) -> Vec<(String, Vec<(String, Vec<String>)>)> {
    providers
        .providers()
        .iter()
        .map(|(name, versions)| {
            (
                name.clone(),
                versions
                    .versions()
                    .iter()
                    .map(|(v, files)| (v.as_str().to_string(), files.clone()))
                    .collect(),
            )
        })
        .collect()
}

fn lockfile(path: &str, content: &str) -> LockFile {
    LockFile { path: path.to_string(), content: content.to_string() }
}

#[test]
fn lockfile_pins_are_read() {
    let pins = read_lockfile(LOCK).unwrap();
    assert_eq!(
        pins,
        vec![
            ("hashicorp/aws".to_string(), version("5.0.0")),
            ("hashicorp/null".to_string(), version("3.0.0")),
        ]
    );
}

#[test]
fn outdated_provider_is_reported_and_up_to_date_one_is_not() {
    let lockfiles = vec![lockfile("terraform/x/.terraform.lock.hcl", LOCK)];
    let providers = get_all_providers(&lockfiles).unwrap();
    assert_eq!(
        flat(&providers),
        vec![
            (
                "hashicorp/aws".to_string(),
                vec![("5.0.0".to_string(), vec!["terraform/x/.terraform.lock.hcl".to_string()])]
            ),
            (
                "hashicorp/null".to_string(),
                vec![("3.0.0".to_string(), vec!["terraform/x/.terraform.lock.hcl".to_string()])]
            ),
        ]
    );
    let latest = vec![version("5.1.0"), version("3.0.0")];
    let outdated = outdated_providers(&providers, &latest);
    assert_eq!(
        flat(&outdated),
        vec![(
            "hashicorp/aws".to_string(),
            vec![("5.0.0".to_string(), vec!["terraform/x/.terraform.lock.hcl".to_string()])]
        )]
    );
}

#[test]
fn providers_and_versions_come_in_order() {
    let newer = LOCK.replace("5.0.0", "5.10.0");
    let older = LOCK.replace("5.0.0", "5.9.0");
    let pre = LOCK.replace("5.0.0", "5.9.0-beta.2");
    let lockfiles = vec![
        lockfile("a/.terraform.lock.hcl", &newer),
        lockfile("b/.terraform.lock.hcl", &older),
        lockfile("c/.terraform.lock.hcl", &pre),
        lockfile("d/.terraform.lock.hcl", &older),
    ];
    let providers = get_all_providers(&lockfiles).unwrap();
    let all = flat(&providers);
    assert_eq!(all[0].0, "hashicorp/aws");
    assert_eq!(
        all[0].1,
        vec![
            ("5.9.0-beta.2".to_string(), vec!["c/.terraform.lock.hcl".to_string()]),
            (
                "5.9.0".to_string(),
                vec!["b/.terraform.lock.hcl".to_string(), "d/.terraform.lock.hcl".to_string()]
            ),
            ("5.10.0".to_string(), vec!["a/.terraform.lock.hcl".to_string()]),
        ]
    );
    assert_eq!(all[1].0, "hashicorp/null");
    assert_eq!(all[1].1[0].1.len(), 4);
    assert_eq!(providers.names(), vec!["hashicorp/aws", "hashicorp/null"]);
}

#[test]
fn unreadable_lockfiles_are_errors() {
    assert_eq!(read_lockfile("provider"), Err(LockfileError::MissingProviderName));
    assert_eq!(
        read_lockfile("provider \"hashicorp/aws\" {\n version = \"1.0.0\"\n"),
        Err(LockfileError::InvalidProviderName)
    );
    assert_eq!(
        read_lockfile("provider \"registry.terraform.io/hashicorp/aws\" {\n version =\n"),
        Err(LockfileError::MissingVersion)
    );
    assert_eq!(
        read_lockfile("provider \"registry.terraform.io/hashicorp/aws\" {\n version = \"1.0\"\n"),
        Err(LockfileError::InvalidVersion)
    );
    assert_eq!(
        read_lockfile("provider \"registry.terraform.io/hashicorp/aws\" {"),
        Ok(vec![])
    );
    let lockfiles = vec![lockfile("a/.terraform.lock.hcl", LOCK), lockfile("b", "provider")];
    assert_eq!(get_all_providers(&lockfiles).err(), Some(LockfileError::MissingProviderName));
}

#[test]
fn versions_are_what_semver_accepts() {
    assert!(Version::parse("1.2.3").is_some());
    assert!(Version::parse("1.2.3-rc.1+build.5").is_some());
    assert!(Version::parse("1.2").is_none());
    assert!(Version::parse("1.2.03").is_none());
    assert!(Version::parse("").is_none());
    assert!(version("1.9.0").precedes(&version("1.10.0")));
    assert!(!version("1.10.0").precedes(&version("1.9.0")));
    assert!(version("1.0.0-alpha").precedes(&version("1.0.0")));
    assert!(!version("1.0.0").precedes(&version("1.0.0")));
    assert!(version("1.0.0").same_as(&version("1.0.0")));
    assert!(!version("1.0.0").same_as(&version("1.0.1")));
}

#[test]
fn registry_address_names_the_provider() {
    assert_eq!(
        registry_url("hashicorp/aws"),
        "https://registry.terraform.io/v1/providers/hashicorp/aws"
    );
}

#[test]
fn lockfiles_of_selected_providers_are_upgraded() {
    let only_null = LOCK.replace("hashicorp/aws", "hashicorp/random");
    let lockfiles = vec![
        lockfile("terragrunt/accounts/prod/app/.terraform.lock.hcl", LOCK),
        lockfile("terraform/x/.terraform.lock.hcl", LOCK),
        lockfile("terragrunt/accounts/dev/app/.terraform.lock.hcl", &only_null),
    ];
    let providers = get_all_providers(&lockfiles).unwrap();
    let steps = update_lockfiles(&providers, &vec!["hashicorp/aws".to_string()]).unwrap();
    let text: Vec<String> = steps.iter().map(|s| format!("{:?}", s)).collect();
    assert_eq!(
        text,
        vec![
            "Logout",
            "LegacyLogin",
            "Run(InitUpgrade, Terraform, \"terraform/x\")",
            "Logout",
            "SsoLogin(\"prod\")",
            "Run(InitUpgrade, Terragrunt, \"terragrunt/accounts/prod/app\")",
        ]
    );
    assert!(matches!(steps[2], Step::Run(Operation::InitUpgrade, Engine::Terraform, _)));
    assert!(update_lockfiles(&providers, &vec![]).unwrap().is_empty());
}
