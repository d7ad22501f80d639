use infratk::dependency::{get_dependencies, get_dependency_from_line};

#[test]
fn dependencies_are_read() {
    let content = r#"
                        source = "../aaaa"
                "#;
    let dependencies = get_dependencies("/tmp/module/main.tf", content).unwrap();
    assert_eq!(dependencies.len(), 1);
}

#[test]
fn graph_dependencies_are_read() {
    let content = r#"
                        source = "../aaaa"
                "#;
    let dependencies = get_dependencies("module/terragrunt.hcl", content).unwrap();
    assert_eq!(dependencies, vec!["module/../aaaa".to_string()]);
}

#[test]
fn line_with_source_is_a_dependency() {
    assert_eq!(get_dependency_from_line("  source = \"../network\""), Some("../network"));
    assert_eq!(get_dependency_from_line("config_path = \"../vpc\""), Some("../vpc"));
}

#[test]
fn registry_reference_is_no_dependency() {
    assert_eq!(get_dependency_from_line("source = \"hashicorp/aws\""), None);
}

#[test]
fn line_with_another_first_token_is_no_dependency() {
    for line in [
        "",
        "   ",
        "sources = \"../a\"",
        "# source = \"../a\"",
        "module \"x\" { source = \"../a\" }",
        "Source = \"../a\"",
        "source=\"../a\"",
        "\"source\" = \"../a\"",
    ] {
        assert_eq!(get_dependency_from_line(line), None, "{:?}", line);
    }
}

#[test]
fn reference_that_does_not_begin_with_a_dot_is_no_dependency() {
    for line in [
        "source = \"hashicorp/aws\"",
        "source = \"git::https://example.org/modules.git\"",
        "source = \"/abs/path\"",
        "config_path = \"\"",
        "source = \"?ref=1\"",
        "source = \"\"\"",
    ] {
        assert_eq!(get_dependency_from_line(line), None, "{:?}", line);
    }
}

#[test]
fn reference_is_cleaned() {
    assert_eq!(get_dependency_from_line("source = \"git::../a?ref=v1\""), Some("../a"));
    assert_eq!(get_dependency_from_line("source = \"git::git::./a\""), Some("./a"));
    assert_eq!(get_dependency_from_line("source = \"\"../a\"\" # note"), Some("../a"));
    assert_eq!(get_dependency_from_line("source = ../a"), Some("../a"));
    assert_eq!(get_dependency_from_line("source\t=\t\"..\""), Some(".."));
    assert_eq!(get_dependency_from_line("source = .git::x"), Some(".git::x"));
    assert_eq!(get_dependency_from_line("config_path = \"../\u{e9}t\u{e9}?x\""), Some("../\u{e9}t\u{e9}"));
}

#[test]
fn line_without_a_third_token_is_no_dependency() {
    assert_eq!(get_dependency_from_line("source ="), None);
    assert_eq!(get_dependency_from_line("source"), None);
}

#[test]
fn each_reference_of_a_file_is_joined_onto_its_directory() {
    let content = "terraform {\r\n  source = \"../modules/vpc\"\r\n}\r\n\
                   dependency \"db\" {\n  config_path = \"../db\"\n}\n\
                   source = \"hashicorp/aws\"\nsource = \"./local\"";
    assert_eq!(
        get_dependencies("terragrunt/accounts/prod/app/terragrunt.hcl", content),
        Some(vec![
            "terragrunt/accounts/prod/app/../modules/vpc".to_string(),
            "terragrunt/accounts/prod/app/../db".to_string(),
            "terragrunt/accounts/prod/app/./local".to_string(),
        ])
    );
    assert_eq!(get_dependencies("main.tf", "source = \"./x\""), Some(vec!["./x".to_string()]));
    assert_eq!(get_dependencies("", "source = \"./x\""), None);
}
