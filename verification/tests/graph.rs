use infratk::dependency::{get_dependencies, module_file};
use infratk::graph::{ModuleFile, ModulesGraph};

fn file(dir: &str, dependencies: &[&str]) -> ModuleFile {
    ModuleFile {
        dir: dir.to_string(),
        dependencies: dependencies.iter().map(|d| d.to_string()).collect(),
    }
}

fn sorted(mut v: Vec<String>) -> Vec<String> {
    v.sort();
    v
}

#[test]
fn reference_becomes_an_edge_that_is_found_again() {
    let files = vec![file("modules/app", &["modules/network"]), file("modules/network", &[])];
    let graph = ModulesGraph::new(&files, None, &vec![]);
    assert_eq!(graph.get_dependent_modules_of_dir("modules/network"), vec!["modules/app"]);
    assert!(graph.get_dependent_modules_of_dir("modules/app").is_empty());
}

#[test]
fn an_edge_is_kept_once() {
    let files = vec![
        file("a", &["b", "b"]),
        file("a", &["b"]),
    ];
    let graph = ModulesGraph::new(&files, None, &vec![]);
    assert_eq!(graph.get_dependent_modules_of_dir("b"), vec!["a"]);
    assert_eq!(graph.find_module("a"), Some(0));
    assert_eq!(graph.find_module("b"), Some(1));
    assert_eq!(graph.find_module("c"), None);
}

#[test]
fn dependents_come_newest_edge_first() {
    let files = vec![file("a", &["z"]), file("b", &["z"]), file("c", &["z", "a"])];
    let graph = ModulesGraph::new(&files, None, &vec![]);
    assert_eq!(graph.get_dependent_modules_of_dir("z"), vec!["c", "b", "a"]);
    assert_eq!(
        graph.get_dependent_modules(&vec!["a".to_string(), "z".to_string()]),
        vec!["c", "c", "b", "a"]
    );
}

#[test]
fn order_of_files_does_not_change_nodes_and_edges() {
    let one = vec![file("a", &["b", "c"]), file("b", &["c"]), file("d", &[])];
    let two = vec![file("d", &[]), file("b", &["c"]), file("a", &["c", "b"])];
    let first = ModulesGraph::new(&one, None, &vec![]);
    let second = ModulesGraph::new(&two, None, &vec![]);
    for module in ["a", "b", "c", "d"] {
        assert!(first.find_module(module).is_some());
        assert!(second.find_module(module).is_some());
        assert_eq!(
            sorted(first.get_dependent_modules_of_dir(module)),
            sorted(second.get_dependent_modules_of_dir(module))
        );
    }
    assert_eq!(sorted(first.get_dependent_modules_of_dir("c")), vec!["a", "b"]);
}

#[test]
fn graph_is_written_in_dot_notation() {
    let files = vec![file("a", &["b"])];
    let graph = ModulesGraph::new(&files, None, &vec![]);
    assert_eq!(
        graph.to_dot(),
        "digraph {\n    0 [ label = \"\\\"a\\\"\" ]\n    1 [ label = \"\\\"b\\\"\" ]\n    0 -> 1 [ ]\n}\n"
    );
}

#[test]
fn nodes_are_labelled_by_their_lockfiles() {
    let files = vec![file("a", &["b", "c"])];
    let outdated = vec!["a".to_string()];
    let with_lockfile = vec!["a".to_string(), "b".to_string()];
    let graph = ModulesGraph::new(&files, Some(&outdated), &with_lockfile);
    let dot = graph.to_dot();
    assert!(dot.contains("a/ \u{274c}"));
    assert!(dot.contains("b/ \u{2705}"));
    assert!(dot.contains("2 [ label = \"\\\"c\\\"\" ]"));
    assert_eq!(graph.get_dependent_modules_of_dir("b"), vec!["a"]);
}

#[test]
fn reference_to_a_sibling_is_an_edge_to_the_sibling() {
    let file = "/repo/stack/app/terragrunt.hcl";
    let found = get_dependencies(file, "dependency \"db\" {\n  config_path = \"../db\"\n}\n").unwrap();
    assert_eq!(found, vec!["/repo/stack/app/../db"]);
    let resolved = vec![Some("/repo/stack/db".to_string())];
    let app = module_file(file, &found, &resolved, "/repo").unwrap();
    assert_eq!(app.dir, "stack/app");
    assert_eq!(app.dependencies, vec!["stack/db"]);
    let graph = ModulesGraph::new(&vec![app], None, &vec![]);
    assert_eq!(graph.get_dependent_modules_of_dir("stack/db"), vec!["stack/app"]);

    let unresolved = module_file(file, &found, &vec![None], "/repo").unwrap();
    assert_eq!(unresolved.dependencies, vec!["stack/app/../db"]);
    assert!(module_file("/", &vec![], &vec![], "/repo").is_none());
}

#[test]
fn small_graphs_fit_the_indices() {
    assert!(ModulesGraph::fits(&vec![]));
    assert!(ModulesGraph::fits(&vec![file("a", &["b", "c"]), file("b", &[])]));
}
