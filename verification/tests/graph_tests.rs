use lazy_java::build_graph::{Graph, GraphFile, PathEdges};
use lazy_java::dep_graph::{files_to_recompile, DependancyGraph, DependancyNode, SourceFile};
use lazy_java::errors::GraphError;
use lazy_java::graph_build::NodeFile;
use lazy_java::package::Package;

fn source(path: &str, contents: &str) -> SourceFile {
    let file_name = path.rsplit('/').next().unwrap().to_string();
    SourceFile { path: path.to_string(), file_name, contents: contents.to_string() }
}

fn sorted(mut v: Vec<String>) -> Vec<String> {
    v.sort();
    v.dedup();
    v
}

fn node<'a>(g: &'a DependancyGraph, id: &str) -> &'a DependancyNode {
    g.nodes.iter().find(|n| n.id == id).unwrap()
}

#[test]
fn node_reads_package_and_imports() {
    let n = DependancyNode::from_contents(
        "src/com/a/Main.java".to_string(),
        "Main.java".to_string(),
        "package com.a;\nimport com.b.Util;\nimport java.util.List;\npublic class Main {}\n",
    )
    .unwrap();
    assert_eq!(n.package_name, "com.a");
    assert_eq!(n.id, "com.a.Main");
    assert_eq!(n.dependancies, vec!["com.b.Util".to_string(), "java.util.List".to_string()]);
    assert!(n.dependants.is_empty());
}

#[test]
fn node_without_package_is_named_by_its_file() {
    let n = DependancyNode::from_contents("Main.java".to_string(), "Main.java".to_string(), "class Main {}\n").unwrap();
    assert_eq!(n.package_name, "");
    assert_eq!(n.id, "Main");
}

#[test]
fn created_graph_links_imports_and_packages() {
    let files = vec![
        source("src/com/a/A.java", "package com.a;\nimport com.b.B;\nclass A {}\n"),
        source("src/com/b/B.java", "package com.b;\nclass B {}\n"),
        source("src/com/b/C.java", "package com.b;\nclass C {}\n"),
    ];
    let g = DependancyGraph::create(&files).unwrap();
    assert_eq!(g.nodes.len(), 3);
    assert_eq!(node(&g, "com.b.B").dependants, vec!["com.a.A".to_string(), "com.b.C".to_string()]);
    assert_eq!(sorted(node(&g, "com.b.C").dependancies.clone()), vec!["com.b.B".to_string()]);
    assert_eq!(sorted(node(&g, "com.b.B").dependancies.clone()), vec!["com.b.C".to_string()]);
}

#[test]
fn dependancy_list_follows_importers_transitively() {
    let files = vec![
        source("src/A.java", "import B;\nclass A {}\n"),
        source("src/B.java", "import C;\nclass B {}\n"),
        source("src/C.java", "class C {}\n"),
        source("src/D.java", "class D {}\n"),
    ];
    let g = DependancyGraph::create(&files).unwrap();
    assert_eq!(sorted(g.dependancy_list("C")), vec!["src/A.java".to_string(), "src/B.java".to_string()]);
    assert!(g.dependancy_list("D").is_empty());
}

#[test]
fn dependancy_list_survives_cycles() {
    let files = vec![
        source("src/A.java", "import B;\nclass A {}\n"),
        source("src/B.java", "import A;\nclass B {}\n"),
    ];
    let g = DependancyGraph::create(&files).unwrap();
    assert_eq!(sorted(g.dependancy_list("A")), vec!["src/A.java".to_string(), "src/B.java".to_string()]);
}

#[test]
fn add_node_replaces_the_node_with_its_id() {
    let mut g = DependancyGraph::new();
    g.add_node(DependancyNode::from_contents("x/A.java".to_string(), "A.java".to_string(), "class A {}").unwrap());
    g.add_node(DependancyNode::from_contents("y/A.java".to_string(), "A.java".to_string(), "class A {}").unwrap());
    assert_eq!(g.nodes.len(), 1);
    assert_eq!(g.nodes[0].path, "y/A.java");
}

#[test]
fn dependancy_list_from_path_resolves_the_file() {
    let files = vec![
        source("src/A.java", "import B;\nclass A {}\n"),
        source("src/B.java", "class B {}\n"),
    ];
    let g = DependancyGraph::create(&files).unwrap();
    let canon: Vec<String> = g.nodes.iter().map(|n| format!("/p/{}", n.path)).collect();
    let found = g.dependancy_list_from_path(&"src/B.java".to_string(), &"/p/src/B.java".to_string(), &canon).unwrap();
    assert_eq!(found, vec!["src/A.java".to_string()]);
    let missing = g.dependancy_list_from_path(&"src/Z.java".to_string(), &"/p/src/Z.java".to_string(), &canon);
    assert!(matches!(missing, Err(GraphError::NotFound(p)) if p == "src/Z.java"));
}

#[test]
fn files_to_recompile_adds_importers_once() {
    let files = vec![
        source("src/A.java", "import B;\nimport C;\nclass A {}\n"),
        source("src/B.java", "class B {}\n"),
        source("src/C.java", "class C {}\n"),
    ];
    let g = DependancyGraph::create(&files).unwrap();
    let canon: Vec<String> = g.nodes.iter().map(|n| n.path.clone()).collect();
    let stale = vec!["src/B.java".to_string(), "src/C.java".to_string()];
    let r = files_to_recompile(&g, &stale, &stale, &canon).unwrap();
    assert_eq!(sorted(r.clone()), vec!["src/A.java".to_string(), "src/B.java".to_string(), "src/C.java".to_string()]);
    assert_eq!(r.len(), 3);
    let bad = vec!["src/Q.java".to_string()];
    assert!(files_to_recompile(&g, &bad, &bad, &canon).is_err());
}

fn nfile(path: &str, class: &str, modified: u128, imports: &[&str]) -> NodeFile {
    NodeFile {
        path: path.to_string(),
        modified,
        package: Package::from_string(class, false),
        dependencies: imports.iter().map(|i| Package::from_string(i, false)).collect(),
    }
}

#[test]
fn graph_from_files_resolves_wildcards_and_turns_edges() {
    let files = vec![
        nfile("Main.java", "app.Main", 5, &["lib.*", "util.Str"]),
        nfile("lib/A.java", "lib.A", 1, &[]),
        nfile("lib/B.java", "lib.B", 1, &[]),
        nfile("util/Str.java", "util.Str", 9, &[]),
    ];
    let g = Graph::from_files(&files);
    assert_eq!(g.files.len(), 4);
    let main = g.dependencies.iter().find(|e| e.path == "Main.java").unwrap();
    assert_eq!(main.targets, vec!["lib/A.java".to_string(), "lib/B.java".to_string(), "util/Str.java".to_string()]);
    let a = g.dependents.iter().find(|e| e.path == "lib/A.java").unwrap();
    assert_eq!(a.targets, vec!["Main.java".to_string()]);
    assert_eq!(sorted(g.stale_files(4)), vec!["Main.java".to_string(), "util/Str.java".to_string()]);
}

#[test]
fn stale_files_include_dependents_of_modified_files() {
    let g = Graph {
        files: vec![
            GraphFile { path: "a".to_string(), modified: 10 },
            GraphFile { path: "b".to_string(), modified: 1 },
            GraphFile { path: "c".to_string(), modified: 1 },
        ],
        dependents: vec![
            PathEdges { path: "a".to_string(), targets: vec!["b".to_string()] },
            PathEdges { path: "b".to_string(), targets: vec!["c".to_string()] },
        ],
        dependencies: Vec::new(),
    };
    assert_eq!(sorted(g.stale_files(5)), vec!["a".to_string(), "b".to_string(), "c".to_string()]);
    assert!(g.stale_files(10).is_empty());
    assert_eq!(sorted(g.dependents_of(&"b".to_string())), vec!["c".to_string()]);
}
