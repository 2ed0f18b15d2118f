//! Inclusion graphs, as text and as paths.

use cargo_deny::diag;
use cargo_deny::diag::grapher::{GraphError, GraphNode, InclusionGrapher, NodeInner};
use cargo_deny::diag::tree_text::{write_compact_graph_as_text, write_graph_as_text};
use cargo_deny::krate_graph::{Kid, Krate, KrateGraph, Node, Version};

const REGISTRY: &str = "registry+https://github.com/rust-lang/crates.io-index";

/// A dependency: name, kind, features that are asked for, where it comes from.
struct Dep {
    name: &'static str,
    kind: &'static str,
    features: &'static str,
    local: bool,
}

fn dep(name: &'static str) -> Dep {
    Dep { name, kind: "null", features: "", local: false }
}

fn package_id(name: &str, local: bool) -> String {
    if local {
        format!("path+file:///ws/{name}#1.0.0")
    } else {
        format!("{REGISTRY}#{name}@1.0.0")
    }
}

fn package(name: &str, local: bool, features: &str, deps: &[Dep]) -> String {
    let id = package_id(name, local);
    let source = if local { "null".to_string() } else { format!("\"{REGISTRY}\"") };
    let dependencies: Vec<String> = deps
        .iter()
        .map(|d| {
            let source = if d.local { "null".to_string() } else { format!("\"{REGISTRY}\"") };
            format!(
                "{{\"name\":\"{}\",\"source\":{source},\"req\":\"^1.0.0\",\"kind\":{},\"rename\":null,\"optional\":false,\"uses_default_features\":true,\"features\":[{}],\"target\":null,\"registry\":null}}",
                d.name, d.kind, d.features
            )
        })
        .collect();
    format!(
        "{{\"name\":\"{name}\",\"version\":\"1.0.0\",\"id\":\"{id}\",\"source\":{source},\"dependencies\":[{}],\"targets\":[],\"features\":{{{features}}},\"manifest_path\":\"/ws/{name}/Cargo.toml\"}}",
        dependencies.join(",")
    )
}

fn resolve_node(name: &str, local: bool, features: &str, deps: &[Dep]) -> String {
    let ids: Vec<String> =
        deps.iter().map(|d| format!("\"{}\"", package_id(d.name, d.local))).collect();
    let entries: Vec<String> = deps
        .iter()
        .map(|d| {
            format!(
                "{{\"name\":\"{}\",\"pkg\":\"{}\",\"dep_kinds\":[{{\"kind\":{},\"target\":null}}]}}",
                d.name.replace('-', "_"),
                package_id(d.name, d.local),
                d.kind
            )
        })
        .collect();
    format!(
        "{{\"id\":\"{}\",\"dependencies\":[{}],\"deps\":[{}],\"features\":[{features}]}}",
        package_id(name, local),
        ids.join(","),
        entries.join(",")
    )
}

/// A crate: name, whether it is a member, its features, those that are enabled,
/// and its dependencies.
struct Pkg {
    name: &'static str,
    local: bool,
    features: &'static str,
    enabled: &'static str,
    deps: Vec<Dep>,
}

fn gather(pkgs: &[Pkg]) -> krates::Krates {
    let packages: Vec<String> =
        pkgs.iter().map(|p| package(p.name, p.local, p.features, &p.deps)).collect();
    let nodes: Vec<String> =
        pkgs.iter().map(|p| resolve_node(p.name, p.local, p.enabled, &p.deps)).collect();
    let members: Vec<String> = pkgs
        .iter()
        .filter(|p| p.local)
        .map(|p| format!("\"{}\"", package_id(p.name, true)))
        .collect();
    let metadata = format!(
        "{{\"packages\":[{}],\"workspace_members\":[{}],\"resolve\":{{\"nodes\":[{}],\"root\":null}},\"target_directory\":\"/ws/target\",\"version\":1,\"workspace_root\":\"/ws\"}}",
        packages.join(","),
        members.join(","),
        nodes.join(",")
    );
    let metadata: krates::cm::Metadata = serde_json::from_str(&metadata).expect("valid metadata");
    krates::Builder::new()
        .build_with_metadata(metadata, |_: krates::cm::Package| {})
        .expect("a graph of crates")
}

/// Two members that share a crate, which has a dependency of its own.
fn workspace() -> KrateGraph {
    let krates = gather(&[
        Pkg { name: "member-one", local: true, features: "", enabled: "", deps: vec![dep("shared")] },
        Pkg {
            name: "member-two",
            local: true,
            features: "",
            enabled: "",
            deps: vec![Dep { kind: "\"dev\"", ..dep("shared") }],
        },
        Pkg { name: "shared", local: false, features: "", enabled: "", deps: vec![] },
    ]);
    KrateGraph::from_graph(&krates)
}

/// A member that depends on two crates, which both depend on a third one.
fn diamond() -> KrateGraph {
    let krates = gather(&[
        Pkg { name: "top", local: true, features: "", enabled: "", deps: vec![dep("left"), dep("right")] },
        Pkg { name: "left", local: false, features: "", enabled: "", deps: vec![dep("base")] },
        Pkg {
            name: "right",
            local: false,
            features: "",
            enabled: "",
            deps: vec![Dep { kind: "\"build\"", ..dep("base") }],
        },
        Pkg { name: "base", local: false, features: "", enabled: "", deps: vec![] },
    ]);
    KrateGraph::from_graph(&krates)
}

/// A member that asks for a feature of a crate.
fn features() -> KrateGraph {
    let krates = gather(&[
        Pkg {
            name: "user",
            local: true,
            features: "",
            enabled: "",
            deps: vec![Dep { features: "\"fancy\"", ..dep("lib") }],
        },
        Pkg {
            name: "lib",
            local: false,
            features: "\"fancy\":[\"plain\"],\"plain\":[]",
            enabled: "\"fancy\",\"plain\"",
            deps: vec![],
        },
    ]);
    KrateGraph::from_graph(&krates)
}

fn krates_of(graph: &KrateGraph) -> Vec<&Krate> {
    graph
        .nodes
        .iter()
        .filter_map(|node| match node {
            Node::Krate { krate } => Some(krate),
            Node::Feature { .. } => None,
        })
        .collect()
}

fn named<'a>(graph: &'a KrateGraph, name: &str) -> &'a Krate {
    krates_of(graph).into_iter().find(|k| k.name == name).expect("a crate of that name")
}

fn non_member(graph: &KrateGraph) -> &Krate {
    krates_of(graph)
        .into_iter()
        .find(|k| !graph.is_member(&k.id))
        .expect("test fixture should have at least one non-workspace crate")
}

fn at(krate: &Krate) -> diag::GraphNode {
    diag::GraphNode { kid: krate.id.clone(), feature: None }
}

fn krate_node(name: &str, kind: Option<&'static str>, repeat: bool, parents: Vec<GraphNode>) -> GraphNode {
    GraphNode {
        inner: NodeInner::Krate {
            name: name.to_string(),
            version: Version::new(1, 0, 0),
            kind,
            id: Kid::default(),
            is_project_crate: false,
        },
        repeat,
        parents,
    }
}

fn project_node(name: &str, parents: Vec<GraphNode>) -> GraphNode {
    GraphNode {
        inner: NodeInner::Krate {
            name: name.to_string(),
            version: Version::new(0, 1, 0),
            kind: None,
            id: Kid::default(),
            is_project_crate: true,
        },
        repeat: false,
        parents,
    }
}

fn feature_node(crate_name: &str, name: &str, parents: Vec<GraphNode>) -> GraphNode {
    GraphNode {
        inner: NodeInner::Feature {
            crate_name: crate_name.to_string(),
            name: name.to_string(),
            owner: Some((Version::new(1, 0, 0), Kid::default())),
        },
        repeat: false,
        parents,
    }
}

#[test]
fn test_write_graph_as_text_simple() {
    let krates = diamond();
    let grapher = InclusionGrapher::new(&krates);

    // Find a crate to build a graph for
    let all = krates_of(&krates);
    let krate = all.first().expect("test fixture should have at least one crate");
    let graph_node = diag::GraphNode { kid: krate.id.clone(), feature: None };

    let graph = grapher.build_graph(&graph_node, 0).expect("should be able to build graph");
    let text = write_graph_as_text(&graph);
    // Should contain the crate name
    assert!(text.contains(&krate.name));
    assert!(text.contains(&krate.version.to_text()));
}

#[test]
fn test_write_compact_graph_as_text() {
    let krates = workspace();
    let grapher = InclusionGrapher::new(&krates);

    // Find a non-workspace crate to build a graph for
    let krate = non_member(&krates);
    let graph_node = diag::GraphNode { kid: krate.id.clone(), feature: None };

    let graph = grapher.build_graph(&graph_node, 0).expect("should be able to build graph");
    let normal_text = write_graph_as_text(&graph);
    let compact_text = write_compact_graph_as_text(&graph);

    // Compact should be shorter or equal (stops at project crates)
    // Both should contain the root crate
    assert!(normal_text.contains(&krate.name));
    assert!(compact_text.contains(&krate.name));
    assert!(
        compact_text.len() <= normal_text.len(),
        "compact text should be shorter or equal to normal text"
    );

    let expected =
        "shared v1.0.0\n├── member-one v1.0.0\n└── (dev) member-two v1.0.0\n";
    assert_eq!(normal_text, expected);
    assert_eq!(compact_text, expected);
}

#[test]
fn test_collect_root_paths() {
    let krates = workspace();
    let grapher = InclusionGrapher::new(&krates);

    // Find a non-workspace crate
    let krate = non_member(&krates);
    let graph_node = diag::GraphNode { kid: krate.id.clone(), feature: None };

    let graph = grapher.build_graph(&graph_node, 0).expect("should be able to build graph");
    let paths = graph.collect_project_paths();

    // Should have exactly 2 paths to workspace members: member-one and member-two
    assert_eq!(paths.len(), 2, "should have exactly 2 paths to workspace members");
    assert!(paths.iter().any(|p| p.root.0 == "member-one"), "should have path to member-one");
    assert!(paths.iter().any(|p| p.root.0 == "member-two"), "should have path to member-two");
}

#[test]
fn test_build_graph_with_features() {
    let krates = features();
    let grapher = InclusionGrapher::new(&krates);

    // Find a crate with features
    let all = krates_of(&krates);
    let krate = all.first().expect("test fixture should have at least one crate");
    let graph_node = diag::GraphNode { kid: krate.id.clone(), feature: None };

    // Build graph without features
    let graph_no_features = grapher
        .build_graph(&graph_node, 0)
        .expect("should be able to build graph without features");
    // Build graph with features (max depth)
    let graph_with_features = grapher
        .build_graph(&graph_node, usize::MAX)
        .expect("should be able to build graph with features");

    // Graph with features might be larger (more nodes)
    // But both should contain the root crate
    let text_no_features = write_graph_as_text(&graph_no_features);
    let text_with_features = write_graph_as_text(&graph_with_features);

    assert!(text_no_features.contains(&krate.name));
    assert!(text_with_features.contains(&krate.name));
    assert_eq!(text_no_features, "lib v1.0.0\n└── user v1.0.0\n");
    assert!(text_with_features.contains("lib feature 'fancy' "));
    assert!(text_with_features.contains("user v1.0.0"));
}

#[test]
fn test_build_graph_feature_node() {
    let krates = features();
    let grapher = InclusionGrapher::new(&krates);

    // Find a crate and one of its features
    let mut found_feature = None;
    for node in &krates.nodes {
        if let Node::Feature { name, krate_index } = node {
            if let Node::Krate { krate } = &krates.nodes[*krate_index] {
                found_feature = Some((krate, name.clone()));
                break;
            }
        }
    }

    let (krate, feature_name) =
        found_feature.expect("test fixture should have at least one feature");
    let graph_node = diag::GraphNode { kid: krate.id.clone(), feature: Some(feature_name) };

    // Should be able to build graph from feature
    let graph = grapher
        .build_graph(&graph_node, 0)
        .expect("should be able to build graph from feature node");
    let text = write_graph_as_text(&graph);
    // Should contain the crate name (not the feature as root)
    assert!(text.contains(&krate.name));
    assert!(text.starts_with("lib v1.0.0\n"));
}

#[test]
fn test_graph_node_repeat_detection() {
    let root = krate_node(
        "root",
        None,
        false,
        vec![krate_node(
            "dep1",
            None,
            false,
            vec![
                krate_node("dep2", None, false, vec![]),
                // Repeat of dep2
                krate_node("dep2", None, true, vec![]),
            ],
        )],
    );

    let text = write_graph_as_text(&root);
    // Should contain the repeat marker
    assert!(text.contains("(*)"));
    // Should contain all crate names
    assert!(text.contains("root"));
    assert!(text.contains("dep1"));
    assert!(text.contains("dep2"));
}

#[test]
fn test_graph_node_with_dep_kinds() {
    // Test that dev and build dependencies are marked correctly
    let root = krate_node(
        "root",
        None,
        false,
        vec![
            krate_node("dev-dep", Some("dev"), false, vec![]),
            krate_node("build-dep", Some("build"), false, vec![]),
        ],
    );

    let text = write_graph_as_text(&root);
    assert!(text.contains("(dev)"));
    assert!(text.contains("(build)"));
    assert!(text.contains("dev-dep"));
    assert!(text.contains("build-dep"));
}

#[test]
fn test_collect_root_paths_empty() {
    // Test with a graph that has no paths to project crates
    let root = krate_node("standalone", None, false, vec![]);

    let paths = root.collect_project_paths();
    // Should be empty since there are no project crates in the path
    assert!(paths.is_empty());
}

#[test]
fn test_collect_root_paths_with_project_crate() {
    // Test with a graph that ends at a project crate
    let krates = workspace();
    let grapher = InclusionGrapher::new(&krates);

    // Find a non-workspace crate that might have dependencies
    let krate = non_member(&krates);
    let graph_node = diag::GraphNode { kid: krate.id.clone(), feature: None };

    let graph = grapher.build_graph(&graph_node, 0).expect("should be able to build graph");
    let paths = graph.collect_project_paths();

    // Should have paths to workspace members if the dependency structure allows it
    // Verify that all paths have valid structure
    for path in &paths {
        assert!(!path.root.0.is_empty(), "path root name should not be empty");
        assert_eq!(path.root.0, path.root_kid.name(), "path root name should match kid name");
        assert!(path.is_project_crate, "all paths should end at project crates");
    }

    // If there are workspace members, we should get at least one path
    // (This test is more general than test_collect_root_paths which expects exactly 2)
    if !krates.workspace_members.is_empty() {
        assert!(!paths.is_empty(), "should have at least one path to workspace member");
    }
}

#[test]
fn test_graph_node_with_features() {
    let root = krate_node(
        "root",
        None,
        false,
        vec![feature_node(
            "some-crate",
            "some-feature",
            vec![krate_node("some-crate", None, false, vec![])],
        )],
    );

    let text = write_graph_as_text(&root);
    assert!(text.contains("some-crate"));
    assert!(text.contains("some-feature"));
    assert!(text.contains("feature"));
}

#[test]
fn test_empty_graph() {
    let root = krate_node("root", None, false, vec![]);

    let text = write_graph_as_text(&root);
    assert!(text.contains("root"));
    assert!(text.contains("1.0.0"));

    let paths = root.collect_project_paths();
    assert!(paths.is_empty());
}

#[test]
fn graph_is_read_from_cargo_metadata() {
    let krates = workspace();
    assert_eq!(krates.workspace_root, "/ws");
    assert_eq!(krates.workspace_members.len(), 2);
    let names: Vec<&str> = krates.workspace_members.iter().map(|k| k.name()).collect();
    assert_eq!(names, vec!["member-one", "member-two"]);
    let shared = named(&krates, "shared");
    assert_eq!(shared.id.repr, "registry+https://github.com/rust-lang/crates.io-index#shared@1.0.0");
    assert_eq!(shared.id.version(), "1.0.0");
    assert_eq!(shared.id.source(), "registry+https://github.com/rust-lang/crates.io-index");
    assert_eq!(shared.source.as_deref(), Some(REGISTRY));
    assert_eq!(shared.manifest_path, "/ws/shared/Cargo.toml");
    assert_eq!(shared.version.to_text(), "1.0.0");
    assert_eq!(krates.incoming.len(), krates.nodes.len());
    assert_eq!(krates.dependents.len(), krates.nodes.len());
    let node = krates.get_node(&shared.id, None).expect("a node");
    assert_eq!(krates.incoming[node].len(), 2);
    assert_eq!(krates.dependents[node].len(), 2);
    assert_eq!(krates.edges.len(), 2);
    let one = named(&krates, "member-one");
    assert_eq!(one.source, None);
    assert!(krates.is_member(&one.id));
    assert!(!krates.is_member(&shared.id));
    assert_eq!(krates.get_krate(&one.id).map(|k| k.name.as_str()), Some("member-one"));
    assert!(krates.get_krate(&Kid::default()).is_none());
}

#[test]
fn features_are_nodes_of_their_own() {
    let krates = features();
    let lib = named(&krates, "lib");
    let fancy = krates.get_node(&lib.id, Some("fancy")).expect("the feature is enabled");
    assert!(matches!(&krates.nodes[fancy], Node::Feature { name, .. } if name == "fancy"));
    assert!(krates.get_node(&lib.id, Some("absent")).is_none());
    let node = krates.get_node(&lib.id, None).expect("the crate");
    assert!(matches!(&krates.nodes[node], Node::Krate { krate } if krate.name == "lib"));
}

#[test]
fn graph_of_unknown_crate_is_an_error() {
    let krates = workspace();
    let grapher = InclusionGrapher::new(&krates);
    let unknown = diag::GraphNode { kid: Kid::default(), feature: None };
    let error = grapher.build_graph(&unknown, 0).expect_err("no such crate");
    assert!(matches!(error, GraphError::NodeNotFound));
    assert_eq!(error.message(), "unable to find node");
}

#[test]
fn graph_of_unknown_feature_is_an_error() {
    let krates = features();
    let grapher = InclusionGrapher::new(&krates);
    let lib = named(&krates, "lib");
    let unknown = diag::GraphNode { kid: lib.id.clone(), feature: Some("absent".to_string()) };
    assert!(grapher.build_graph(&unknown, 0).is_err());
}

#[test]
fn crate_is_expanded_once() {
    let krates = diamond();
    let grapher = InclusionGrapher::new(&krates);
    let graph = grapher.build_graph(&at(named(&krates, "base")), 0).expect("a graph");
    assert_eq!(
        write_graph_as_text(&graph),
        "base v1.0.0\n├── left v1.0.0\n│   └── top v1.0.0\n└── (build) right v1.0.0\n    └── top v1.0.0 (*)\n"
    );
}

#[test]
fn members_are_marked() {
    let krates = diamond();
    let grapher = InclusionGrapher::new(&krates);
    let graph = grapher.build_graph(&at(named(&krates, "top")), 0).expect("a graph");
    assert!(matches!(graph.inner, NodeInner::Krate { is_project_crate: true, .. }));
    let graph = grapher.build_graph(&at(named(&krates, "left")), 0).expect("a graph");
    assert!(matches!(graph.inner, NodeInner::Krate { is_project_crate: false, .. }));
}

#[test]
fn paths_of_a_diamond() {
    let krates = diamond();
    let grapher = InclusionGrapher::new(&krates);
    let graph = grapher.build_graph(&at(named(&krates, "base")), 0).expect("a graph");
    let paths = graph.collect_project_paths();
    assert_eq!(paths.len(), 2);
    let crates: Vec<Vec<&str>> =
        paths.iter().map(|p| p.crates.iter().map(|c| c.0.as_str()).collect()).collect();
    assert_eq!(crates, vec![vec!["left", "base"], vec!["right", "base"]]);
    for path in &paths {
        assert_eq!(path.root.0, "top");
        assert_eq!(path.root.1.to_text(), "1.0.0");
        assert_eq!(path.root_kid.name(), "top");
        assert!(path.is_project_crate);
    }
}

#[test]
fn member_has_a_path_without_crates() {
    let krates = workspace();
    let grapher = InclusionGrapher::new(&krates);
    let graph = grapher.build_graph(&at(named(&krates, "member-one")), 0).expect("a graph");
    let paths = graph.collect_project_paths();
    assert_eq!(paths.len(), 1);
    assert!(paths[0].crates.is_empty());
    assert_eq!(paths[0].clone().root.0, "member-one");
}

#[test]
fn compact_text_stops_at_project_crates() {
    let root = krate_node(
        "dep",
        None,
        false,
        vec![
            project_node("one", vec![project_node("two", vec![])]),
            krate_node("other", Some("dev"), false, vec![krate_node("last", None, true, vec![])]),
        ],
    );
    assert_eq!(
        write_graph_as_text(&root),
        "dep v1.0.0\n├── one v0.1.0\n│   └── two v0.1.0\n└── (dev) other v1.0.0\n    └── last v1.0.0 (*)\n"
    );
    assert_eq!(
        write_compact_graph_as_text(&root),
        "dep v1.0.0\n├── one v0.1.0\n└── (dev) other v1.0.0\n    └── last v1.0.0 (*)\n"
    );
}

#[test]
fn compact_text_is_whole_without_project_crates() {
    let root = krate_node("a", None, false, vec![krate_node("b", None, false, vec![])]);
    assert_eq!(write_graph_as_text(&root), write_compact_graph_as_text(&root));
}

#[test]
fn features_are_shown_with_their_crate() {
    let root = feature_node("lib", "fancy", vec![krate_node("user", None, false, vec![])]);
    assert_eq!(write_graph_as_text(&root), "lib feature 'fancy' \n└── user v1.0.0\n");
    let mut repeated = feature_node("lib", "fancy", vec![]);
    repeated.repeat = true;
    assert_eq!(write_graph_as_text(&repeated), "lib feature 'fancy'  (*)\n");
}

#[test]
fn path_through_a_feature_keeps_its_crate() {
    let through = krate_node(
        "lib",
        None,
        false,
        vec![feature_node("lib", "fancy", vec![project_node("user", vec![])])],
    );
    let paths = through.collect_project_paths();
    assert_eq!(paths.len(), 1);
    assert_eq!(paths[0].root.0, "user");
    let crates: Vec<&str> = paths[0].crates.iter().map(|c| c.0.as_str()).collect();
    assert_eq!(crates, vec!["lib"]);
}

#[test]
fn deep_trees_keep_their_bars() {
    let root = krate_node(
        "a",
        None,
        false,
        vec![
            krate_node("b", None, false, vec![krate_node("c", None, false, vec![])]),
            krate_node("d", None, false, vec![]),
        ],
    );
    assert_eq!(
        write_graph_as_text(&root),
        "a v1.0.0\n├── b v1.0.0\n│   └── c v1.0.0\n└── d v1.0.0\n"
    );
}

#[test]
fn feature_of_another_crate_puts_it_on_the_path() {
    let names = |root: &GraphNode| -> Vec<Vec<String>> {
        root.collect_project_paths()
            .iter()
            .map(|p| p.crates.iter().map(|c| c.0.clone()).collect())
            .collect()
    };
    let user = || vec![project_node("user", vec![])];
    // A feature of `middle` depends on `lib`, with and without a feature of `lib`.
    let direct =
        krate_node("lib", None, false, vec![feature_node("middle", "extra", user())]);
    assert_eq!(names(&direct), vec![vec!["middle", "lib"]]);
    let through = krate_node(
        "lib",
        None,
        false,
        vec![feature_node("lib", "fancy", vec![feature_node("middle", "extra", user())])],
    );
    assert_eq!(names(&through), vec![vec!["middle", "lib"]]);
    // The crate and its feature are one step.
    let both = krate_node(
        "lib",
        None,
        false,
        vec![krate_node("middle", None, false, vec![feature_node("middle", "extra", user())])],
    );
    assert_eq!(names(&both), vec![vec!["middle", "lib"]]);
    // Where the crate of a feature is not known, it is left out.
    let mut unknown = feature_node("middle", "extra", user());
    unknown.inner = NodeInner::Feature {
        crate_name: "middle".to_string(),
        name: "extra".to_string(),
        owner: None,
    };
    assert_eq!(names(&krate_node("lib", None, false, vec![unknown])), vec![vec!["lib"]]);
}

#[test]
fn feature_of_the_project_is_not_on_the_path() {
    let mut user = project_node("user", vec![]);
    if let NodeInner::Krate { version, .. } = &mut user.inner {
        *version = Version::new(1, 0, 0);
    }
    let root = krate_node("lib", None, false, vec![feature_node("user", "extra", vec![user])]);
    let paths = root.collect_project_paths();
    assert_eq!(paths.len(), 1);
    assert_eq!(paths[0].root.0, "user");
    let crates: Vec<&str> = paths[0].crates.iter().map(|c| c.0.as_str()).collect();
    assert_eq!(crates, vec!["lib"]);
}

#[test]
fn paths_with_and_without_features_agree() {
    let krates = features();
    let grapher = InclusionGrapher::new(&krates);
    for depth in [0, 1, usize::MAX] {
        let graph = grapher.build_graph(&at(named(&krates, "lib")), depth).expect("a graph");
        let paths = graph.collect_project_paths();
        assert!(!paths.is_empty());
        for path in &paths {
            assert_eq!(path.root.0, "user");
            let crates: Vec<&str> = path.crates.iter().map(|c| c.0.as_str()).collect();
            assert_eq!(crates, vec!["lib"]);
        }
    }
}

#[test]
fn compact_text_drops_whole_lines() {
    let root = krate_node(
        "dep",
        None,
        false,
        vec![
            project_node("one", vec![krate_node("hidden", None, false, vec![])]),
            project_node("two", vec![]),
        ],
    );
    let whole = write_graph_as_text(&root);
    let compact = write_compact_graph_as_text(&root);
    let kept: Vec<&str> = whole.lines().filter(|line| !line.contains("hidden")).collect();
    assert_eq!(compact.lines().collect::<Vec<&str>>(), kept);
    assert_ne!(whole, compact);
    // Nothing is dropped where nothing is above the crates of the project.
    let open = krate_node("dep", None, false, vec![project_node("one", vec![])]);
    assert_eq!(write_graph_as_text(&open), write_compact_graph_as_text(&open));
}

#[test]
fn first_occurrence_is_expanded() {
    let krates = diamond();
    let grapher = InclusionGrapher::new(&krates);
    let graph = grapher.build_graph(&at(named(&krates, "base")), 0).expect("a graph");
    let first = &graph.parents[0].parents[0];
    let second = &graph.parents[1].parents[0];
    assert!(!first.repeat);
    assert!(second.repeat && second.parents.is_empty());
    // One parent for each crate that depends on it.
    let base = krates.get_node(&named(&krates, "base").id, None).expect("a node");
    assert_eq!(graph.parents.len(), krates.dependents[base].len());
}

#[test]
fn identifiers_are_compared_pairwise() {
    let mut krates = workspace();
    assert!(krates.has_unique_ids());
    let again = Krate {
        name: "shared".to_string(),
        version: Version::new(1, 0, 0),
        id: named(&krates, "shared").id.clone(),
        source: None,
        manifest_path: String::new(),
    };
    krates.nodes.push(Node::Krate { krate: again });
    assert!(!krates.has_unique_ids());
}

#[test]
fn features_lie_within_the_depth() {
    fn deepest(node: &GraphNode, depth: usize) -> Option<usize> {
        let own = match node.inner {
            NodeInner::Feature { .. } => Some(depth),
            NodeInner::Krate { .. } => None,
        };
        node.parents.iter().map(|p| deepest(p, depth + 1)).fold(own, |a, b| a.max(b))
    }
    let krates = features();
    let grapher = InclusionGrapher::new(&krates);
    let found = |max: usize| {
        let graph = grapher.build_graph(&at(named(&krates, "lib")), max).expect("a graph");
        deepest(&graph, 0)
    };
    assert_eq!(found(0), None);
    assert_eq!(found(1), Some(1));
    assert_eq!(found(2), Some(2));
}
