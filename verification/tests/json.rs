//! Texts, and diagnostics as JSON.

use cargo_deny::diag::files::{Files, Position, SourceFile};
use cargo_deny::diag::grapher::{GraphNode, InclusionGrapher, NodeInner};
use cargo_deny::diag::json::{cs_diag_to_json, diag_to_json, is_empty, is_false};
use cargo_deny::diag::{self, Diag, Diagnostic, DiagnosticCode, Extra, Label, Severity, Span};
use cargo_deny::diag::advisory::{Advisory, Metadata, Versions};
use cargo_deny::json::Json;
use cargo_deny::krate_graph::{DepEdge, DepKind, Kid, Krate, KrateGraph, Node, NodePrint, Version};
use cargo_deny::text::{
    ends_in_colon, ends_with, is_white, order_text, push_decimal, slice, text_eq, trim,
    trim_quotes, Order,
};
use std::sync::Arc;

/// Writes a value down.
fn write(json: &Json) -> String {
    match json {
        Json::Bool(b) => format!("{b}"),
        Json::Number(n) => format!("{n}"),
        Json::Text(s) => format!("{s:?}"),
        Json::List(items) => {
            let items: Vec<String> = items.iter().map(write).collect();
            format!("[{}]", items.join(","))
        }
        Json::Fields(fields) => {
            let fields: Vec<String> =
                fields.iter().map(|(name, value)| format!("{name:?}:{}", write(value))).collect();
            format!("{{{}}}", fields.join(","))
        }
        Json::Raw(s) => s.clone(),
    }
}

fn files() -> Files {
    Files {
        files: vec![SourceFile {
            source: "license = \"MIT\"\n".to_string(),
            positions: vec![
                Position { offset: 0, line: 0, column: 0 },
                Position { offset: 10, line: 4, column: 10 },
            ],
        }],
        resolved: vec![],
    }
}

fn diagnostic() -> Diagnostic {
    Diagnostic {
        severity: Severity::Error,
        code: None,
        message: "no".to_string(),
        labels: vec![],
        notes: vec![],
    }
}

#[test]
fn bare_diagnostic_has_no_optional_fields() {
    assert_eq!(
        write(&cs_diag_to_json(diagnostic(), &files())),
        "{\"type\":\"diagnostic\",\"fields\":{\"severity\":\"error\",\"message\":\"no\"}}"
    );
}

#[test]
fn diagnostic_has_all_its_fields() {
    let mut d = diagnostic();
    d.severity = Severity::Warning;
    d.code = Some("rejected".to_string());
    let mut label = Label::primary(0, Span { start: 10, end: 15 });
    label.message = "here".to_string();
    d.labels = vec![label, Label::primary(0, Span { start: 0, end: 7 })];
    d.notes = vec!["one".to_string(), "two".to_string()];
    assert_eq!(
        write(&cs_diag_to_json(d, &files())),
        "{\"type\":\"diagnostic\",\"fields\":{\"severity\":\"warning\",\"message\":\"no\",\"code\":\"rejected\",\"labels\":[{\"message\":\"here\",\"span\":\"MIT\",\"line\":5,\"column\":11},{\"message\":\"\",\"span\":\"license\",\"line\":1,\"column\":1}],\"notes\":[\"one\",\"two\"]}}"
    );
}

#[test]
fn severities_have_names() {
    for (severity, name) in [
        (Severity::Error, "error"),
        (Severity::Warning, "warning"),
        (Severity::Note, "note"),
        (Severity::Help, "help"),
        (Severity::Bug, "bug"),
    ] {
        let mut d = diagnostic();
        d.severity = severity;
        let text = write(&cs_diag_to_json(d, &files()));
        assert!(text.contains(&format!("\"severity\":\"{name}\"")));
    }
}

fn kid(name: &str) -> Kid {
    Kid {
        repr: name.to_string(),
        name: name.to_string(),
        version: "1.2.3".to_string(),
        source: String::new(),
    }
}

fn krate(name: &str) -> Krate {
    let mut version = Version::new(1, 2, 3);
    version.pre = "alpha.1".to_string();
    Krate {
        name: name.to_string(),
        version,
        id: kid(name),
        source: None,
        manifest_path: String::new(),
    }
}

/// `user` depends on `lib` for tests; `lib` has a feature that `user` asks for.
fn graph() -> KrateGraph {
    KrateGraph {
        nodes: vec![
            Node::Krate { krate: krate("lib") },
            Node::Krate { krate: krate("user") },
            Node::Feature { krate_index: 0, name: "fancy".to_string() },
        ],
        edges: vec![
            DepEdge::Dep { kind: DepKind::Dev },
            DepEdge::Feature,
            DepEdge::DepFeature { kind: DepKind::Dev },
        ],
        incoming: vec![
            vec![NodePrint { node: 1, edge: Some(0) }, NodePrint { node: 2, edge: Some(1) }],
            vec![],
            vec![NodePrint { node: 1, edge: Some(2) }],
        ],
        dependents: vec![
            vec![NodePrint { node: 1, edge: Some(0) }],
            vec![],
            vec![NodePrint { node: 1, edge: Some(2) }],
        ],
        workspace_members: vec![kid("user")],
        workspace_root: String::new(),
    }
}

fn whole(with_features: bool, extra: bool) -> Diag {
    Diag {
        diag: diagnostic(),
        graph_nodes: vec![
            diag::GraphNode { kid: Kid::default(), feature: None },
            diag::GraphNode { kid: kid("lib"), feature: None },
        ],
        code: Some(DiagnosticCode::General(diag::Code { rank: 0, qualified: "", description: "" })),
        extra: if extra {
            Some(Extra::Advisory(Arc::new(Advisory {
                metadata: Metadata {
                    id: String::new(),
                    url: None,
                    title: String::new(),
                    description: String::new(),
                },
                versions: Versions { unaffected: vec![], patched: vec![] },
                affected: None,
            })))
        } else {
            None
        },
        with_features,
    }
}

#[test]
fn graphs_are_listed_with_a_grapher() {
    let krates = graph();
    let grapher = InclusionGrapher::new(&krates);
    assert_eq!(
        write(&diag_to_json(whole(false, false), &files(), Some(&grapher), None)),
        "{\"type\":\"diagnostic\",\"fields\":{\"severity\":\"error\",\"message\":\"no\",\"graphs\":[{\"Krate\":{\"name\":\"lib\",\"version\":\"1.2.3-alpha.1\"},\"parents\":[{\"Krate\":{\"name\":\"user\",\"version\":\"1.2.3-alpha.1\",\"kind\":\"dev\"}}]}]}}"
    );
}

#[test]
fn graphs_with_features_repeat_crates() {
    let krates = graph();
    let grapher = InclusionGrapher::new(&krates);
    assert_eq!(
        write(&diag_to_json(whole(true, false), &files(), Some(&grapher), None)),
        "{\"type\":\"diagnostic\",\"fields\":{\"severity\":\"error\",\"message\":\"no\",\"graphs\":[{\"Krate\":{\"name\":\"lib\",\"version\":\"1.2.3-alpha.1\"},\"parents\":[{\"Krate\":{\"name\":\"user\",\"version\":\"1.2.3-alpha.1\",\"kind\":\"dev\"}},{\"Feature\":{\"crate_name\":\"lib\",\"name\":\"fancy\"},\"parents\":[{\"Krate\":{\"name\":\"user\",\"version\":\"1.2.3-alpha.1\",\"kind\":\"dev\"},\"repeat\":true}]}]}]}}"
    );
}

#[test]
fn extra_is_added_under_its_key() {
    let value = Some(Json::Raw("{\"id\":1}".to_string()));
    assert_eq!(
        write(&diag_to_json(whole(false, true), &files(), None, value)),
        "{\"type\":\"diagnostic\",\"fields\":{\"severity\":\"error\",\"message\":\"no\",\"advisory\":{\"id\":1}}}"
    );
    // What could not be written down, and what the diagnostic does not carry, is left out.
    let bare = "{\"type\":\"diagnostic\",\"fields\":{\"severity\":\"error\",\"message\":\"no\"}}";
    assert_eq!(write(&diag_to_json(whole(false, true), &files(), None, None)), bare);
    let value = Some(Json::Raw("{}".to_string()));
    assert_eq!(write(&diag_to_json(whole(false, false), &files(), None, value)), bare);
}

#[test]
fn defaults_are_recognised() {
    assert!(is_false(&false));
    assert!(!is_false(&true));
    assert!(is_empty(&vec![]));
    let node = GraphNode {
        inner: NodeInner::Feature { crate_name: String::new(), name: String::new(), owner: None },
        repeat: false,
        parents: vec![],
    };
    assert!(!is_empty(&vec![node]));
}

#[test]
fn whitespace_is_that_of_unicode() {
    for c in '\0'..=char::MAX {
        assert_eq!(is_white(c), c.is_whitespace());
    }
}

#[test]
fn texts_are_trimmed() {
    assert_eq!(trim(" \t a b\u{3000}\n"), "a b");
    assert_eq!(trim(" \n"), "");
    assert_eq!(trim_quotes("\"\"a\"b\""), "a\"b");
    assert_eq!(trim_quotes("\""), "");
    assert_eq!(trim_quotes("plain"), "plain");
}

#[test]
fn announcing_notes_end_in_a_colon() {
    assert!(ends_in_colon("a: "));
    assert!(ends_in_colon(":"));
    assert!(!ends_in_colon("a:b"));
    assert!(!ends_in_colon(""));
}

#[test]
fn suffixes_are_found() {
    assert!(ends_with("registry+https://x", "https://x"));
    assert!(ends_with("abc", ""));
    assert!(!ends_with("abc", "abcd"));
    assert!(!ends_with("abc", "ab"));
}

#[test]
fn texts_are_ordered_like_strings() {
    let texts = ["", "a", "ab", "b", "Z", "é", "\u{10000}", "\u{ffff}"];
    for a in texts {
        for b in texts {
            let order = match order_text(a, b) {
                Order::Less => std::cmp::Ordering::Less,
                Order::Equal => std::cmp::Ordering::Equal,
                Order::Greater => std::cmp::Ordering::Greater,
            };
            assert_eq!(order, a.cmp(b));
            assert_eq!(text_eq(a, b), a == b);
        }
    }
}

#[test]
fn slices_are_taken_by_bytes() {
    assert_eq!(slice("aéb", 1, 3), "é");
    assert_eq!(slice("aéb", 0, 4), "aéb");
    assert_eq!(slice("aéb", 3, 3), "");
}

#[test]
fn numbers_are_decimal() {
    for n in [0, 7, 10, 99, 100, 1234567890, u64::MAX] {
        let mut out = String::from("n=");
        push_decimal(&mut out, n);
        assert_eq!(out, format!("n={n}"));
    }
}

#[test]
fn versions_are_written_like_semver() {
    for text in ["1.2.3", "0.0.0", "1.0.0-rc.1", "1.0.0+build.5", "1.0.0-rc.1+build.5"] {
        let parsed = semver::Version::parse(text).expect("a version");
        let version = Version {
            major: parsed.major,
            minor: parsed.minor,
            patch: parsed.patch,
            pre: parsed.pre.to_string(),
            build: parsed.build.to_string(),
        };
        assert_eq!(version.to_text(), text);
        assert_eq!(version.to_text(), parsed.to_string());
    }
    assert!(Version::new(1, 0, 0) == Version::new(1, 0, 0));
    assert!(Version::new(1, 0, 0) != Version::new(1, 0, 1));
}

#[test]
fn identifiers_are_ordered_by_name_version_and_source() {
    let a = kid("a");
    let mut newer = kid("a");
    newer.version = "2.0.0".to_string();
    let mut other = kid("a");
    other.source = "git".to_string();
    assert_eq!(a.order_of(&a), Order::Equal);
    assert_eq!(a.order_of(&newer), Order::Less);
    assert_eq!(newer.order_of(&other), Order::Greater);
    assert_eq!(a.order_of(&other), Order::Less);
    assert_eq!(kid("b").order_of(&newer), Order::Greater);
    // The text of the identifier does not count.
    let mut same = kid("a");
    same.repr = "different".to_string();
    assert!(a == same);
    assert!(a != newer);
}

#[test]
fn codes_are_ordered_by_check_and_rank() {
    let code = |rank: u32| diag::Code { rank, qualified: "q", description: "d" };
    let advisory = DiagnosticCode::Advisory(code(5));
    let banned = DiagnosticCode::Bans(diag::BansCode::Other(code(1)));
    let duplicate = DiagnosticCode::Bans(diag::BansCode::Duplicate(code(2)));
    assert!(advisory.comes_before(banned));
    assert!(banned.comes_before(duplicate));
    assert!(!duplicate.comes_before(duplicate));
    assert!(!duplicate.comes_before(banned));
    // Codes of one rank are told apart by their text.
    let other = DiagnosticCode::Advisory(diag::Code { rank: 5, qualified: "r", description: "d" });
    assert!(advisory.comes_before(other));
    assert!(!other.comes_before(advisory));
    assert_eq!(advisory.qualified_str(), "q");
    assert_eq!(advisory.description(), "d");
}

#[test]
fn positions_are_looked_up() {
    let files = files();
    assert_eq!(files.location(0, 10), Some(Position { offset: 10, line: 4, column: 10 }));
    assert_eq!(files.location(0, 11), None);
    assert_eq!(files.location(1, 0), None);
    assert_eq!(files.source(0), "license = \"MIT\"\n");
    assert!(files.sarif_location(&Label::primary(0, Span { start: 0, end: 1 })).is_none());
}
