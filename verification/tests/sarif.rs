//! SARIF reports of diagnostics.

use cargo_deny::diag::advisory::{Advisory, Affected, AffectedFunction, Metadata, Versions};
use cargo_deny::diag::files::{Files, ResolvedLabel};
use cargo_deny::diag::grapher::InclusionGrapher;
use cargo_deny::diag::spans::{KrateSpans, Manifest, ManifestDep, WorkspaceSpan};
use cargo_deny::diag::{
    BansCode, Code, Diag, Diagnostic, DiagnosticCode, Extra, GraphNode, Label, LabelStyle, Pack,
    Severity, Span,
};
use cargo_deny::krate_graph::{DepEdge, DepKind, Kid, Krate, KrateGraph, Node, NodePrint, Version};
use cargo_deny::sarif::advisory::format_advisory_message;
use cargo_deny::sarif::collector::SarifCollector;
use cargo_deny::sarif::fingerprints::Fingerprints;
use cargo_deny::sarif::locator::{LocationFinder, Locator};
use cargo_deny::sarif::model::{
    ArtifactLocation, Location, Message, PhysicalLocation, Region, SarifLog,
};
use cargo_deny::sarif::processors::advisory::AdvisoryProcessor;
use cargo_deny::sarif::processors::license::LicenseProcessor;
use cargo_deny::sarif::processors::other::OtherProcessor;
use cargo_deny::sarif::processors::{DiagnosticProcessor, Processor, ProcessorSet};
use std::sync::Arc;

const REGISTRY: &str = "registry+https://github.com/rust-lang/crates.io-index";
const NOTE: &str = "\n\n---\n\n**Note:** Unable to determine the location of this vulnerability in your dependency tree. This may indicate an issue with cargo-deny's dependency graph analysis. Please report this issue to [cargo-deny](https://github.com/embarkstudios/cargo-deny/issues).";

fn kid(name: &str, source: &str) -> Kid {
    Kid {
        repr: format!("{source}#{name}@1.0.0"),
        name: name.to_string(),
        version: "1.0.0".to_string(),
        source: source.to_string(),
    }
}

fn krate(name: &str, source: Option<&str>) -> Krate {
    Krate {
        name: name.to_string(),
        version: Version::new(1, 0, 0),
        id: kid(name, source.unwrap_or("path+file:///ws")),
        source: source.map(str::to_string),
        manifest_path: format!("/ws/{name}/Cargo.toml"),
    }
}

/// `app`, a member, depends on `middle`, which depends on `bad`.
fn graph() -> KrateGraph {
    KrateGraph {
        nodes: vec![
            Node::Krate { krate: krate("app", None) },
            Node::Krate { krate: krate("bad", Some(REGISTRY)) },
            Node::Krate { krate: krate("middle", Some("git+https://example.com/middle")) },
        ],
        edges: vec![
            DepEdge::Dep { kind: DepKind::Normal },
            DepEdge::Dep { kind: DepKind::Normal },
        ],
        incoming: vec![
            vec![],
            vec![NodePrint { node: 2, edge: Some(1) }],
            vec![NodePrint { node: 0, edge: Some(0) }],
        ],
        dependents: vec![
            vec![],
            vec![NodePrint { node: 2, edge: Some(1) }],
            vec![NodePrint { node: 0, edge: Some(0) }],
        ],
        workspace_members: vec![kid("app", "path+file:///ws")],
        workspace_root: "/ws".to_string(),
    }
}

fn bad() -> Kid {
    kid("bad", REGISTRY)
}

fn node(kid: Kid) -> GraphNode {
    GraphNode { kid, feature: None }
}

fn span(start: usize, end: usize) -> Span {
    Span { start, end }
}

/// The manifest of `app`, which declares `middle`.
fn spans(workspace: Option<bool>) -> KrateSpans {
    KrateSpans {
        manifests: vec![Manifest {
            kid: kid("app", "path+file:///ws"),
            id: 3,
            deps: vec![ManifestDep {
                krate: krate("middle", Some("git+https://example.com/middle")),
                key_span: span(20, 26),
                value_span: span(29, 36),
                workspace,
            }],
        }],
        workspace_spans: vec![WorkspaceSpan {
            kid: kid("middle", "git+https://example.com/middle"),
            key: span(50, 56),
            value: span(59, 66),
        }],
        workspace_id: Some(4),
    }
}

fn location(uri: &str, offset: usize, length: usize, snippet: Option<&str>) -> Location {
    Location {
        physical_location: PhysicalLocation {
            artifact_location: ArtifactLocation { uri: uri.to_string() },
            region: Region {
                start_line: 2,
                byte_offset: offset,
                byte_length: length,
                snippet: snippet.map(str::to_string),
                message: None,
            },
        },
    }
}

fn label(style: LabelStyle, file_id: usize, range: Span, message: &str) -> Label {
    Label { style, file_id, range, message: message.to_string() }
}

/// The declaration in the manifest and the one in the workspace have locations.
fn files() -> Files {
    Files {
        files: vec![],
        resolved: vec![
            ResolvedLabel {
                label: Label::primary(3, span(20, 36)),
                location: location("app/Cargo.toml", 20, 16, Some("middle = \"1.0.0\"")),
            },
            ResolvedLabel {
                label: Label::primary(4, span(50, 66)),
                location: location("Cargo.toml", 50, 16, Some("middle = \"1.0.0\"")),
            },
        ],
    }
}

fn code(rank: u32, qualified: &'static str) -> Code {
    Code { rank, qualified, description: "what it stands for" }
}

fn vulnerability() -> DiagnosticCode {
    DiagnosticCode::Advisory(code(1, "a:vulnerability"))
}

fn rejected() -> DiagnosticCode {
    DiagnosticCode::License(code(1, "l:rejected"))
}

fn duplicate() -> DiagnosticCode {
    DiagnosticCode::Bans(BansCode::Duplicate(code(2, "b:duplicate")))
}

fn banned() -> DiagnosticCode {
    DiagnosticCode::Bans(BansCode::Other(code(1, "b:banned")))
}

fn diag(code: Option<DiagnosticCode>, severity: Severity, kids: Vec<Kid>) -> Diag {
    Diag {
        diag: Diagnostic {
            severity,
            code: None,
            message: "the message".to_string(),
            labels: vec![],
            notes: vec![],
        },
        graph_nodes: kids.into_iter().map(node).collect(),
        code,
        extra: None,
        with_features: false,
    }
}

fn advisory() -> Advisory {
    Advisory {
        metadata: Metadata {
            id: "RUSTSEC-2020-0001".to_string(),
            url: Some("https://example.com/a".to_string()),
            title: "It is bad".to_string(),
            description: "Very bad.".to_string(),
        },
        versions: Versions {
            unaffected: vec!["<1.0.0".to_string(), ">2.0.0".to_string()],
            patched: vec![">=1.2.0".to_string()],
        },
        affected: Some(Affected {
            functions: vec![AffectedFunction {
                path: "bad::f".to_string(),
                versions: vec!["<1.1.0".to_string(), ">=1.1.1".to_string()],
            }],
            arch: vec!["x86".to_string(), "arm".to_string()],
            os: vec!["linux".to_string()],
        }),
    }
}

fn plain_advisory() -> Advisory {
    Advisory {
        metadata: Metadata {
            id: "RUSTSEC-2020-0002".to_string(),
            url: None,
            title: "Unsound".to_string(),
            description: "Text".to_string(),
        },
        versions: Versions { unaffected: vec![], patched: vec![] },
        affected: None,
    }
}

fn entries(prints: &Fingerprints) -> Vec<(&str, &str)> {
    prints.entries.iter().map(|(k, v)| (k.as_str(), v.as_str())).collect()
}

fn report(krates: &KrateGraph, spans: &KrateSpans, files: &Files, diags: Vec<Diag>) -> SarifLog {
    let mut collector = SarifCollector::new(krates, None, spans);
    collector.add_diagnostics(Pack { diags }, files);
    collector.generate_sarif()
}

const BAD_GRAPH: &str =
    "bad v1.0.0\n└── middle v1.0.0\n    └── app v1.0.0\n";

#[test]
fn advisory_message_is_detailed() {
    let message = format_advisory_message(&advisory());
    assert_eq!(message.text, "It is bad");
    assert_eq!(
        message.markdown.as_deref(),
        Some(
            "# [RUSTSEC-2020-0001](https://example.com/a) - It is bad\n\n## Description\n\nVery bad.\n\n## Unaffected\n\n- `<1.0.0`\n- `>2.0.0`\n\n## Patched\n\n- `>=1.2.0`\n\n## Affected\n\n| Functions | Versions |\n|---|---|\n|`bad::f`|`<1.1.0`, `>=1.1.1`|\n\n### Arches\n\n- x86\n- arm\n\n### Operating Systems\n\n- linux\n\n"
        )
    );
}

#[test]
fn advisory_message_leaves_out_what_is_empty() {
    let message = format_advisory_message(&plain_advisory());
    assert_eq!(
        message.markdown.as_deref(),
        Some("# RUSTSEC-2020-0002 - Unsound\n\n## Description\n\nText\n\n")
    );
}

#[test]
fn advisory_is_reported_at_the_declaration() {
    let krates = graph();
    let krate_spans = spans(None);
    let mut d = diag(Some(vulnerability()), Severity::Error, vec![bad()]);
    d.extra = Some(Extra::Advisory(Arc::new(advisory())));
    let log = report(&krates, &krate_spans, &files(), vec![d]);
    assert_eq!(log.runs.len(), 1);
    let run = &log.runs[0];
    assert_eq!(run.results.len(), 1);
    let result = &run.results[0];
    assert_eq!(result.rule_id, "a:vulnerability");
    assert_eq!(result.level, "error");
    assert_eq!(result.locations.len(), 1);
    let place = &result.locations[0].physical_location;
    assert_eq!(place.artifact_location.uri, "app/Cargo.toml");
    assert_eq!(place.region.byte_offset, 20);
    assert_eq!(place.region.byte_length, 16);
    assert_eq!(result.message.text, "It is bad");
    assert_eq!(
        result.message.markdown.as_deref(),
        Some(
            format!(
                "# [RUSTSEC-2020-0001](https://example.com/a)\nIt is bad\n## Description\nVery bad.\n\n## Unaffected\n- `<1.0.0`\n- `>2.0.0`\n\n## Patched\n- `>=1.2.0`\n\n## Affected\n| Functions | Versions |\n|---|---|\n|`bad::f`|`<1.1.0`, `>=1.1.1`|\n\n### Arches\n- x86\n- arm\n\n### Operating Systems\n- linux\n\n## Dependency Graph\n\n```\n{BAD_GRAPH}\n```\n"
            )
            .as_str()
        )
    );
    assert_eq!(
        entries(&result.partial_fingerprints),
        vec![
            ("cargo-deny/advisory-id", "RUSTSEC-2020-0001"),
            ("cargo-deny/id", "a:vulnerability"),
            ("cargo-deny/krate", "bad@1.0.0"),
        ]
    );
}

#[test]
fn advisory_is_reported_in_the_workspace() {
    let krates = graph();
    let krate_spans = spans(Some(true));
    let d = diag(Some(vulnerability()), Severity::Error, vec![bad()]);
    let log = report(&krates, &krate_spans, &files(), vec![d]);
    let place = &log.runs[0].results[0].locations[0].physical_location;
    assert_eq!(place.artifact_location.uri, "Cargo.toml");
    assert_eq!(place.region.byte_offset, 50);
}

#[test]
fn advisory_without_location_says_so() {
    let krates = graph();
    let krate_spans = spans(None);
    let nowhere = Files { files: vec![], resolved: vec![] };
    let d = diag(Some(vulnerability()), Severity::Error, vec![bad()]);
    let log = report(&krates, &krate_spans, &nowhere, vec![d]);
    let result = &log.runs[0].results[0];
    assert_eq!(result.message.text, "the message");
    assert_eq!(result.message.markdown.as_deref(), Some(format!("the message{NOTE}").as_str()));
    assert_eq!(result.locations.len(), 1);
    let place = &result.locations[0].physical_location;
    assert_eq!(place.artifact_location.uri, "Cargo.toml");
    assert_eq!(place.region.start_line, 1);
    assert_eq!(place.region.byte_length, 0);
    assert_eq!(
        place.region.message.as_ref().map(|m| m.text.as_str()),
        Some("Unable to determine dependency location")
    );
}

#[test]
fn advisory_is_reported_once_for_each_location() {
    let mut krates = graph();
    krates.workspace_members.push(kid("middle", "git+https://example.com/middle"));
    let krate_spans = spans(None);
    // Both nodes lead to the same declaration.
    let d = diag(
        Some(vulnerability()),
        Severity::Warning,
        vec![kid("middle", "git+https://example.com/middle"), bad(), bad()],
    );
    let log = report(&krates, &krate_spans, &files(), vec![d]);
    assert_eq!(log.runs[0].results.len(), 1);
    assert_eq!(log.runs[0].results[0].level, "warning");

    let krates = graph();
    let d = diag(
        Some(vulnerability()),
        Severity::Warning,
        vec![kid("middle", "git+https://example.com/middle"), bad()],
    );
    let log = report(&krates, &krate_spans, &files(), vec![d]);
    assert_eq!(log.runs[0].results.len(), 1);
    assert_eq!(
        entries(&log.runs[0].results[0].partial_fingerprints),
        vec![
            ("cargo-deny/id", "a:vulnerability"),
            ("cargo-deny/krate", "git+https://example.com/middle#middle@1.0.0"),
            ("cargo-deny/krate1", "bad@1.0.0"),
        ]
    );
}

#[test]
fn notes_and_help_are_left_out() {
    let krates = graph();
    let krate_spans = spans(None);
    let diags = vec![
        diag(Some(banned()), Severity::Note, vec![bad()]),
        diag(Some(vulnerability()), Severity::Help, vec![bad()]),
        diag(None, Severity::Error, vec![bad()]),
    ];
    let log = report(&krates, &krate_spans, &files(), diags);
    assert!(log.runs[0].results.is_empty());
    assert!(log.runs[0].tool.driver.rules.is_empty());
    assert!(log.runs[0].tool.driver.version.is_none());
}

#[test]
fn rules_are_sorted_and_unique() {
    let krates = graph();
    let krate_spans = spans(None);
    let diags = vec![
        diag(Some(DiagnosticCode::General(code(1, "g:general"))), Severity::Bug, vec![]),
        diag(Some(DiagnosticCode::Source(code(1, "s:source"))), Severity::Error, vec![]),
        diag(Some(duplicate()), Severity::Warning, vec![bad()]),
        diag(Some(duplicate()), Severity::Error, vec![bad()]),
        diag(Some(rejected()), Severity::Error, vec![bad()]),
        diag(Some(banned()), Severity::Error, vec![bad()]),
        diag(Some(vulnerability()), Severity::Error, vec![bad()]),
    ];
    let log = report(&krates, &krate_spans, &files(), diags);
    let rules = &log.runs[0].tool.driver.rules;
    let ids: Vec<&str> = rules.iter().map(|r| r.id.as_str()).collect();
    assert_eq!(
        ids,
        vec!["a:vulnerability", "b:banned", "b:duplicate", "l:rejected", "s:source", "g:general"]
    );
    // The first diagnostic of a code decides.
    assert_eq!(rules[2].default_configuration.level, "warning");
    assert_eq!(rules[2].properties.problem_severity, "warning");
    assert_eq!(rules[2].properties.precision, "high");
    assert_eq!(rules[2].name, "b:duplicate");
    assert_eq!(rules[2].short_description.text, "what it stands for");
    assert_eq!(rules[2].full_description.text, "");
    assert!(matches!(rules[2].help.0, DiagnosticCode::Bans(BansCode::Duplicate(_))));
    let tags: Vec<&[&str]> = rules.iter().map(|r| r.properties.tags).collect();
    assert_eq!(tags[0], ["security", "vulnerability"]);
    assert_eq!(tags[1], ["dependencies", "supply-chain"]);
    assert_eq!(tags[3], ["license", "compliance"]);
    assert_eq!(tags[4], ["sources", "supply-chain"]);
    assert_eq!(tags[5], ["cargo-deny"]);
    let results: Vec<&str> = log.runs[0].results.iter().map(|r| r.rule_id.as_str()).collect();
    assert_eq!(
        results,
        vec![
            "g:general",
            "s:source",
            "b:duplicate",
            "b:duplicate",
            "l:rejected",
            "b:banned",
            "a:vulnerability"
        ]
    );
    assert_eq!(log.runs[0].results[0].level, "error");
}

#[test]
fn packs_are_collected_one_after_the_other() {
    let krates = graph();
    let krate_spans = spans(None);
    let mut collector = SarifCollector::new(&krates, Some(3), &krate_spans);
    let first = Pack { diags: vec![diag(Some(banned()), Severity::Error, vec![])] };
    let second = Pack { diags: vec![diag(Some(rejected()), Severity::Error, vec![])] };
    collector.add_diagnostics(first, &files());
    collector.add_diagnostics(second, &files());
    let log = collector.generate_sarif();
    let ids: Vec<&str> = log.runs[0].results.iter().map(|r| r.rule_id.as_str()).collect();
    assert_eq!(ids, vec!["b:banned", "l:rejected"]);
}

#[test]
fn duplicate_shows_every_graph() {
    let krates = graph();
    let krate_spans = spans(None);
    let d = diag(
        Some(duplicate()),
        Severity::Error,
        vec![bad(), Kid::default(), kid("middle", "git+https://example.com/middle")],
    );
    let log = report(&krates, &krate_spans, &files(), vec![d]);
    assert_eq!(log.runs[0].results.len(), 1);
    let result = &log.runs[0].results[0];
    assert_eq!(
        result.message.markdown.as_deref(),
        Some(
            format!(
                "the message\n\n## Dependency Graph 1\n\n```\n{BAD_GRAPH}\n```\n\n\n## Dependency Graph 3\n\n```\nmiddle v1.0.0\n└── app v1.0.0\n\n```\n"
            )
            .as_str()
        )
    );
    assert_eq!(result.locations.len(), 1);
    assert_eq!(
        result.locations[0].physical_location.artifact_location.uri,
        "app/Cargo.toml"
    );
    assert_eq!(
        entries(&result.partial_fingerprints),
        vec![
            ("cargo-deny/id", "b:duplicate"),
            ("cargo-deny/krate", "bad@1.0.0"),
            ("cargo-deny/krate1", "#@"),
            ("cargo-deny/krate2", "git+https://example.com/middle#middle@1.0.0"),
        ]
    );
}

#[test]
fn other_diagnostics_are_at_their_labels() {
    let krates = graph();
    let krate_spans = spans(None);
    let mut d = diag(Some(banned()), Severity::Error, vec![]);
    d.diag.labels = vec![
        Label::primary(4, span(50, 66)),
        Label::primary(9, span(0, 1)),
        Label::primary(3, span(20, 36)),
    ];
    let log = report(&krates, &krate_spans, &files(), vec![d]);
    let result = &log.runs[0].results[0];
    assert_eq!(result.message.markdown.as_deref(), Some("the message"));
    assert_eq!(result.locations.len(), 2);
    assert_eq!(
        entries(&result.partial_fingerprints),
        vec![
            ("cargo-deny/id", "b:banned"),
            ("cargo-deny/loc", "Cargo.toml:50..66"),
            ("cargo-deny/loc1", "app/Cargo.toml:20..36"),
        ]
    );
}

#[test]
fn fingerprints_are_sorted_by_name() {
    let mut prints = Fingerprints::new();
    prints.insert("b".to_string(), "1".to_string());
    prints.insert("a".to_string(), "2".to_string());
    prints.insert("c".to_string(), "3".to_string());
    prints.insert("b".to_string(), "4".to_string());
    assert_eq!(entries(&prints), vec![("a", "2"), ("b", "4"), ("c", "3")]);
}

/// A license expression with one rejected license.
fn license_diag() -> Diag {
    let mut d = diag(Some(rejected()), Severity::Error, vec![bad()]);
    d.diag.message = "failed to satisfy license requirements".to_string();
    d.diag.labels = vec![
        label(LabelStyle::Secondary, 5, span(0, 20), "license expression"),
        label(LabelStyle::Primary, 5, span(0, 4), "rejected"),
        label(LabelStyle::Primary, 5, span(8, 10), ""),
        label(LabelStyle::Primary, 6, span(0, 1), "no text"),
    ];
    d.diag.notes = vec!["GPL-3.0 - GNU:  ".to_string(), "  - OSI".to_string()];
    d
}

fn license_files() -> Files {
    Files {
        files: vec![],
        resolved: vec![
            ResolvedLabel {
                label: label(LabelStyle::Secondary, 5, span(0, 20), "license expression"),
                location: location("bad/Cargo.toml", 0, 20, Some("GPL-3.0 OR MIT")),
            },
            ResolvedLabel {
                label: label(LabelStyle::Primary, 5, span(0, 4), "rejected"),
                location: location("bad/Cargo.toml", 0, 4, Some(" GPL-3.0\n")),
            },
            ResolvedLabel {
                label: label(LabelStyle::Primary, 5, span(8, 10), ""),
                location: location("bad/Cargo.toml", 8, 2, Some("MIT")),
            },
        ],
    }
}

fn license_markdown() -> String {
    format!(
        "failed to satisfy license requirements\n\nGPL-3.0 OR MIT\n\n**License Details:**\n- GPL-3.0: rejected\n- MIT\n- no text\n\n**License Information:**\n\nGPL-3.0 - GNU:  \n  - OSI\n\n\n## Dependency Graph\n\n```\n{BAD_GRAPH}\n```\n"
    )
}

#[test]
fn license_is_explained() {
    let krates = graph();
    let krate_spans = spans(None);
    let log = report(&krates, &krate_spans, &license_files(), vec![license_diag()]);
    let result = &log.runs[0].results[0];
    assert_eq!(result.message.text, "failed to satisfy license requirements");
    assert_eq!(result.message.markdown.as_deref(), Some(license_markdown().as_str()));
    assert_eq!(result.locations.len(), 1);
    assert_eq!(result.locations[0].physical_location.region.byte_length, 4);
}

#[test]
fn license_processor_agrees_with_the_collector() {
    let krates = graph();
    let krate_spans = spans(None);
    let grapher = InclusionGrapher::new(&krates);
    let locator = Locator::new(&krate_spans);
    let processor = LicenseProcessor::new(&grapher, &locator, 1);
    let data = processor.process(license_diag(), &license_files());
    assert_eq!(data.len(), 1);
    assert_eq!(data[0].message.markdown.as_deref(), Some(license_markdown().as_str()));
    assert_eq!(data[0].locations.len(), 1);
    assert!(matches!(data[0].code, DiagnosticCode::License(_)));
    assert_eq!(data[0].krates.to_vec(), vec![bad()]);
}

#[test]
fn license_without_label_is_at_its_crate() {
    let krates = graph();
    let krate_spans = spans(None);
    let nowhere = Files { files: vec![], resolved: vec![] };
    let remote = diag(Some(rejected()), Severity::Error, vec![bad()]);
    let local = diag(Some(rejected()), Severity::Error, vec![kid("app", "path+file:///ws")]);
    let unknown = diag(Some(rejected()), Severity::Error, vec![Kid::default()]);
    let log = report(&krates, &krate_spans, &nowhere, vec![remote, local, unknown]);
    let results = &log.runs[0].results;
    let place = &results[0].locations[0].physical_location;
    assert_eq!(
        place.artifact_location.uri,
        "file://registry+https://github.com/rust-lang/crates.io-index#bad@1.0.0"
    );
    assert_eq!(place.region.message.as_ref().map(|m| m.text.as_str()), Some("manifest file"));
    assert_eq!(
        results[1].locations[0].physical_location.artifact_location.uri,
        "file:///ws/app/Cargo.toml"
    );
    assert!(results[2].locations.is_empty());
    assert_eq!(results[2].message.markdown.as_deref(), Some("the message"));
}

#[test]
fn advisory_processor_uses_the_locator() {
    let krates = graph();
    let krate_spans = spans(None);
    let grapher = InclusionGrapher::new(&krates);
    let locator = Locator::new(&krate_spans);
    let processor = AdvisoryProcessor::new(&grapher, &locator, 1);
    let mut d = diag(Some(vulnerability()), Severity::Error, vec![bad()]);
    d.extra = Some(Extra::Advisory(Arc::new(plain_advisory())));
    let data = processor.process(d, &files());
    assert_eq!(data.len(), 1);
    assert_eq!(data[0].locations.len(), 1);
    assert_eq!(data[0].locations[0].physical_location.artifact_location.uri, "app/Cargo.toml");
    assert_eq!(
        data[0].message.markdown.as_deref(),
        Some(
            format!(
                "# RUSTSEC-2020-0002 - Unsound  \n\n## Description  \n\nText  \n\n  \n\n## Dependency Graph  \n\n```  \n\n{BAD_GRAPH}  \n```  \n\n"
            )
            .as_str()
        )
    );
    assert!(matches!(&data[0].extra, Some(Extra::Advisory(a)) if a.metadata.title == "Unsound"));
}

#[test]
fn advisory_processor_shows_every_part() {
    let krates = graph();
    let krate_spans = spans(None);
    let grapher = InclusionGrapher::new(&krates);
    let locator = Locator::new(&krate_spans);
    let processor = AdvisoryProcessor::new(&grapher, &locator, 1);
    let mut d = diag(Some(vulnerability()), Severity::Error, vec![]);
    d.extra = Some(Extra::Advisory(Arc::new(advisory())));
    let data = processor.process(d, &files());
    assert_eq!(data.len(), 1);
    assert_eq!(
        data[0].message.markdown.as_deref(),
        Some(
            format!(
                "# [RUSTSEC-2020-0001](https://example.com/a) - It is bad  \n\n## Description  \n\nVery bad.  \n\n## Unaffected\n- `<1.0.0`\n- `>2.0.0`\n\n\n## Patched\n\n- `>=1.2.0`\n\n## Affected\n| Functions | Versions |\n|---|---|\n|`bad::f`|`<1.1.0`, `>=1.1.1`|\n\n### Arches\n- x86\n- arm\n\n### Operating Systems\n- linux\n\n{NOTE}"
            )
            .as_str()
        )
    );
    // Without a location, the report is on the workspace.
    assert_eq!(data[0].locations[0].physical_location.artifact_location.uri, "/ws");
}

#[test]
fn other_processor_numbers_the_graphs() {
    let krates = graph();
    let krate_spans = spans(None);
    let grapher = InclusionGrapher::new(&krates);
    let locator = Locator::new(&krate_spans);
    let processor = OtherProcessor::new(&grapher, &locator, 1);
    let data = processor.process(diag(Some(banned()), Severity::Error, vec![bad()]), &files());
    assert_eq!(data.len(), 1);
    assert_eq!(
        data[0].message.markdown.as_deref(),
        Some(
            format!(
                "the message\n\n**Dependency Graph 1**  \n\n```  \n{BAD_GRAPH}  \n```  \n"
            )
            .as_str()
        )
    );
}

#[test]
fn processors_are_chosen_by_code() {
    let krates = graph();
    let krate_spans = spans(None);
    let grapher = InclusionGrapher::new(&krates);
    let locator = Locator::new(&krate_spans);
    let set = ProcessorSet::new(&grapher, &locator, 2);
    assert!(matches!(set.get(vulnerability()), Processor::Advisory(p) if p.feature_depth == 2));
    assert!(matches!(set.get(rejected()), Processor::Other(_)));
    assert!(matches!(set.get(banned()), Processor::Other(p) if p.feature_depth == 2));
    let data = set
        .get(vulnerability())
        .process(diag(Some(vulnerability()), Severity::Error, vec![bad()]), &files());
    assert_eq!(data.len(), 1);
    let data = set
        .get(banned())
        .process(diag(Some(banned()), Severity::Error, vec![bad()]), &files());
    assert!(data[0].locations.is_empty());
}

#[test]
fn locator_finds_each_declaration_once() {
    let krates = graph();
    let grapher = InclusionGrapher::new(&krates);
    let paths = grapher.build_graph(&node(bad()), 0).expect("a graph").collect_project_paths();
    let mut twice = paths.clone();
    twice.extend(paths.clone());
    let krate_spans = spans(None);
    let labels = Locator::new(&krate_spans).find_project_locations(&twice);
    assert_eq!(labels.len(), 1);
    assert_eq!(labels[0].file_id, 3);
    assert_eq!(labels[0].range, span(20, 36));
    assert_eq!(labels[0].style, LabelStyle::Primary);
    assert_eq!(labels[0].message, "");

    let krate_spans = spans(Some(true));
    let labels = Locator::new(&krate_spans).find_project_locations(&paths);
    assert_eq!(labels[0].file_id, 4);
    assert_eq!(labels[0].range, span(50, 66));

    let krate_spans = spans(Some(false));
    let labels = Locator::new(&krate_spans).find_project_locations(&paths);
    assert_eq!(labels[0].file_id, 3);
}

#[test]
fn workspace_declaration_falls_back_to_the_manifest() {
    let krates = graph();
    let grapher = InclusionGrapher::new(&krates);
    let paths = grapher.build_graph(&node(bad()), 0).expect("a graph").collect_project_paths();
    let mut krate_spans = spans(Some(true));
    krate_spans.workspace_id = None;
    let labels = Locator::new(&krate_spans).find_project_locations(&paths);
    assert_eq!(labels[0].file_id, 3);
    let mut krate_spans = spans(Some(true));
    krate_spans.workspace_spans.clear();
    let labels = Locator::new(&krate_spans).find_project_locations(&paths);
    assert_eq!(labels[0].file_id, 3);
    let mut krate_spans = spans(None);
    krate_spans.manifests[0].deps[0].krate.version = Version::new(2, 0, 0);
    assert!(Locator::new(&krate_spans).find_project_locations(&paths).is_empty());
    krate_spans.manifests.clear();
    assert!(Locator::new(&krate_spans).find_project_locations(&paths).is_empty());
}

#[test]
fn labels_are_sorted_by_file_and_span() {
    let mut krates = graph();
    // `app` also depends on `bad` directly.
    krates.edges.push(DepEdge::Dep { kind: DepKind::Normal });
    krates.incoming[1].push(NodePrint { node: 0, edge: Some(2) });
    krates.dependents[1].push(NodePrint { node: 0, edge: Some(2) });
    let grapher = InclusionGrapher::new(&krates);
    let paths = grapher.build_graph(&node(bad()), 0).expect("a graph").collect_project_paths();
    assert_eq!(paths.len(), 2);
    let mut krate_spans = spans(None);
    krate_spans.manifests[0].deps.push(ManifestDep {
        krate: krate("bad", Some(REGISTRY)),
        key_span: span(10, 13),
        // A value may stand before its key.
        value_span: span(2, 8),
        workspace: None,
    });
    let labels = Locator::new(&krate_spans).find_project_locations(&paths);
    let ranges: Vec<Span> = labels.iter().map(|l| l.range).collect();
    assert_eq!(ranges, vec![span(2, 13), span(20, 36)]);
}

#[test]
fn messages_keep_their_parts() {
    let plain = Message::text("a".to_string());
    assert_eq!(plain.text, "a");
    assert!(plain.markdown.is_none());
    let rich = Message::with_markdown("a".to_string(), Some("b".to_string()));
    assert_eq!(rich.markdown.as_deref(), Some("b"));
}

#[test]
fn features_are_followed_as_deep_as_asked() {
    let mut krates = graph();
    // A feature of `bad`, which `middle` asks for.
    krates.nodes.push(Node::Feature { krate_index: 1, name: "extra".to_string() });
    krates.edges.push(DepEdge::Feature);
    krates.edges.push(DepEdge::DepFeature { kind: DepKind::Normal });
    krates.incoming[1] = vec![NodePrint { node: 3, edge: Some(2) }];
    krates.incoming.push(vec![NodePrint { node: 2, edge: Some(3) }]);
    krates.dependents[1] = vec![NodePrint { node: 2, edge: Some(3) }];
    krates.dependents.push(vec![NodePrint { node: 2, edge: Some(3) }]);
    let krate_spans = spans(None);
    let shown = |depth: Option<u32>, with_features: bool| {
        let mut d = diag(Some(banned()), Severity::Error, vec![bad()]);
        d.with_features = with_features;
        let mut collector = SarifCollector::new(&krates, depth, &krate_spans);
        collector.add_diagnostics(Pack { diags: vec![d] }, &files());
        let log = collector.generate_sarif();
        log.runs[0].results[0].message.markdown.clone().unwrap_or_default()
    };
    assert!(!shown(None, false).contains("feature 'extra'"));
    assert!(!shown(Some(0), true).contains("feature 'extra'"));
    assert!(shown(None, true).contains("bad feature 'extra'"));
    assert_eq!(shown(Some(7), false), shown(Some(0), false));
}

#[test]
fn advisory_behind_a_feature_is_located() {
    let mut krates = graph();
    // `app` depends on `middle` only through one of its features.
    krates.nodes.push(Node::Feature { krate_index: 2, name: "extra".to_string() });
    krates.edges.push(DepEdge::Feature);
    krates.edges.push(DepEdge::DepFeature { kind: DepKind::Normal });
    krates.incoming[2] = vec![NodePrint { node: 3, edge: Some(2) }];
    krates.incoming.push(vec![NodePrint { node: 0, edge: Some(3) }]);
    krates.dependents[2] = vec![NodePrint { node: 0, edge: Some(3) }];
    krates.dependents.push(vec![NodePrint { node: 0, edge: Some(3) }]);
    let krate_spans = spans(None);
    for (kids, depth) in [
        (vec![kid("middle", "git+https://example.com/middle")], None),
        (vec![bad()], Some(2)),
    ] {
        let mut d = diag(Some(vulnerability()), Severity::Error, kids);
        d.with_features = true;
        let mut collector = SarifCollector::new(&krates, depth, &krate_spans);
        collector.add_diagnostics(Pack { diags: vec![d] }, &files());
        let log = collector.generate_sarif();
        let result = &log.runs[0].results[0];
        let place = &result.locations[0].physical_location;
        assert_eq!(place.artifact_location.uri, "app/Cargo.toml");
        assert!(result.message.markdown.is_none());
    }
}

#[test]
fn empty_collector_has_an_empty_log() {
    let krates = graph();
    let krate_spans = spans(None);
    let log = SarifCollector::new(&krates, None, &krate_spans).generate_sarif();
    assert_eq!(log.runs.len(), 1);
    assert!(log.runs[0].results.is_empty());
    assert!(log.runs[0].tool.driver.rules.is_empty());
}

#[test]
fn advisory_behind_a_feature_of_another_crate_is_located() {
    let mut krates = graph();
    // A feature of `middle`, which `app` asks for, depends on `bad`.
    krates.nodes.push(Node::Feature { krate_index: 2, name: "extra".to_string() });
    krates.edges.push(DepEdge::Feature);
    krates.edges.push(DepEdge::DepFeature { kind: DepKind::Normal });
    krates.incoming[1] = vec![NodePrint { node: 3, edge: Some(2) }];
    krates.incoming.push(vec![NodePrint { node: 0, edge: Some(3) }]);
    krates.dependents.push(vec![NodePrint { node: 0, edge: Some(3) }]);
    let krate_spans = spans(None);
    let mut d = diag(Some(vulnerability()), Severity::Error, vec![bad()]);
    d.with_features = true;
    let mut collector = SarifCollector::new(&krates, Some(2), &krate_spans);
    collector.add_diagnostics(Pack { diags: vec![d] }, &files());
    let log = collector.generate_sarif();
    let place = &log.runs[0].results[0].locations[0].physical_location;
    assert_eq!(place.artifact_location.uri, "app/Cargo.toml");
    assert_eq!(place.region.byte_offset, 20);
}
