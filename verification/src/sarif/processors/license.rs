//! The processor for licenses.

use crate::diag;
use crate::diag::files::Files;
use crate::diag::grapher::InclusionGrapher;
use crate::diag::{Diag, Label, LabelStyle, Mark};
use crate::krate_graph::{krate_at, KrateGraph, Node};
use crate::sarif::graphs::{
    depth, depth_of, gapped, graph_markdown, graph_text, kids_of_nodes, node_graph, node_kids,
    push_gap, GraphStyle,
};
use crate::sarif::locator::{marks_of, LocationFinder};
use crate::sarif::model::{opt_text, places_of, Location, Message, MessageParts, Place};
use crate::sarif::processors::{
    create_location_from_krate, findings_of, krate_place, DiagnosticData, DiagnosticProcessor,
    Finding,
};
use crate::text::{announces, ends_in_colon, trim, trimmed};
use vstd::prelude::*;

verus! {

pub struct LicenseProcessor<'a, L: LocationFinder> {
    pub grapher: &'a InclusionGrapher<'a>,
    pub locator: &'a L,
    pub feature_depth: u32,
}

impl<'a, L: LocationFinder> LicenseProcessor<'a, L> {
    pub fn new(
        grapher: &'a InclusionGrapher<'a>,
        locator: &'a L,
        feature_depth: u32,
    ) -> (processor: Self)
        ensures
            processor == (Self { grapher, locator, feature_depth }),
    {
        Self { grapher, locator, feature_depth }
    }

    fn max_feature_depth(&self, with_features: bool) -> (n: usize)
        ensures
            n == depth(self.feature_depth, with_features),
    {
        depth_of(self.feature_depth, with_features)
    }
}

/// The marks of a style.
pub open spec fn styled(marks: Seq<Mark>, style: LabelStyle) -> Seq<Mark> {
    marks.filter(|mark: Mark| mark.style == style)
}

/// The labels of a style.
fn labels_of_style(labels: &Vec<Label>, style: LabelStyle) -> (of_style: Vec<Label>)
    ensures
        marks_of(of_style@) == styled(marks_of(labels@), style),
{
    let mut of_style: Vec<Label> = Vec::new();
    let ghost marks = marks_of(labels@);
    let ghost keep = |mark: Mark| mark.style == style;
    let mut i: usize = 0;
    assert(marks_of(of_style@) =~= marks.take(0).filter(keep)) by {
        reveal(Seq::filter);
    }
    while i < labels.len()
        invariant
            i <= labels.len(),
            marks == marks_of(labels@),
            keep == (|mark: Mark| mark.style == style),
            marks_of(of_style@) == marks.take(i as int).filter(keep),
        decreases labels.len() - i,
    {
        let label = &labels[i];
        proof {
            assert(marks.take(i + 1).drop_last() =~= marks.take(i as int));
            assert(marks.take(i + 1).last() == label@);
            reveal(Seq::filter);
        }
        if label.style == style {
            let ghost before = marks_of(of_style@);
            of_style.push(label.clone());
            assert(marks_of(of_style@) =~= before.push(label@));
        }
        i += 1;
    }
    assert(marks.take(i as int) =~= marks);
    of_style
}

/// The text that a mark is on.
pub open spec fn mark_snippet(files: Files, mark: Mark) -> Option<Seq<char>> {
    match files.location_of(mark) {
        Some(location) => location@.snippet,
        None => None,
    }
}

/// The text that a label is on.
fn label_snippet(files: &Files, label: &Label) -> (snippet: Option<String>)
    ensures
        opt_text(snippet) == mark_snippet(*files, label@),
{
    match files.sarif_location(label) {
        Some(location) => location.physical_location.region.snippet,
        None => None,
    }
}

/// Where a license diagnostic is: at the first primary mark, or the first mark
/// if none is primary; failing that, where the first crate is.
pub open spec fn license_places(
    g: KrateGraph,
    nodes: Seq<diag::GraphNode>,
    marks: Seq<Mark>,
    files: Files,
) -> Seq<Place> {
    let primary = styled(marks, LabelStyle::Primary);
    let place = if primary.len() > 0 {
        files.location_of(primary[0])
    } else if marks.len() > 0 {
        files.location_of(marks[0])
    } else {
        None
    };
    match place {
        Some(location) => seq![location@],
        None => if nodes.len() > 0 {
            match krate_at(g.nodes@, nodes[0].kid, 0) {
                Some(n) => match g.nodes@[n] {
                    Node::Krate { krate } => seq![krate_place(krate)],
                    Node::Feature { .. } => Seq::empty(),
                },
                None => Seq::empty(),
            }
        } else {
            Seq::empty()
        },
    }
}

/// Finds where a license diagnostic is.
fn license_locations(
    grapher: &InclusionGrapher<'_>,
    diag: &Diag,
    primary_labels: &Vec<Label>,
    files: &Files,
) -> (locations: Vec<Location>)
    requires
        marks_of(primary_labels@) == styled(marks_of(diag.diag.labels@), LabelStyle::Primary),
    ensures
        places_of(locations@) == license_places(
            *grapher.krates,
            diag.graph_nodes@,
            marks_of(diag.diag.labels@),
            *files,
        ),
        files.wf() ==> forall|i: int|
            0 <= i < locations.len() ==> (#[trigger] locations@[i]).wf(),
{
    let ghost marks = marks_of(diag.diag.labels@);
    let ghost primary = marks_of(primary_labels@);
    assert(primary.len() > 0 ==> primary[0] == primary_labels@[0]@);
    assert(marks.len() > 0 ==> marks[0] == diag.diag.labels@[0]@);
    let found = if primary_labels.len() > 0 {
        files.sarif_location(&primary_labels[0])
    } else if diag.diag.labels.len() > 0 {
        files.sarif_location(&diag.diag.labels[0])
    } else {
        None
    };
    let mut locations: Vec<Location> = Vec::new();
    match found {
        Some(location) => {
            let ghost place = location@;
            locations.push(location);
            assert(places_of(locations@) =~= seq![place]);
        },
        None => {
            assert(places_of(locations@) =~= Seq::empty());
            if diag.graph_nodes.len() > 0 {
                if let Some(krate) = grapher.krates.get_krate(&diag.graph_nodes[0].kid) {
                    locations.push(create_location_from_krate(krate));
                    assert(places_of(locations@) =~= seq![krate_place(*krate)]);
                }
            }
        },
    }
    locations
}

/// The line for a license that was rejected or accepted.
pub open spec fn detail(files: Files, mark: Mark) -> Seq<char> {
    let name = mark_snippet(files, mark);
    "- "@ + (match name {
        Some(name) => trimmed(name),
        None => Seq::empty(),
    }) + (if mark.message.len() > 0 && name is Some {
        ": "@
    } else {
        Seq::empty()
    }) + mark.message + "\n"@
}

/// A line for each license that was rejected or accepted.
pub open spec fn detail_lines(files: Files, marks: Seq<Mark>) -> Seq<char>
    decreases marks.len(),
{
    if marks.len() == 0 {
        Seq::empty()
    } else {
        detail_lines(files, marks.drop_last()) + detail(files, marks.last())
    }
}

/// Writes the line for a license that was rejected or accepted.
fn detail_line(files: &Files, label: &Label) -> (line: String)
    ensures
        line@ == detail(*files, label@),
{
    let license_name = label_snippet(files, label);
    let mut line = "- ".to_owned();
    if let Some(name) = &license_name {
        line.append(trim(name.as_str()));
    }
    if !label.message.as_str().is_empty() {
        if license_name.is_some() {
            line.append(": ");
        }
        line.append(label.message.as_str());
    }
    line.append("\n");
    assert(line@ =~= detail(*files, label@));
    line
}

/// Appends a line for each license that was rejected or accepted.
fn push_detail_lines(md: &mut String, files: &Files, labels: &Vec<Label>)
    ensures
        final(md)@ == old(md)@ + detail_lines(*files, marks_of(labels@)),
{
    let ghost marks = marks_of(labels@);
    let mut i: usize = 0;
    assert(md@ =~= old(md)@ + detail_lines(*files, marks.take(0)));
    while i < labels.len()
        invariant
            i <= labels.len(),
            marks == marks_of(labels@),
            md@ == old(md)@ + detail_lines(*files, marks.take(i as int)),
        decreases labels.len() - i,
    {
        assert(marks.take(i + 1).drop_last() =~= marks.take(i as int));
        let line = detail_line(files, &labels[i]);
        md.append(line.as_str());
        i += 1;
        assert(md@ =~= old(md)@ + detail_lines(*files, marks.take(i as int)));
    }
    assert(marks.take(i as int) =~= marks);
}

/// The notes, one a line. What announces others has an empty line before it.
pub open spec fn note_lines(notes: Seq<String>) -> Seq<char>
    decreases notes.len(),
{
    if notes.len() == 0 {
        Seq::empty()
    } else {
        let note = notes.last()@;
        note_lines(notes.drop_last()) + (if announces(note) {
            "\n"@
        } else {
            Seq::empty()
        }) + note + "\n"@
    }
}

/// Appends the notes, one a line.
fn push_note_lines(md: &mut String, notes: &Vec<String>)
    ensures
        final(md)@ == old(md)@ + note_lines(notes@),
{
    let mut i: usize = 0;
    assert(md@ =~= old(md)@ + note_lines(notes@.take(0)));
    while i < notes.len()
        invariant
            i <= notes.len(),
            md@ == old(md)@ + note_lines(notes@.take(i as int)),
        decreases notes.len() - i,
    {
        let note = notes[i].as_str();
        if ends_in_colon(note) {
            md.append("\n");
        }
        md.append(note);
        md.append("\n");
        i += 1;
        assert(notes@.take(i as int).drop_last() =~= notes@.take(i - 1));
        assert(md@ =~= old(md)@ + note_lines(notes@.take(i as int)));
    }
    assert(notes@.take(i as int) =~= notes@);
}

/// How the graph of a license diagnostic is shown.
pub open spec fn license_graph_style() -> GraphStyle {
    GraphStyle { before: "## Dependency Graph\n\n```\n", after: "\n```\n" }
}

/// The message, with the whole license expression behind it.
pub open spec fn with_expression(message: Seq<char>, marks: Seq<Mark>, files: Files) -> Seq<char> {
    let secondary = styled(marks, LabelStyle::Secondary);
    if secondary.len() > 0 && mark_snippet(files, secondary[0]) is Some {
        gapped(message, "\n\n"@) + mark_snippet(files, secondary[0]).unwrap()
    } else {
        message
    }
}

/// A text with a line for each of the licenses behind it.
pub open spec fn with_details(md: Seq<char>, marks: Seq<Mark>, files: Files) -> Seq<char> {
    let primary = styled(marks, LabelStyle::Primary);
    if primary.len() > 0 {
        gapped(md, "\n\n"@) + "**License Details:**\n"@ + detail_lines(files, primary)
    } else {
        md
    }
}

/// A text with the notes behind it.
pub open spec fn with_notes(md: Seq<char>, notes: Seq<String>) -> Seq<char> {
    if notes.len() > 0 {
        gapped(md, "\n"@) + "**License Information:**\n"@ + note_lines(notes) + "\n"@
    } else {
        md
    }
}

/// A text with the graph of the first node behind it.
pub open spec fn with_graph(
    md: Seq<char>,
    g: KrateGraph,
    nodes: Seq<diag::GraphNode>,
    max: nat,
) -> Seq<char> {
    if nodes.len() > 0 && node_graph(g, nodes[0], max) is Some {
        gapped(md, "\n"@) + graph_text(
            license_graph_style(),
            node_graph(g, nodes[0], max).unwrap(),
        )
    } else {
        md
    }
}

/// What a license diagnostic is turned into.
pub open spec fn license_finding(g: KrateGraph, max: nat, diag: Diag, files: Files) -> Finding {
    let marks = marks_of(diag.diag.labels@);
    Finding {
        code: diag.code.unwrap(),
        severity: diag.diag.severity,
        krates: node_kids(diag.graph_nodes@),
        message: MessageParts {
            text: diag.diag.message@,
            markdown: Some(
                with_graph(
                    with_notes(
                        with_details(
                            with_expression(diag.diag.message@, marks, files),
                            marks,
                            files,
                        ),
                        diag.diag.notes@,
                    ),
                    g,
                    diag.graph_nodes@,
                    max,
                ),
            ),
        },
        locations: license_places(g, diag.graph_nodes@, marks, files),
        extra: diag.extra,
    }
}

/// Turns a license diagnostic into the data of a result.
pub(crate) fn license_data(
    grapher: &InclusionGrapher<'_>,
    max_feature_depth: usize,
    diag: Diag,
    files: &Files,
) -> (data: DiagnosticData)
    requires
        grapher.krates.wf(),
        diag.code is Some,
    ensures
        data@ == license_finding(*grapher.krates, max_feature_depth as nat, diag, *files),
        files.wf() ==> forall|i: int|
            0 <= i < data.locations.len() ==> (#[trigger] data.locations@[i]).wf(),
{
    let code = diag.code.unwrap();
    let ghost marks = marks_of(diag.diag.labels@);
    let primary_labels = labels_of_style(&diag.diag.labels, LabelStyle::Primary);
    let secondary_labels = labels_of_style(&diag.diag.labels, LabelStyle::Secondary);
    let locations = license_locations(grapher, &diag, &primary_labels, files);
    let mut md = diag.diag.message.clone();
    // The first secondary label is on the whole license expression.
    if secondary_labels.len() > 0 {
        assert(marks_of(secondary_labels@)[0] == secondary_labels@[0]@);
        if let Some(snippet) = label_snippet(files, &secondary_labels[0]) {
            push_gap(&mut md, "\n\n");
            md.append(snippet.as_str());
        }
    }
    assert(md@ == with_expression(diag.diag.message@, marks, *files));
    if primary_labels.len() > 0 {
        push_gap(&mut md, "\n\n");
        md.append("**License Details:**\n");
        push_detail_lines(&mut md, files, &primary_labels);
    }
    if diag.diag.notes.len() > 0 {
        push_gap(&mut md, "\n");
        md.append("**License Information:**\n");
        push_note_lines(&mut md, &diag.diag.notes);
        md.append("\n");
    }
    if diag.graph_nodes.len() > 0 {
        if let Ok(graph) = grapher.build_graph(&diag.graph_nodes[0], max_feature_depth) {
            let style = GraphStyle { before: "## Dependency Graph\n\n```\n", after: "\n```\n" };
            let text = graph_markdown(style, &graph);
            push_gap(&mut md, "\n");
            md.append(text.as_str());
        }
    }
    let krates = kids_of_nodes(&diag.graph_nodes);
    let severity = diag.diag.severity;
    let message = Message::with_markdown(diag.diag.message, Some(md));
    DiagnosticData { code, severity, krates, message, locations, extra: diag.extra }
}

impl<'a, L: LocationFinder> LicenseProcessor<'a, L> {
    /// What a diagnostic is turned into.
    pub open spec fn found(self, diag: Diag, files: Files) -> Seq<Finding> {
        seq![
            license_finding(
                *self.grapher.krates,
                depth(self.feature_depth, diag.with_features),
                diag,
                files,
            ),
        ]
    }
}

impl<'a, L: LocationFinder> DiagnosticProcessor for LicenseProcessor<'a, L> {
    open spec fn valid(&self) -> bool {
        self.grapher.krates.wf()
    }

    open spec fn findings(&self, diag: Diag, files: Files) -> Seq<Finding> {
        self.found(diag, files)
    }

    fn process(&self, diag: Diag, files: &Files) -> (data: Vec<DiagnosticData>) {
        let max_feature_depth = self.max_feature_depth(diag.with_features);
        let mut data: Vec<DiagnosticData> = Vec::new();
        data.push(license_data(self.grapher, max_feature_depth, diag, files));
        assert(findings_of(data@) =~= self.findings(diag, *files));
        data
    }
}

} // verus!
