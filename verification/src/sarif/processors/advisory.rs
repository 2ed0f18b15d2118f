//! The processor for advisories.

use crate::diag::files::Files;
use crate::diag::grapher::{GraphNode, InclusionGrapher, Tree};
use crate::diag::{Diag, Extra};
use crate::krate_graph::clone_opt;
use crate::sarif::advisory::{advisory_markdown, advisory_text, AdvisoryStyle};
use crate::sarif::graphs::{
    build_graphs, depth, depth_of, graph_markdown, graph_paths, graph_text, graphs_of,
    kids_of_nodes, node_kids, trees_of, GraphStyle,
};
use crate::sarif::locator::LocationFinder;
use crate::sarif::model::{places_of, Location, Message, MessageParts, Place};
use crate::sarif::processors::{
    create_dummy_location, findings_of, label_locations, mark_places, unknown_place,
    DiagnosticData, DiagnosticProcessor, Finding,
};
use crate::small::kids_of;
use vstd::prelude::*;

verus! {

pub struct AdvisoryProcessor<'a, L: LocationFinder> {
    pub grapher: &'a InclusionGrapher<'a>,
    pub locator: &'a L,
    pub feature_depth: u32,
}

impl<'a, L: LocationFinder> AdvisoryProcessor<'a, L> {
    pub fn new(
        grapher: &'a InclusionGrapher<'a>,
        locator: &'a L,
        feature_depth: u32,
    ) -> (processor: Self)
        ensures
            processor == (Self { grapher, locator, feature_depth }),
    {
        Self { grapher, locator, feature_depth }
    }

    fn max_feature_depth(&self, with_features: bool) -> (n: usize)
        ensures
            n == depth(self.feature_depth, with_features),
    {
        depth_of(self.feature_depth, with_features)
    }
}

/// How this processor shows an advisory.
pub open spec fn spaced_style() -> AdvisoryStyle {
    AdvisoryStyle {
        before_title: " - ",
        after_title: "  \n\n",
        description: "## Description  \n\n",
        after_description: "  \n\n",
        unaffected: "## Unaffected\n",
        after_unaffected: "\n\n",
        patched: "## Patched\n\n",
        affected: "## Affected\n",
        arches: "### Arches\n",
        systems: "### Operating Systems\n",
    }
}

/// How this processor shows the graph of an advisory.
pub open spec fn spaced_graph_style() -> GraphStyle {
    GraphStyle {
        before: "  \n\n## Dependency Graph  \n\n```  \n\n",
        after: "  \n```  \n\n",
    }
}

/// The message of an advisory: the advisory itself with the first graph, where
/// the diagnostic has one.
pub open spec fn advisory_message(
    style: AdvisoryStyle,
    graph_style: GraphStyle,
    diag: Diag,
    graphs: Seq<Tree>,
) -> MessageParts {
    match diag.extra {
        Some(Extra::Advisory(advisory)) => MessageParts {
            text: advisory.metadata.title@,
            markdown: Some(
                advisory_text(style, *advisory) + (if graphs.len() > 0 {
                    graph_text(graph_style, graphs[0])
                } else {
                    Seq::empty()
                }),
            ),
        },
        None => MessageParts { text: diag.diag.message@, markdown: None },
    }
}

/// Writes the message of an advisory.
pub(crate) fn write_advisory_message(
    style: AdvisoryStyle,
    graph_style: GraphStyle,
    diag: &Diag,
    graphs: &Vec<GraphNode>,
) -> (message: Message)
    ensures
        message@ == advisory_message(style, graph_style, *diag, trees_of(graphs@)),
{
    match &diag.extra {
        Some(Extra::Advisory(advisory)) => {
            let mut md = advisory_markdown(style, advisory);
            if graphs.len() > 0 {
                let graph = graph_markdown(graph_style, &graphs[0]);
                md.append(graph.as_str());
            } else {
                assert(md@ + Seq::<char>::empty() =~= md@);
            }
            Message::with_markdown(advisory.metadata.title.clone(), Some(md))
        },
        None => Message::text(diag.diag.message.clone()),
    }
}

/// A message with the note that no location was found.
pub open spec fn unlocated(message: MessageParts) -> MessageParts {
    MessageParts {
        text: message.text,
        markdown: Some(
            (match message.markdown {
                Some(md) => md,
                None => message.text,
            })
                + "\n\n---\n\n**Note:** Unable to determine the location of this vulnerability in your dependency tree. This may indicate an issue with cargo-deny's dependency graph analysis. Please report this issue to [cargo-deny](https://github.com/embarkstudios/cargo-deny/issues)."@,
        ),
    }
}

/// Adds the note that no location was found.
fn note_unlocated(message: &Message) -> (updated: Message)
    ensures
        updated@ == unlocated(message@),
{
    let mut md = match &message.markdown {
        Some(md) => md.clone(),
        None => message.text.clone(),
    };
    md.append(
        "\n\n---\n\n**Note:** Unable to determine the location of this vulnerability in your dependency tree. This may indicate an issue with cargo-deny's dependency graph analysis. Please report this issue to [cargo-deny](https://github.com/embarkstudios/cargo-deny/issues).",
    );
    Message { text: message.text.clone(), markdown: Some(md) }
}

/// A finding at one place.
pub open spec fn finding_at(diag: Diag, message: MessageParts, place: Place) -> Finding {
    Finding {
        code: diag.code.unwrap(),
        severity: diag.diag.severity,
        krates: node_kids(diag.graph_nodes@),
        message,
        locations: seq![place],
        extra: diag.extra,
    }
}

/// One finding for each of the places, or one at `unknown` if there is none.
pub open spec fn findings_at(
    diag: Diag,
    message: MessageParts,
    places: Seq<Place>,
    unknown: Place,
) -> Seq<Finding> {
    if places.len() == 0 {
        seq![finding_at(diag, unlocated(message), unknown)]
    } else {
        Seq::new(places.len(), |i: int| finding_at(diag, message, places[i]))
    }
}

/// Makes the data of one result for each of the locations, or of one at
/// `unknown` if there is none.
pub(crate) fn data_at(
    diag: &Diag,
    message: Message,
    locations: Vec<Location>,
    unknown: Location,
) -> (data: Vec<DiagnosticData>)
    requires
        diag.code is Some,
    ensures
        findings_of(data@) == findings_at(*diag, message@, places_of(locations@), unknown@),
        unknown.wf() && (forall|i: int| 0 <= i < locations.len() ==> (
        #[trigger] locations@[i]).wf()) ==> forall|i: int, j: int|
            #![trigger data@[i].locations@[j]]
            0 <= i < data.len() && 0 <= j < data@[i].locations.len()
                ==> data@[i].locations@[j].wf(),
{
    let code = diag.code.unwrap();
    let krates = kids_of_nodes(&diag.graph_nodes);
    let none = locations.len() == 0;
    let final_message = if none {
        note_unlocated(&message)
    } else {
        message
    };
    let mut final_locations = locations;
    if none {
        final_locations.push(unknown);
    }
    let mut data: Vec<DiagnosticData> = Vec::new();
    let mut i: usize = 0;
    while i < final_locations.len()
        invariant
            i <= final_locations.len(),
            data.len() == i,
            diag.code == Some(code),
            kids_of(krates) == node_kids(diag.graph_nodes@),
            forall|j: int|
                0 <= j < i ==> (#[trigger] data@[j])@ == finding_at(
                    *diag,
                    final_message@,
                    final_locations@[j]@,
                ) && data@[j].locations@ == seq![final_locations@[j]],
        decreases final_locations.len() - i,
    {
        let mut locations: Vec<Location> = Vec::new();
        locations.push(final_locations[i].clone());
        let extra = match &diag.extra {
            Some(extra) => Some(extra.clone()),
            None => None,
        };
        let message = Message {
            text: final_message.text.clone(),
            markdown: clone_opt(&final_message.markdown),
        };
        let item = DiagnosticData {
            code,
            severity: diag.diag.severity,
            krates: krates.clone(),
            message,
            locations,
            extra,
        };
        assert(item@.locations =~= seq![final_locations@[i as int]@]);
        data.push(item);
        i += 1;
    }
    data
}

impl<'a, L: LocationFinder> AdvisoryProcessor<'a, L> {
    /// What a diagnostic is turned into.
    pub open spec fn found(self, diag: Diag, files: Files) -> Seq<Finding> {
        let graphs = graphs_of(
            *self.grapher.krates,
            diag.graph_nodes@,
            depth(self.feature_depth, diag.with_features),
        );
        let paths = graph_paths(graphs);
        findings_at(
            diag,
            advisory_message(spaced_style(), spaced_graph_style(), diag, graphs),
            if paths.len() > 0 {
                mark_places(files, self.locator.project_marks(paths))
            } else {
                Seq::empty()
            },
            unknown_place(self.grapher.krates.workspace_root@),
        )
    }
}

impl<'a, L: LocationFinder> DiagnosticProcessor for AdvisoryProcessor<'a, L> {
    open spec fn valid(&self) -> bool {
        self.grapher.krates.wf()
    }

    open spec fn findings(&self, diag: Diag, files: Files) -> Seq<Finding> {
        self.found(diag, files)
    }

    fn process(&self, diag: Diag, files: &Files) -> (data: Vec<DiagnosticData>) {
        let max_feature_depth = self.max_feature_depth(diag.with_features);
        let (graphs, all_paths) = build_graphs(
            self.grapher,
            &diag.graph_nodes,
            max_feature_depth,
        );
        let style = AdvisoryStyle {
            before_title: " - ",
            after_title: "  \n\n",
            description: "## Description  \n\n",
            after_description: "  \n\n",
            unaffected: "## Unaffected\n",
            after_unaffected: "\n\n",
            patched: "## Patched\n\n",
            affected: "## Affected\n",
            arches: "### Arches\n",
            systems: "### Operating Systems\n",
        };
        let graph_style = GraphStyle {
            before: "  \n\n## Dependency Graph  \n\n```  \n\n",
            after: "  \n```  \n\n",
        };
        let message = write_advisory_message(style, graph_style, &diag, &graphs);
        // The lock file that advisories point to is left out of reports, so the
        // locations are those where the project depends on the crates.
        let locations = if all_paths.len() > 0 {
            let labels = self.locator.find_project_locations(all_paths.as_slice());
            label_locations(files, &labels)
        } else {
            Vec::new()
        };
        assert(all_paths.len() == 0 ==> places_of(locations@) =~= Seq::empty());
        let unknown = create_dummy_location(self.grapher.krates.workspace_root.as_str());
        data_at(&diag, message, locations, unknown)
    }
}

} // verus!
