//! The processor for diagnostics without one of their own.

use crate::diag::files::Files;
use crate::diag::grapher::InclusionGrapher;
use crate::diag::Diag;
use crate::krate_graph::KrateGraph;
use crate::sarif::graphs::{
    depth, depth_of, kids_of_nodes, node_kids, numbered_graphs, write_numbered, GraphStyle,
    NumberedStyle,
};
use crate::sarif::locator::{marks_of, LocationFinder};
use crate::sarif::model::{Message, MessageParts};
use crate::sarif::processors::{
    findings_of, label_locations, mark_places, DiagnosticData, DiagnosticProcessor, Finding,
};
use vstd::prelude::*;

verus! {

pub struct OtherProcessor<'a, L: LocationFinder> {
    pub grapher: &'a InclusionGrapher<'a>,
    pub locator: &'a L,
    pub feature_depth: u32,
}

impl<'a, L: LocationFinder> OtherProcessor<'a, L> {
    pub fn new(
        grapher: &'a InclusionGrapher<'a>,
        locator: &'a L,
        feature_depth: u32,
    ) -> (processor: Self)
        ensures
            processor == (Self { grapher, locator, feature_depth }),
    {
        Self { grapher, locator, feature_depth }
    }

    fn max_feature_depth(&self, with_features: bool) -> (n: usize)
        ensures
            n == depth(self.feature_depth, with_features),
    {
        depth_of(self.feature_depth, with_features)
    }
}

/// How this processor shows the graphs of a diagnostic.
pub open spec fn other_style() -> NumberedStyle {
    NumberedStyle {
        before_number: "**Dependency Graph ",
        after_number: "**  \n\n",
        graph: GraphStyle { before: "```  \n", after: "  \n```  \n" },
    }
}

/// A diagnostic with the locations of its labels, and with the graphs of its nodes.
pub open spec fn labelled_finding(
    style: NumberedStyle,
    g: KrateGraph,
    max: nat,
    diag: Diag,
    files: Files,
) -> Finding {
    Finding {
        code: diag.code.unwrap(),
        severity: diag.diag.severity,
        krates: node_kids(diag.graph_nodes@),
        message: MessageParts {
            text: diag.diag.message@,
            markdown: Some(
                numbered_graphs(style, diag.diag.message@, g, diag.graph_nodes@, max),
            ),
        },
        locations: mark_places(files, marks_of(diag.diag.labels@)),
        extra: diag.extra,
    }
}

/// Finds the locations of the labels of a diagnostic, and shows the graphs of its nodes.
pub(crate) fn label_data(
    style: NumberedStyle,
    grapher: &InclusionGrapher<'_>,
    max_feature_depth: usize,
    diag: Diag,
    files: &Files,
) -> (data: DiagnosticData)
    requires
        grapher.krates.wf(),
        diag.code is Some,
    ensures
        data@ == labelled_finding(style, *grapher.krates, max_feature_depth as nat, diag, *files),
        files.wf() ==> forall|i: int|
            0 <= i < data.locations.len() ==> (#[trigger] data.locations@[i]).wf(),
{
    let code = diag.code.unwrap();
    let locations = label_locations(files, &diag.diag.labels);
    let md = write_numbered(
        style,
        diag.diag.message.as_str(),
        grapher,
        &diag.graph_nodes,
        max_feature_depth,
    );
    let krates = kids_of_nodes(&diag.graph_nodes);
    let severity = diag.diag.severity;
    let message = Message::with_markdown(diag.diag.message, Some(md));
    DiagnosticData { code, severity, krates, message, locations, extra: diag.extra }
}

impl<'a, L: LocationFinder> OtherProcessor<'a, L> {
    /// What a diagnostic is turned into.
    pub open spec fn found(self, diag: Diag, files: Files) -> Seq<Finding> {
        seq![
            labelled_finding(
                other_style(),
                *self.grapher.krates,
                depth(self.feature_depth, diag.with_features),
                diag,
                files,
            ),
        ]
    }
}

impl<'a, L: LocationFinder> DiagnosticProcessor for OtherProcessor<'a, L> {
    open spec fn valid(&self) -> bool {
        self.grapher.krates.wf()
    }

    open spec fn findings(&self, diag: Diag, files: Files) -> Seq<Finding> {
        self.found(diag, files)
    }

    fn process(&self, diag: Diag, files: &Files) -> (data: Vec<DiagnosticData>) {
        let style = NumberedStyle {
            before_number: "**Dependency Graph ",
            after_number: "**  \n\n",
            graph: GraphStyle { before: "```  \n", after: "  \n```  \n" },
        };
        let max_feature_depth = self.max_feature_depth(diag.with_features);
        let mut data: Vec<DiagnosticData> = Vec::new();
        data.push(label_data(style, self.grapher, max_feature_depth, diag, files));
        assert(findings_of(data@) =~= self.findings(diag, *files));
        data
    }
}

} // verus!
