//! Processors that turn diagnostics into the data of results.

pub mod advisory;
pub mod license;
pub mod other;

use crate::diag::files::Files;
use crate::diag::grapher::InclusionGrapher;
use crate::diag::{Diag, DiagnosticCode, Extra, Mark, Label, Severity};
use crate::krate_graph::{Kid, Krate};
use crate::sarif::locator::{marks_of, LocationFinder};
use crate::sarif::model::{places_of, whole_file, Location, Message, MessageParts, Place};
use crate::small::{kids_of, Kids};
use vstd::prelude::*;

verus! {

/// The trait that all processors implement
pub trait DiagnosticProcessor {
    /// Whether the processor itself is valid.
    spec fn valid(&self) -> bool;

    /// What a diagnostic is turned into.
    spec fn findings(&self, diag: Diag, files: Files) -> Seq<Finding>;

    /// Turns a diagnostic, which has a code, into the data of results.
    fn process(&self, diag: Diag, files: &Files) -> (data: Vec<DiagnosticData>)
        requires
            self.valid(),
            diag.code is Some,
        ensures
            findings_of(data@) == self.findings(diag, *files),
    ;
}

/// Internal type used by processors and collector
#[derive(Debug)]
pub struct DiagnosticData {
    pub code: DiagnosticCode,
    pub severity: Severity,
    pub krates: Kids,
    pub message: Message,
    pub locations: Vec<Location>,
    pub extra: Option<Extra>,
}

/// The values in a `DiagnosticData`.
pub struct Finding {
    pub code: DiagnosticCode,
    pub severity: Severity,
    pub krates: Seq<Kid>,
    pub message: MessageParts,
    pub locations: Seq<Place>,
    pub extra: Option<Extra>,
}

impl View for DiagnosticData {
    type V = Finding;

    open spec fn view(&self) -> Finding {
        Finding {
            code: self.code,
            severity: self.severity,
            krates: kids_of(self.krates),
            message: self.message@,
            locations: places_of(self.locations@),
            extra: self.extra,
        }
    }
}

/// The values in a list of data.
pub open spec fn findings_of(data: Seq<DiagnosticData>) -> Seq<Finding> {
    Seq::new(data.len(), |i: int| data[i]@)
}

/// Enum wrapper for processors
pub enum Processor<'a, L: LocationFinder> {
    Advisory(advisory::AdvisoryProcessor<'a, L>),
    Other(other::OtherProcessor<'a, L>),
}

/// Set of all processors, organized by diagnostic variant
pub struct ProcessorSet<'a, L: LocationFinder> {
    advisory: Processor<'a, L>,
    other: Processor<'a, L>,
}

impl<'a, L: LocationFinder> DiagnosticProcessor for Processor<'a, L> {
    open spec fn valid(&self) -> bool {
        match *self {
            Processor::Advisory(p) => p.grapher.krates.wf(),
            Processor::Other(p) => p.grapher.krates.wf(),
        }
    }

    open spec fn findings(&self, diag: Diag, files: Files) -> Seq<Finding> {
        match *self {
            Processor::Advisory(p) => p.found(diag, files),
            Processor::Other(p) => p.found(diag, files),
        }
    }

    fn process(&self, diag: Diag, files: &Files) -> (data: Vec<DiagnosticData>) {
        match self {
            Processor::Advisory(p) => p.process(diag, files),
            Processor::Other(p) => p.process(diag, files),
        }
    }
}

impl<'a, L: LocationFinder> ProcessorSet<'a, L> {
    /// The processor for advisories.
    pub closed spec fn for_advisories(self) -> Processor<'a, L> {
        self.advisory
    }

    /// The processor for everything else.
    pub closed spec fn for_others(self) -> Processor<'a, L> {
        self.other
    }

    pub fn new(grapher: &'a InclusionGrapher<'a>, locator: &'a L, feature_depth: u32) -> (set: Self)
        ensures
            set.for_advisories() == Processor::Advisory(
                (advisory::AdvisoryProcessor { grapher, locator, feature_depth }),
            ),
            set.for_others() == Processor::Other(
                (other::OtherProcessor { grapher, locator, feature_depth }),
            ),
    {
        Self {
            advisory: Processor::Advisory(
                advisory::AdvisoryProcessor::new(grapher, locator, feature_depth),
            ),
            other: Processor::Other(other::OtherProcessor::new(grapher, locator, feature_depth)),
        }
    }

    pub fn get(&self, code: DiagnosticCode) -> (processor: &Processor<'a, L>)
        ensures
            *processor == (if code is Advisory {
                self.for_advisories()
            } else {
                self.for_others()
            }),
    {
        match code {
            DiagnosticCode::Advisory(_) => &self.advisory,
            _ => &self.other,
        }
    }
}

/// The places of those of the marks that have one.
pub open spec fn mark_places(files: Files, marks: Seq<Mark>) -> Seq<Place>
    decreases marks.len(),
{
    if marks.len() == 0 {
        Seq::empty()
    } else {
        let before = mark_places(files, marks.drop_last());
        match files.location_of(marks.last()) {
            Some(location) => before.push(location@),
            None => before,
        }
    }
}

/// The locations of those of the labels that have one.
pub(crate) fn label_locations(files: &Files, labels: &Vec<Label>) -> (locations: Vec<Location>)
    ensures
        places_of(locations@) == mark_places(*files, marks_of(labels@)),
        files.wf() ==> forall|i: int|
            0 <= i < locations.len() ==> (#[trigger] locations@[i]).wf(),
{
    let mut locations: Vec<Location> = Vec::new();
    let ghost marks = marks_of(labels@);
    let mut i: usize = 0;
    assert(places_of(locations@) =~= mark_places(*files, marks.take(0)));
    while i < labels.len()
        invariant
            i <= labels.len(),
            marks == marks_of(labels@),
            places_of(locations@) == mark_places(*files, marks.take(i as int)),
            files.wf() ==> forall|j: int|
                0 <= j < locations.len() ==> (#[trigger] locations@[j]).wf(),
        decreases labels.len() - i,
    {
        assert(marks.take(i + 1).drop_last() =~= marks.take(i as int));
        if let Some(location) = files.sarif_location(&labels[i]) {
            let ghost before = places_of(locations@);
            let ghost place = location@;
            locations.push(location);
            assert(places_of(locations@) =~= before.push(place));
        }
        i += 1;
    }
    assert(marks.take(i as int) =~= marks);
    locations
}

/// The location of an advisory that no location was found for.
pub open spec fn unknown_place(uri: Seq<char>) -> Place {
    whole_file(uri, "Unable to determine dependency location"@)
}

/// Shared helper: Creates a dummy location for advisories when no actual location can be determined.
pub(crate) fn create_dummy_location(workspace_root: &str) -> (location: Location)
    ensures
        location@ == unknown_place(workspace_root@),
        location.wf(),
{
    Location::of_file(workspace_root.to_owned(), "Unable to determine dependency location")
}

/// The location of a crate that has no better one.
pub open spec fn krate_place(krate: Krate) -> Place {
    whole_file(
        match krate.source {
            Some(source) => "file://"@ + source@ + "#"@ + krate.name@ + "@"@ + krate.version.text(),
            None => "file://"@ + krate.manifest_path@,
        },
        "manifest file"@,
    )
}

/// Creates a location from a krate.
/// For registry crates, uses the source to make it clear it's not a workspace crate.
/// For local crates, uses the actual manifest path.
pub(crate) fn create_location_from_krate(krate: &Krate) -> (location: Location)
    ensures
        location@ == krate_place(*krate),
        location.wf(),
{
    let mut uri = "file://".to_owned();
    match &krate.source {
        Some(source) => {
            // The source shows that the crate is not one of the workspace.
            uri.append(source.as_str());
            uri.append("#");
            uri.append(krate.name.as_str());
            uri.append("@");
            krate.version.push_text(&mut uri);
        },
        None => {
            uri.append(krate.manifest_path.as_str());
        },
    }
    Location::of_file(uri, "manifest file")
}

} // verus!
