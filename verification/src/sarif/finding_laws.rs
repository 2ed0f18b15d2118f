//! What each finding says of its diagnostic, and where it is.

use crate::diag;
use crate::diag::files::Files;
use crate::diag::graph_laws::lemma_krate_at;
use crate::diag::grapher::Tree;
use crate::diag::paths::{end_at_project, paths_end_at_project, Path};
use crate::diag::shape_laws::{is_crate_node, lemma_no_krate};
use crate::diag::spans::KrateSpans;
use crate::diag::text_laws::{in_a_row, is_version_text, version_text_has_its_parts};
use crate::diag::{BansCode, Diag, DiagnosticCode, LabelStyle, Mark, Severity};
use crate::krate_graph::{krate_at, Krate, KrateGraph, Node};
use crate::sarif::collector::{
    advisory_findings, dense_graph_style, dense_numbered_style, dense_style, diag_findings,
    duplicate_finding, has_part, path_place, project_paths, root_places, same_part,
};
use crate::sarif::graphs::{depth, graph_paths, graphs_of, NumberedStyle};
use crate::sarif::laws::{is_path_place, root_places_are_distinct};
use crate::sarif::locator::{marks_of, path_mark, path_marks, LocationFinder, Locator};
use crate::sarif::message_laws::{graphs_are_shown_by_number, numbered_piece};
use crate::sarif::model::{MessageParts, Place};
use crate::sarif::place_laws::{
    declares, dependency_is_marked_where_declared, lemma_one_declaration,
    is_left_to_workspace, is_start_of_one, locations_are_where_paths_start, marks_declaration,
    starts_with,
};
use crate::sarif::processors::advisory::{
    advisory_message, findings_at, spaced_graph_style, spaced_style, AdvisoryProcessor,
};
use crate::sarif::processors::license::{license_finding, license_places, styled};
use crate::sarif::processors::other::{labelled_finding, other_style, OtherProcessor};
use crate::sarif::processors::{krate_place, mark_places, unknown_place, Finding};
use vstd::prelude::*;

verus! {

/// Whether a finding has the code, the severity, the crates and the extra of its
/// diagnostic.
pub open spec fn carries(diag: Diag, finding: Finding) -> bool {
    &&& diag.code == Some(finding.code)
    &&& finding.severity == diag.diag.severity
    &&& finding.extra == diag.extra
    &&& finding.krates.len() == diag.graph_nodes.len()
    &&& forall|i: int|
        0 <= i < finding.krates.len() ==> #[trigger] finding.krates[i] == diag.graph_nodes@[i].kid
}

/// Whether a finding has one location, which is `place`.
pub open spec fn is_only_at(finding: Finding, place: Place) -> bool {
    finding.locations.len() == 1 && finding.locations[0] == place
}

/// Whether a place is at the start of the file `uri`, with `message`.
pub open spec fn is_start_of_file(place: Place, uri: Seq<char>, message: Seq<char>) -> bool {
    &&& place.uri == uri
    &&& place.start_line == 1
    &&& place.byte_offset == 0
    &&& place.byte_length == 0
    &&& place.snippet is None
    &&& place.message matches Some(m) && m.text == message && m.markdown is None
}

/// Where places are known, an advisory gives exactly as many findings as there are
/// places: one for each, in order, whose only location is that place.
pub proof fn each_place_has_its_finding(
    diag: Diag,
    message: MessageParts,
    places: Seq<Place>,
    unknown: Place,
)
    requires
        diag.code is Some,
        places.len() > 0,
    ensures
        findings_at(diag, message, places, unknown).len() == places.len(),
        forall|i: int|
            #![trigger findings_at(diag, message, places, unknown)[i]]
            #![trigger places[i]]
            0 <= i < places.len() ==> {
                let finding = findings_at(diag, message, places, unknown)[i];
                &&& is_only_at(finding, places[i])
                &&& finding.message == message
                &&& carries(diag, finding)
            },
{
}

/// Where no place is known, an advisory gives one finding at the stand-in, whose
/// markdown is that of the message, or its text, with a note behind it.
pub proof fn advisory_without_place_has_a_note(diag: Diag, message: MessageParts, unknown: Place)
    requires
        diag.code is Some,
    ensures
        ({
            let found = findings_at(diag, message, Seq::empty(), unknown);
            let shown = match message.markdown {
                Some(md) => md,
                None => message.text,
            };
            &&& found.len() == 1
            &&& is_only_at(found[0], unknown)
            &&& carries(diag, found[0])
            &&& found[0].message.text == message.text
            &&& found[0].message.markdown matches Some(md) && md == shown
                + "\n\n---\n\n**Note:** Unable to determine the location of this vulnerability in your dependency tree. This may indicate an issue with cargo-deny's dependency graph analysis. Please report this issue to [cargo-deny](https://github.com/embarkstudios/cargo-deny/issues)."@
        }),
{
}

/// Whether `place` is where the declaration is that the dependency `d` of the
/// manifest `m` makes.
pub open spec fn is_place_of(
    spans: KrateSpans,
    files: Files,
    m: int,
    d: int,
    place: Place,
) -> bool {
    exists|mark: Mark| #[trigger]
        marks_declaration(spans, m, d, mark) && (files.location_of(mark) matches Some(location)
            && location@ == place)
}

/// Whether `place` is where the declaration is that one of the paths starts with.
pub open spec fn is_start_place(
    spans: KrateSpans,
    files: Files,
    paths: Seq<Path>,
    place: Place,
) -> bool {
    exists|i: int, m: int, d: int|
        0 <= i < paths.len() && #[trigger] starts_with(spans, paths[i], m, d) && is_place_of(
            spans,
            files,
            m,
            d,
            place,
        )
}

/// Whether two places are the same bytes of the same file.
pub open spec fn are_same_bytes(a: Place, b: Place) -> bool {
    &&& a.uri == b.uri
    &&& a.byte_offset == b.byte_offset
    &&& a.byte_length == b.byte_length
}

proof fn lemma_path_mark(spans: KrateSpans, path: Path)
    ensures
        path_mark(spans, path) matches Some(mark) ==> exists|m: int, d: int| #[trigger]
            starts_with(spans, path, m, d) && marks_declaration(spans, m, d, mark),
        path_mark(spans, path) is None ==> forall|m: int, d: int|
            !(#[trigger] starts_with(spans, path, m, d)),
{
    if path.crates.len() > 0 {
        let step = path.crates[0];
        dependency_is_marked_where_declared(spans, path.root_kid, step.name, step.version);
        if let Some(mark) = path_mark(spans, path) {
            let (m, d) = choose|m: int, d: int| #[trigger]
                declares(spans, path.root_kid, step.name, step.version, m, d) && marks_declaration(
                    spans,
                    m,
                    d,
                    mark,
                );
            assert(starts_with(spans, path, m, d));
        } else {
            assert forall|m: int, d: int| !(#[trigger] starts_with(spans, path, m, d)) by {
                if starts_with(spans, path, m, d) {
                    assert(declares(spans, path.root_kid, step.name, step.version, m, d));
                }
            }
        }
    }
}

/// There is one mark on a declaration.
proof fn lemma_one_mark(spans: KrateSpans, m: int, d: int, a: Mark, b: Mark)
    requires
        marks_declaration(spans, m, d, a),
        marks_declaration(spans, m, d, b),
    ensures
        a == b,
{
    let dep = spans.manifests@[m].deps@[d];
    assert(a.message =~= b.message);
    if exists|w: int| #[trigger] is_left_to_workspace(spans, dep, w) {
        let w = choose|w: int| #[trigger]
            is_left_to_workspace(spans, dep, w);
        assert(a.range == b.range);
    }
    assert(a.range == b.range);
}

proof fn lemma_path_place(spans: KrateSpans, files: Files, path: Path, m: int, d: int, place: Place)
    requires
        starts_with(spans, path, m, d),
        is_place_of(spans, files, m, d, place),
    ensures
        path_place(spans, files, path) == Some(place),
{
    lemma_path_mark(spans, path);
    assert(path_mark(spans, path) is Some);
    let mark = path_mark(spans, path)->0;
    let (n, e) = choose|n: int, e: int| #[trigger]
        starts_with(spans, path, n, e) && marks_declaration(spans, n, e, mark);
    let step = path.crates[0];
    lemma_one_declaration(spans, path.root_kid, step.name, step.version, m, d, n, e);
    let other = choose|other: Mark| #[trigger]
        marks_declaration(spans, m, d, other) && (files.location_of(other) matches Some(location)
            && location@ == place);
    lemma_one_mark(spans, m, d, mark, other);
}

proof fn lemma_is_start_place(spans: KrateSpans, files: Files, paths: Seq<Path>, i: int)
    requires
        0 <= i < paths.len(),
        path_place(spans, files, paths[i]) is Some,
    ensures
        is_start_place(spans, files, paths, path_place(spans, files, paths[i])->0),
{
    let place = path_place(spans, files, paths[i])->0;
    lemma_path_mark(spans, paths[i]);
    let mark = path_mark(spans, paths[i])->0;
    let (m, d) = choose|m: int, d: int| #[trigger]
        starts_with(spans, paths[i], m, d) && marks_declaration(spans, m, d, mark);
    assert(marks_declaration(spans, m, d, mark));
    assert(is_place_of(spans, files, m, d, place));
    assert(starts_with(spans, paths[i], m, d));
}

/// Whether some places are those of the declarations that the paths start with: each
/// of them is one, each of these is among them, and none is there twice.
pub open spec fn are_where_paths_start(
    spans: KrateSpans,
    files: Files,
    paths: Seq<Path>,
    places: Seq<Place>,
) -> bool {
    &&& forall|k: int|
        0 <= k < places.len() ==> #[trigger] is_start_place(spans, files, paths, places[k])
    &&& forall|place: Place| #[trigger]
        is_start_place(spans, files, paths, place) ==> exists|k: int|
            0 <= k < places.len() && are_same_bytes(#[trigger] places[k], place)
    &&& forall|j: int, k: int|
        #![trigger places[j], places[k]]
        0 <= j < k < places.len() ==> !are_same_bytes(places[j], places[k])
}

/// The places that are found for some paths are those of the declarations that the
/// paths start with: each of them is one, each of these is among them, and none is
/// there twice. More paths only add places behind them.
pub proof fn places_are_where_paths_start(
    spans: KrateSpans,
    files: Files,
    paths: Seq<Path>,
    more: Seq<Path>,
)
    ensures
        are_where_paths_start(spans, files, paths, root_places(spans, files, paths)),
        root_places(spans, files, paths).is_prefix_of(root_places(spans, files, paths + more)),
{
    let places = root_places(spans, files, paths);
    root_places_are_distinct(spans, files, paths);
    assert forall|k: int| 0 <= k < places.len() implies #[trigger] is_start_place(
        spans,
        files,
        paths,
        places[k],
    ) by {
        assert(is_path_place(spans, files, paths, places[k]));
        let i = choose|i: int|
            0 <= i < paths.len() && path_place(spans, files, #[trigger] paths[i]) == Some(
                places[k],
            );
        lemma_is_start_place(spans, files, paths, i);
    }
    assert forall|place: Place| #[trigger] is_start_place(
        spans,
        files,
        paths,
        place,
    ) implies exists|k: int|
        0 <= k < places.len() && are_same_bytes(#[trigger] places[k], place) by {
        let (i, m, d) = choose|i: int, m: int, d: int|
            0 <= i < paths.len() && #[trigger] starts_with(spans, paths[i], m, d) && is_place_of(
                spans,
                files,
                m,
                d,
                place,
            );
        lemma_path_place(spans, files, paths[i], m, d, place);
        assert(path_place(spans, files, paths[i]) == Some(place));
        assert(has_part(places, place));
        let k = choose|k: int| 0 <= k < places.len() && same_part(#[trigger] places[k], place);
        assert(are_same_bytes(places[k], place));
    }
    assert forall|j: int, k: int| #![trigger places[j], places[k]] 0 <= j < k
        < places.len() implies !are_same_bytes(places[j], places[k]) by {
        assert(!same_part(places[j], places[k]));
    }
    lemma_places_prefix(spans, files, paths, more);
}

proof fn lemma_places_prefix(spans: KrateSpans, files: Files, paths: Seq<Path>, more: Seq<Path>)
    ensures
        root_places(spans, files, paths).is_prefix_of(root_places(spans, files, paths + more)),
    decreases more.len(),
{
    if more.len() == 0 {
        assert(paths + more =~= paths);
    } else {
        assert((paths + more).drop_last() =~= paths + more.drop_last());
        lemma_places_prefix(spans, files, paths, more.drop_last());
        let a = root_places(spans, files, paths);
        let b = root_places(spans, files, paths + more.drop_last());
        let c = root_places(spans, files, paths + more);
        assert(b.is_prefix_of(c)) by {
            assert(c.take(b.len() as int) =~= b);
        }
        assert(c.take(a.len() as int) =~= a) by {
            assert(b.take(a.len() as int) =~= a);
        }
    }
}

/// Whether some place is where a path starts.
pub open spec fn is_located_somewhere(spans: KrateSpans, files: Files, paths: Seq<Path>) -> bool {
    exists|place: Place| #[trigger] is_start_place(spans, files, paths, place)
}

/// Whether each finding carries its diagnostic and has one location, and whether a
/// finding is at each place where one of the paths starts and at no other; where there
/// is no such place, whether one finding is at the start of the file `uri`.
pub open spec fn reports_where_paths_start(
    spans: KrateSpans,
    files: Files,
    paths: Seq<Path>,
    diag: Diag,
    found: Seq<Finding>,
    uri: Seq<char>,
) -> bool {
    &&& forall|k: int|
        #![trigger found[k]]
        0 <= k < found.len() ==> found[k].locations.len() == 1 && carries(diag, found[k])
    &&& if is_located_somewhere(spans, files, paths) {
        &&& forall|k: int|
            0 <= k < found.len() ==> #[trigger] is_start_place(
                spans,
                files,
                paths,
                found[k].locations[0],
            )
        &&& forall|place: Place| #[trigger]
            is_start_place(spans, files, paths, place) ==> exists|k: int|
                0 <= k < found.len() && are_same_bytes((#[trigger] found[k]).locations[0], place)
    } else {
        &&& found.len() == 1
        &&& is_start_of_file(
            found[0].locations[0],
            uri,
            "Unable to determine dependency location"@,
        )
    }
}

proof fn lemma_reports(
    spans: KrateSpans,
    files: Files,
    paths: Seq<Path>,
    diag: Diag,
    message: MessageParts,
    places: Seq<Place>,
    uri: Seq<char>,
)
    requires
        diag.code is Some,
        forall|k: int|
            0 <= k < places.len() ==> #[trigger] is_start_place(spans, files, paths, places[k]),
        forall|place: Place| #[trigger]
            is_start_place(spans, files, paths, place) ==> exists|k: int|
                0 <= k < places.len() && are_same_bytes(#[trigger] places[k], place),
    ensures
        reports_where_paths_start(
            spans,
            files,
            paths,
            diag,
            findings_at(diag, message, places, unknown_place(uri)),
            uri,
        ),
{
    let found = findings_at(diag, message, places, unknown_place(uri));
    if places.len() > 0 {
        each_place_has_its_finding(diag, message, places, unknown_place(uri));
        assert(is_start_place(spans, files, paths, places[0]));
        assert forall|k: int| 0 <= k < found.len() implies #[trigger] is_start_place(
            spans,
            files,
            paths,
            found[k].locations[0],
        ) by {
            assert(found[k].locations[0] == places[k]);
        }
        assert forall|place: Place| #[trigger] is_start_place(
            spans,
            files,
            paths,
            place,
        ) implies exists|k: int|
            0 <= k < found.len() && are_same_bytes((#[trigger] found[k]).locations[0], place) by {
            let k = choose|k: int|
                0 <= k < places.len() && are_same_bytes(#[trigger] places[k], place);
            assert(found[k].locations[0] == places[k]);
        }
    } else {
        assert(places =~= Seq::empty());
        assert forall|place: Place| !(#[trigger] is_start_place(spans, files, paths, place)) by {
            if is_start_place(spans, files, paths, place) {
                let k = choose|k: int|
                    0 <= k < places.len() && are_same_bytes(#[trigger] places[k], place);
            }
        }
        advisory_without_place_has_a_note(diag, message, unknown_place(uri));
        assert(found[0].locations[0] == unknown_place(uri));
    }
}

/// An advisory is reported once for each part of a file where the project declares
/// a dependency that leads to the crates: by a finding whose only location is there.
/// Where there is none, it is reported at the start of the manifest.
pub proof fn advisory_is_reported_at_each_declaration(
    g: KrateGraph,
    spans: KrateSpans,
    max: nat,
    diag: Diag,
    files: Files,
)
    requires
        diag.code is Some,
    ensures
        reports_where_paths_start(
            spans,
            files,
            graph_paths(graphs_of(g, diag.graph_nodes@, max)),
            diag,
            advisory_findings(g, spans, max, diag, files),
            "Cargo.toml"@,
        ),
        are_apart(advisory_findings(g, spans, max, diag, files)),
{
    let graphs = graphs_of(g, diag.graph_nodes@, max);
    let paths = graph_paths(graphs);
    let places = root_places(spans, files, paths);
    let message = advisory_message(dense_style(), dense_graph_style(), diag, graphs);
    places_are_where_paths_start(spans, files, paths, Seq::empty());
    lemma_reports(spans, files, paths, diag, message, places, "Cargo.toml"@);
    lemma_apart(diag, message, places, unknown_place("Cargo.toml"@));
}

/// Whether no two findings are at the same bytes of the same file.
pub open spec fn are_apart(found: Seq<Finding>) -> bool {
    forall|j: int, k: int|
        #![trigger found[j], found[k]]
        0 <= j < k < found.len() ==> !are_same_bytes(found[j].locations[0], found[k].locations[0])
}

proof fn lemma_apart(diag: Diag, message: MessageParts, places: Seq<Place>, unknown: Place)
    requires
        diag.code is Some,
        forall|j: int, k: int|
            #![trigger places[j], places[k]]
            0 <= j < k < places.len() ==> !are_same_bytes(places[j], places[k]),
    ensures
        are_apart(findings_at(diag, message, places, unknown)),
{
    let found = findings_at(diag, message, places, unknown);
    if places.len() > 0 {
        each_place_has_its_finding(diag, message, places, unknown);
        assert forall|j: int, k: int| #![trigger found[j], found[k]] 0 <= j < k
            < found.len() implies !are_same_bytes(
            found[j].locations[0],
            found[k].locations[0],
        ) by {
            assert(found[j].locations[0] == places[j]);
            assert(found[k].locations[0] == places[k]);
        }
    }
}

/// The places of marks in a row are those of each mark that has one, in order.
pub proof fn places_add_up(files: Files, a: Seq<Mark>, b: Seq<Mark>, mark: Mark)
    ensures
        mark_places(files, a + b) == mark_places(files, a) + mark_places(files, b),
        match files.location_of(mark) {
            Some(location) => mark_places(files, seq![mark]) == seq![location@],
            None => mark_places(files, seq![mark]) == Seq::<Place>::empty(),
        },
        mark_places(files, Seq::empty()) == Seq::<Place>::empty(),
    decreases b.len(),
{
    reveal_with_fuel(mark_places, 2);
    assert(seq![mark].drop_last() =~= Seq::empty());
    if let Some(location) = files.location_of(mark) {
        assert(mark_places(files, seq![mark]) =~= seq![location@]);
    }
    if b.len() == 0 {
        assert(a + b =~= a);
        assert(mark_places(files, a) + mark_places(files, b) =~= mark_places(files, a));
    } else {
        assert((a + b).drop_last() =~= a + b.drop_last());
        places_add_up(files, a, b.drop_last(), mark);
        assert(mark_places(files, a + b) =~= mark_places(files, a) + mark_places(files, b));
    }
}

proof fn lemma_place_of_mark(files: Files, marks: Seq<Mark>, place: Place)
    ensures
        mark_places(files, marks).contains(place) <==> exists|i: int|
            0 <= i < marks.len() && (files.location_of(#[trigger] marks[i]) matches Some(location)
                && location@ == place),
    decreases marks.len(),
{
    let all = mark_places(files, marks);
    if marks.len() > 0 {
        let rest = marks.drop_last();
        let before = mark_places(files, rest);
        lemma_place_of_mark(files, rest, place);
        if all.contains(place) {
            let k = choose|k: int| 0 <= k < all.len() && all[k] == place;
            if k < before.len() {
                assert(before[k] == place);
                let i = choose|i: int|
                    0 <= i < rest.len() && (files.location_of(#[trigger] rest[i]) matches Some(
                        location,
                    ) && location@ == place);
                assert(marks[i] == rest[i]);
            } else {
                assert(marks[marks.len() - 1] == marks.last());
            }
        }
        if exists|i: int|
            0 <= i < marks.len() && (files.location_of(#[trigger] marks[i]) matches Some(location)
                && location@ == place) {
            let i = choose|i: int|
                0 <= i < marks.len() && (files.location_of(#[trigger] marks[i]) matches Some(
                    location,
                ) && location@ == place);
            if i < rest.len() {
                assert(rest[i] == marks[i]);
                let k = choose|k: int| 0 <= k < before.len() && before[k] == place;
                assert(all[k] == place);
            } else {
                assert(all[before.len() as int] == place);
            }
        }
    }
}

/// The processor for advisories reports a finding for each declaration that a path
/// starts with and that has a location, whose only location it is; where there is
/// none, one at the root of the workspace.
pub proof fn processor_reports_each_declaration(
    processor: AdvisoryProcessor<'_, Locator<'_>>,
    diag: Diag,
    files: Files,
)
    requires
        diag.code is Some,
    ensures
        reports_where_paths_start(
            processor.locator.spans(),
            files,
            graph_paths(
                graphs_of(
                    *processor.grapher.krates,
                    diag.graph_nodes@,
                    if diag.with_features {
                        processor.feature_depth as nat
                    } else {
                        0
                    },
                ),
            ),
            diag,
            processor.found(diag, files),
            processor.grapher.krates.workspace_root@,
        ),
{
    let g = *processor.grapher.krates;
    let spans = processor.locator.spans();
    let max = depth(processor.feature_depth, diag.with_features);
    let graphs = graphs_of(g, diag.graph_nodes@, max);
    let paths = graph_paths(graphs);
    let message = advisory_message(spaced_style(), spaced_graph_style(), diag, graphs);
    let marks = path_marks(spans, paths);
    assert(processor.locator.project_marks(paths) == marks);
    let places = if paths.len() > 0 {
        mark_places(files, marks)
    } else {
        Seq::empty()
    };
    lemma_marked_places(spans, files, paths, places);
    lemma_reports(spans, files, paths, diag, message, places, g.workspace_root@);
}

proof fn lemma_marked_places(
    spans: KrateSpans,
    files: Files,
    paths: Seq<Path>,
    places: Seq<Place>,
)
    requires
        paths.len() > 0 ==> places == mark_places(files, path_marks(spans, paths)),
        paths.len() == 0 ==> places.len() == 0,
    ensures
        forall|k: int|
            0 <= k < places.len() ==> #[trigger] is_start_place(spans, files, paths, places[k]),
        forall|place: Place| #[trigger]
            is_start_place(spans, files, paths, place) ==> exists|k: int|
                0 <= k < places.len() && are_same_bytes(#[trigger] places[k], place),
{
    assert forall|k: int| 0 <= k < places.len() implies #[trigger] is_start_place(
        spans,
        files,
        paths,
        places[k],
    ) by {
        lemma_marked_place_is_start(spans, files, paths, places, k);
    }
    assert forall|place: Place| #[trigger] is_start_place(
        spans,
        files,
        paths,
        place,
    ) implies exists|k: int|
        0 <= k < places.len() && are_same_bytes(#[trigger] places[k], place) by {
        let n = lemma_start_is_marked_place(spans, files, paths, places, place);
        assert(are_same_bytes(places[n], place));
    }
}

proof fn lemma_marked_place_is_start(
    spans: KrateSpans,
    files: Files,
    paths: Seq<Path>,
    places: Seq<Place>,
    k: int,
)
    requires
        places == mark_places(files, path_marks(spans, paths)),
        0 <= k < places.len(),
    ensures
        is_start_place(spans, files, paths, places[k]),
{
    let marks = path_marks(spans, paths);
    assert(places.contains(places[k]));
    lemma_place_of_mark(files, marks, places[k]);
    let j = choose|j: int|
        0 <= j < marks.len() && (files.location_of(#[trigger] marks[j]) matches Some(location)
            && location@ == places[k]);
    assert(is_start_of_one(spans, paths, marks[j])) by {
        locations_are_where_paths_start(spans, paths);
    }
    let (i, m, d) = choose|i: int, m: int, d: int|
        0 <= i < paths.len() && #[trigger] starts_with(spans, paths[i], m, d)
            && marks_declaration(spans, m, d, marks[j]);
    assert(is_place_of(spans, files, m, d, places[k]));
    assert(starts_with(spans, paths[i], m, d));
}

proof fn lemma_start_is_marked_place(
    spans: KrateSpans,
    files: Files,
    paths: Seq<Path>,
    places: Seq<Place>,
    place: Place,
) -> (n: int)
    requires
        paths.len() > 0 ==> places == mark_places(files, path_marks(spans, paths)),
        is_start_place(spans, files, paths, place),
    ensures
        0 <= n < places.len(),
        places[n] == place,
{
    let marks = path_marks(spans, paths);
    let (i, m, d) = choose|i: int, m: int, d: int|
        0 <= i < paths.len() && #[trigger] starts_with(spans, paths[i], m, d) && is_place_of(
            spans,
            files,
            m,
            d,
            place,
        );
    let other = choose|other: Mark| #[trigger]
        marks_declaration(spans, m, d, other) && (files.location_of(other) matches Some(location)
            && location@ == place);
    let k = lemma_declaration_is_marked(spans, paths, i, m, d);
    lemma_one_mark(spans, m, d, other, marks[k]);
    assert(files.location_of(marks[k]) is Some);
    lemma_place_of_mark(files, marks, place);
    choose|n: int| 0 <= n < places.len() && places[n] == place
}

proof fn lemma_declaration_is_marked(
    spans: KrateSpans,
    paths: Seq<Path>,
    i: int,
    m: int,
    d: int,
) -> (k: int)
    requires
        0 <= i < paths.len(),
        starts_with(spans, paths[i], m, d),
    ensures
        0 <= k < path_marks(spans, paths).len(),
        marks_declaration(spans, m, d, path_marks(spans, paths)[k]),
{
    let marks = path_marks(spans, paths);
    locations_are_where_paths_start(spans, paths);
    choose|k: int| 0 <= k < marks.len() && marks_declaration(spans, m, d, #[trigger] marks[k])
}

/// A ban on duplicates is at the places where the paths to its crates start, each
/// part of a file once.
pub proof fn duplicate_is_where_paths_start(
    g: KrateGraph,
    spans: KrateSpans,
    max: nat,
    diag: Diag,
    files: Files,
)
    requires
        diag.code is Some,
    ensures
        carries(diag, duplicate_finding(g, spans, max, diag, files)),
        are_where_paths_start(
            spans,
            files,
            graph_paths(graphs_of(g, diag.graph_nodes@, max)),
            duplicate_finding(g, spans, max, diag, files).locations,
        ),
{
    let graphs = graphs_of(g, diag.graph_nodes@, max);
    let paths = graph_paths(graphs);
    lemma_paths_end_at_project(graphs);
    lemma_all_are_project_paths(paths);
    places_are_where_paths_start(spans, files, paths, Seq::empty());
}

proof fn lemma_paths_end_at_project(graphs: Seq<Tree>)
    ensures
        end_at_project(graph_paths(graphs)),
    decreases graphs.len(),
{
    if graphs.len() > 0 {
        lemma_paths_end_at_project(graphs.drop_last());
        paths_end_at_project(graphs.last(), Seq::empty());
    }
}

proof fn lemma_all_are_project_paths(paths: Seq<Path>)
    requires
        end_at_project(paths),
    ensures
        project_paths(paths) == paths,
    decreases paths.len(),
{
    reveal(Seq::filter);
    if paths.len() > 0 {
        assert(end_at_project(paths.drop_last()));
        lemma_all_are_project_paths(paths.drop_last());
        assert(paths[paths.len() - 1].is_project_crate);
        assert(project_paths(paths) =~= paths);
    } else {
        assert(project_paths(paths) =~= paths);
    }
}

/// Any other diagnostic is where its labels are.
pub proof fn others_are_where_their_labels_are(
    style: NumberedStyle,
    g: KrateGraph,
    max: nat,
    diag: Diag,
    files: Files,
    place: Place,
)
    requires
        diag.code is Some,
    ensures
        carries(diag, labelled_finding(style, g, max, diag, files)),
        labelled_finding(style, g, max, diag, files).locations.contains(place) <==> exists|i: int|
            0 <= i < diag.diag.labels.len() && (files.location_of(
                (#[trigger] diag.diag.labels@[i])@,
            ) matches Some(location) && location@ == place),
{
    let marks = marks_of(diag.diag.labels@);
    lemma_place_of_mark(files, marks, place);
    if exists|i: int|
        0 <= i < diag.diag.labels.len() && (files.location_of(
            (#[trigger] diag.diag.labels@[i])@,
        ) matches Some(location) && location@ == place) {
        let i = choose|i: int|
            0 <= i < diag.diag.labels.len() && (files.location_of(
                (#[trigger] diag.diag.labels@[i])@,
            ) matches Some(location) && location@ == place);
        assert(marks[i] == diag.diag.labels@[i]@);
    }
    if exists|i: int|
        0 <= i < marks.len() && (files.location_of(#[trigger] marks[i]) matches Some(location)
            && location@ == place) {
        let i = choose|i: int|
            0 <= i < marks.len() && (files.location_of(#[trigger] marks[i]) matches Some(location)
                && location@ == place);
        assert(marks[i] == diag.diag.labels@[i]@);
    }
}

/// Which of some labels a license diagnostic is at: the first primary one or, where
/// none is primary, the first.
pub open spec fn is_main_mark(marks: Seq<Mark>, i: int) -> bool {
    &&& 0 <= i < marks.len()
    &&& marks[i].style == LabelStyle::Primary ==> forall|j: int|
        0 <= j < i ==> (#[trigger] marks[j]).style != LabelStyle::Primary
    &&& marks[i].style != LabelStyle::Primary ==> i == 0 && forall|j: int|
        0 <= j < marks.len() ==> (#[trigger] marks[j]).style != LabelStyle::Primary
}

/// Whether a place stands for a crate: by its source, its name and its version or,
/// where it is local, by its manifest.
pub open spec fn stands_for_krate(place: Place, krate: Krate) -> bool {
    match krate.source {
        Some(source) => exists|v: Seq<char>| #[trigger]
            is_version_text(krate.version, v) && is_start_of_file(
                place,
                "file://"@ + source@ + seq!['#'] + krate.name@ + seq!['@'] + v,
                "manifest file"@,
            ),
        None => is_start_of_file(place, "file://"@ + krate.manifest_path@, "manifest file"@),
    }
}

/// The place of a crate names it, by its source where it has one and by its manifest
/// where it is local.
pub proof fn krate_place_names_the_krate(krate: Krate)
    ensures
        stands_for_krate(krate_place(krate), krate),
{
    reveal_strlit("#");
    reveal_strlit("@");
    assert("#"@ =~= seq!['#']);
    assert("@"@ =~= seq!['@']);
    version_text_has_its_parts(krate.version);
}

proof fn lemma_styled(marks: Seq<Mark>, style: LabelStyle)
    ensures
        styled(marks, style).len() == 0 <==> forall|j: int|
            0 <= j < marks.len() ==> (#[trigger] marks[j]).style != style,
        styled(marks, style).len() > 0 ==> exists|i: int|
            #![trigger marks[i]]
            0 <= i < marks.len() && marks[i].style == style && marks[i] == styled(marks, style)[0]
                && forall|j: int| 0 <= j < i ==> (#[trigger] marks[j]).style != style,
    decreases marks.len(),
{
    reveal(Seq::filter);
    let keep = |mark: Mark| mark.style == style;
    if marks.len() > 0 {
        let rest = marks.drop_last();
        lemma_styled(rest, style);
        assert(marks.filter(keep) == (if keep(marks.last()) {
            rest.filter(keep).push(marks.last())
        } else {
            rest.filter(keep)
        }));
        assert(forall|j: int| 0 <= j < rest.len() ==> #[trigger] marks[j] == rest[j]);
        assert(marks[marks.len() - 1] == marks.last());
        if styled(rest, style).len() > 0 {
            let i = choose|i: int|
                #![trigger rest[i]]
                0 <= i < rest.len() && rest[i].style == style && rest[i] == styled(rest, style)[0]
                    && forall|j: int| 0 <= j < i ==> (#[trigger] rest[j]).style != style;
            assert(marks[i] == rest[i]);
            assert(styled(marks, style)[0] == styled(rest, style)[0]);
            assert(marks[i].style == style);
        } else {
            assert forall|j: int| 0 <= j < rest.len() implies (#[trigger] marks[j]).style
                != style by {
                assert(marks[j] == rest[j]);
            }
        }
    }
}

/// A license diagnostic is where its first primary label is, or its first label
/// where none is primary. If that is nowhere, it is where its first crate is.
pub proof fn license_is_where_its_label_is(
    g: KrateGraph,
    nodes: Seq<diag::GraphNode>,
    marks: Seq<Mark>,
    files: Files,
)
    requires
        g.wf(),
    ensures
        ({
            let places = license_places(g, nodes, marks, files);
            &&& forall|i: int| #[trigger]
                is_main_mark(marks, i) ==> (files.location_of(marks[i]) matches Some(location)
                    ==> places.len() == 1 && places[0] == location@)
            &&& !(exists|i: int| #[trigger]
                is_main_mark(marks, i) && files.location_of(marks[i]) is Some) ==> {
                &&& nodes.len() == 0 ==> places.len() == 0
                &&& nodes.len() > 0 && (forall|n: int| !(#[trigger]
                is_crate_node(g, n, nodes[0].kid))) ==> places.len() == 0
                &&& nodes.len() > 0 && (exists|n: int| #[trigger]
                    is_crate_node(g, n, nodes[0].kid)) ==> places.len() == 1 && exists|n: int|
                    #[trigger]
                    is_crate_node(g, n, nodes[0].kid) && (g.nodes@[n] matches Node::Krate { krate }
                        && stands_for_krate(places[0], krate))
            }
        }),
{
    let places = license_places(g, nodes, marks, files);
    let primary = styled(marks, LabelStyle::Primary);
    lemma_styled(marks, LabelStyle::Primary);
    let main = if primary.len() > 0 {
        choose|i: int|
            #![trigger marks[i]]
            0 <= i < marks.len() && marks[i].style == LabelStyle::Primary && marks[i] == primary[0]
                && forall|j: int|
                0 <= j < i ==> (#[trigger] marks[j]).style != LabelStyle::Primary
    } else {
        0
    };
    assert forall|i: int| #[trigger] is_main_mark(marks, i) implies i == main by {
        if i < main {
            assert(marks[i].style != LabelStyle::Primary);
            assert(marks[main].style != LabelStyle::Primary);
        } else if main < i {
            assert(marks[main].style != LabelStyle::Primary);
        }
    }
    if marks.len() > 0 {
        assert(is_main_mark(marks, main));
    }
    if nodes.len() > 0 {
        let kid = nodes[0].kid;
        match krate_at(g.nodes@, kid, 0) {
            Some(n) => {
                lemma_krate_at(g.nodes@, kid, 0);
                assert(is_crate_node(g, n, kid));
                krate_place_names_the_krate(g.nodes@[n]->krate);
            },
            None => {
                assert forall|n: int| !(#[trigger] is_crate_node(g, n, kid)) by {
                    if is_crate_node(g, n, kid) {
                        lemma_no_krate(g.nodes@, kid, 0, n);
                    }
                }
            },
        }
    }
}

/// A license diagnostic gives a finding that carries it.
pub proof fn license_finding_carries(g: KrateGraph, max: nat, diag: Diag, files: Files)
    requires
        diag.code is Some,
    ensures
        carries(diag, license_finding(g, max, diag, files)),
        license_finding(g, max, diag, files).message.text == diag.diag.message@,
{
}

/// Whether the message of a finding is that of its diagnostic; as markdown it has the
/// graph of each node that exists behind it.
pub open spec fn shows_numbered_graphs(
    finding: Finding,
    style: NumberedStyle,
    g: KrateGraph,
    max: nat,
    diag: Diag,
) -> bool {
    let message = diag.diag.message@;
    let nodes = diag.graph_nodes@;
    &&& finding.message.text == message
    &&& finding.message.markdown == Some(
        message + in_a_row(
            Seq::new(nodes.len(), |i: int| numbered_piece(style, message, g, nodes, max, i)),
        ),
    )
}

/// The processor for what has none of its own reports one finding, which is where the
/// labels are and shows the graphs.
pub proof fn other_processor_reports_one_finding<L: LocationFinder>(
    processor: OtherProcessor<'_, L>,
    diag: Diag,
    files: Files,
)
    requires
        diag.code is Some,
    ensures
        processor.found(diag, files).len() == 1,
        carries(diag, processor.found(diag, files)[0]),
        processor.found(diag, files)[0].locations == mark_places(
            files,
            marks_of(diag.diag.labels@),
        ),
        shows_numbered_graphs(
            processor.found(diag, files)[0],
            other_style(),
            *processor.grapher.krates,
            if diag.with_features {
                processor.feature_depth as nat
            } else {
                0
            },
            diag,
        ),
{
    graphs_are_shown_by_number(
        other_style(),
        diag.diag.message@,
        *processor.grapher.krates,
        diag.graph_nodes@,
        depth(processor.feature_depth, diag.with_features),
    );
}

/// Every finding of an advisory that is located has the same message: that of the
/// advisory, with the first of its graphs.
pub proof fn located_advisory_keeps_its_message(
    g: KrateGraph,
    spans: KrateSpans,
    max: nat,
    diag: Diag,
    files: Files,
    i: int,
)
    requires
        diag.code is Some,
        0 <= i < advisory_findings(g, spans, max, diag, files).len(),
        root_places(spans, files, graph_paths(graphs_of(g, diag.graph_nodes@, max))).len() > 0,
    ensures
        advisory_findings(g, spans, max, diag, files)[i].message == advisory_message(
            dense_style(),
            dense_graph_style(),
            diag,
            graphs_of(g, diag.graph_nodes@, max),
        ),
{
    let graphs = graphs_of(g, diag.graph_nodes@, max);
    let places = root_places(spans, files, graph_paths(graphs));
    let message = advisory_message(dense_style(), dense_graph_style(), diag, graphs);
    each_place_has_its_finding(diag, message, places, unknown_place("Cargo.toml"@));
}

/// A diagnostic is reported by its code: an advisory at each declaration, a license
/// by its label, a ban on duplicates where the paths to its crates start, and
/// anything else by its labels. Nothing is reported of what is only a note or a help,
/// nor of what has no code.
pub proof fn code_decides_the_report(
    g: KrateGraph,
    spans: KrateSpans,
    feature_depth: u32,
    diag: Diag,
    files: Files,
)
    ensures
        ({
            let found = diag_findings(g, spans, feature_depth, diag, files);
            let max = if diag.with_features {
                feature_depth as nat
            } else {
                0
            };
            if diag.diag.severity == Severity::Note || diag.diag.severity == Severity::Help {
                found.len() == 0
            } else {
                match diag.code {
                    None => found.len() == 0,
                    Some(DiagnosticCode::Advisory(_)) => reports_where_paths_start(
                        spans,
                        files,
                        graph_paths(graphs_of(g, diag.graph_nodes@, max)),
                        diag,
                        found,
                        "Cargo.toml"@,
                    ),
                    Some(DiagnosticCode::License(_)) => found.len() == 1 && carries(
                        diag,
                        found[0],
                    ) && found[0].message == license_finding(g, max, diag, files).message
                        && found[0].locations == license_places(
                        g,
                        diag.graph_nodes@,
                        marks_of(diag.diag.labels@),
                        files,
                    ),
                    Some(DiagnosticCode::Bans(BansCode::Duplicate(_))) => found.len() == 1
                        && carries(diag, found[0]) && shows_numbered_graphs(
                        found[0],
                        dense_numbered_style(),
                        g,
                        max,
                        diag,
                    ) && found[0].locations == root_places(
                        spans,
                        files,
                        project_paths(graph_paths(graphs_of(g, diag.graph_nodes@, max))),
                    ),
                    Some(_) => found.len() == 1 && carries(diag, found[0])
                        && shows_numbered_graphs(
                        found[0],
                        dense_numbered_style(),
                        g,
                        max,
                        diag,
                    ) && found[0].locations
                        == mark_places(files, marks_of(diag.diag.labels@)),
                }
            }
        }),
{
    let max = depth(feature_depth, diag.with_features);
    match diag.code {
        Some(DiagnosticCode::Advisory(_)) => {
            advisory_is_reported_at_each_declaration(g, spans, max, diag, files);
        },
        Some(_) => {
            graphs_are_shown_by_number(
                dense_numbered_style(),
                diag.diag.message@,
                g,
                diag.graph_nodes@,
                max,
            );
        },
        None => {},
    }
}

} // verus!
