//! Which declaration each location of a dependency points to.

use crate::diag::files::{location_at, position_at, Files, Position, ResolvedLabel};
use crate::diag::paths::Path;
use crate::diag::shape_laws::equal_kids;
use crate::diag::spans::{
    manifest_at, workspace_span_at, KrateSpans, Manifest, ManifestDep, WorkspaceSpan,
};
use crate::diag::{LabelStyle, Mark, Span};
use crate::krate_graph::{Kid, Version};
use crate::sarif::locator::{
    declaration, dep_at, dependency_mark, merged_covers_both, path_mark, path_marks,
    path_marks_are_the_declarations,
};
use vstd::prelude::*;

verus! {

/// Whether the manifest at `i` is the first one of `kid`.
pub open spec fn is_manifest_of(spans: KrateSpans, kid: Kid, i: int) -> bool {
    &&& 0 <= i < spans.manifests.len()
    &&& equal_kids(spans.manifests@[i].kid, kid)
    &&& forall|j: int| 0 <= j < i ==> !equal_kids((#[trigger] spans.manifests@[j]).kid, kid)
}

/// Whether what the workspace declares at `i` is the first declaration of `kid`.
pub open spec fn is_workspace_span_of(spans: KrateSpans, kid: Kid, i: int) -> bool {
    &&& 0 <= i < spans.workspace_spans.len()
    &&& equal_kids(spans.workspace_spans@[i].kid, kid)
    &&& forall|j: int|
        0 <= j < i ==> !equal_kids((#[trigger] spans.workspace_spans@[j]).kid, kid)
}

proof fn lemma_manifest_at(manifests: Seq<Manifest>, kid: Kid, from: int)
    requires
        0 <= from <= manifests.len(),
    ensures
        match manifest_at(manifests, kid, from) {
            Some(i) => {
                &&& from <= i < manifests.len()
                &&& equal_kids(manifests[i].kid, kid)
                &&& forall|j: int|
                    from <= j < i ==> !equal_kids((#[trigger] manifests[j]).kid, kid)
            },
            None => forall|j: int|
                from <= j < manifests.len() ==> !equal_kids((#[trigger] manifests[j]).kid, kid),
        },
    decreases manifests.len() - from,
{
    if from < manifests.len() && !equal_kids(manifests[from].kid, kid) {
        lemma_manifest_at(manifests, kid, from + 1);
    }
}

proof fn lemma_workspace_span_at(spans: Seq<WorkspaceSpan>, kid: Kid, from: int)
    requires
        0 <= from <= spans.len(),
    ensures
        match workspace_span_at(spans, kid, from) {
            Some(i) => {
                &&& from <= i < spans.len()
                &&& equal_kids(spans[i].kid, kid)
                &&& forall|j: int| from <= j < i ==> !equal_kids((#[trigger] spans[j]).kid, kid)
            },
            None => forall|j: int|
                from <= j < spans.len() ==> !equal_kids((#[trigger] spans[j]).kid, kid),
        },
    decreases spans.len() - from,
{
    if from < spans.len() && !equal_kids(spans[from].kid, kid) {
        lemma_workspace_span_at(spans, kid, from + 1);
    }
}

/// The manifest that is found for a crate has the name, the version and the source of
/// the crate; one is found wherever the list holds one, and it is the first of them.
pub proof fn manifest_is_that_of_the_crate(spans: KrateSpans, kid: Kid)
    ensures
        spans.manifest_of(kid) matches Some(manifest) ==> {
            &&& manifest.kid.name@ == kid.name@
            &&& manifest.kid.version@ == kid.version@
            &&& manifest.kid.source@ == kid.source@
            &&& exists|i: int| #[trigger]
                is_manifest_of(spans, kid, i) && spans.manifests@[i] == manifest
        },
        spans.manifest_of(kid) is None ==> forall|i: int|
            0 <= i < spans.manifests.len() ==> !equal_kids(
                (#[trigger] spans.manifests@[i]).kid,
                kid,
            ),
{
    lemma_manifest_at(spans.manifests@, kid, 0);
    if let Some(i) = manifest_at(spans.manifests@, kid, 0) {
        assert(is_manifest_of(spans, kid, i));
    }
}

/// What the workspace is found to declare of a crate has the name, the version and
/// the source of the crate; it is found wherever the list holds it, and it is the
/// first such declaration.
pub proof fn workspace_span_is_that_of_the_crate(spans: KrateSpans, kid: Kid)
    ensures
        spans.workspace_span_of(kid) matches Some(span) ==> {
            &&& span.kid.name@ == kid.name@
            &&& span.kid.version@ == kid.version@
            &&& span.kid.source@ == kid.source@
            &&& exists|i: int| #[trigger]
                is_workspace_span_of(spans, kid, i) && spans.workspace_spans@[i] == span
        },
        spans.workspace_span_of(kid) is None ==> forall|i: int|
            0 <= i < spans.workspace_spans.len() ==> !equal_kids(
                (#[trigger] spans.workspace_spans@[i]).kid,
                kid,
            ),
{
    lemma_workspace_span_at(spans.workspace_spans@, kid, 0);
    if let Some(i) = workspace_span_at(spans.workspace_spans@, kid, 0) {
        assert(is_workspace_span_of(spans, kid, i));
    }
}

/// Whether a dependency is resolved to the crate `name` in `version`.
pub open spec fn resolves_to(dep: ManifestDep, name: Seq<char>, version: Version) -> bool {
    &&& dep.krate.name@ == name
    &&& dep.krate.version.major == version.major
    &&& dep.krate.version.minor == version.minor
    &&& dep.krate.version.patch == version.patch
    &&& dep.krate.version.pre@ == version.pre@
    &&& dep.krate.version.build@ == version.build@
}

/// Whether the dependency `d` of the manifest `m` is the one that the crate `kid`
/// declares on `name` in `version`.
pub open spec fn declares(
    spans: KrateSpans,
    kid: Kid,
    name: Seq<char>,
    version: Version,
    m: int,
    d: int,
) -> bool {
    let deps = spans.manifests@[m].deps@;
    &&& is_manifest_of(spans, kid, m)
    &&& 0 <= d < deps.len()
    &&& resolves_to(deps[d], name, version)
    &&& forall|j: int| 0 <= j < d ==> !resolves_to(#[trigger] deps[j], name, version)
}

/// Whether `range` starts where the first of two spans starts and ends where the
/// last of them ends.
pub open spec fn spans_both(range: Span, a: Span, b: Span) -> bool {
    &&& range.start == a.start && a.start <= b.start || range.start == b.start && b.start <= a.start
    &&& range.end == a.end && a.end >= b.end || range.end == b.end && b.end >= a.end
}

/// Whether the declaration of a dependency is left to the workspace, which has it at
/// `w`.
pub open spec fn is_left_to_workspace(spans: KrateSpans, dep: ManifestDep, w: int) -> bool {
    &&& dep.workspace == Some(true)
    &&& spans.workspace_id is Some
    &&& is_workspace_span_of(spans, dep.krate.id, w)
}

/// Whether `mark` is on the declaration of the dependency `d` of the manifest `m`.
pub open spec fn marks_declaration(spans: KrateSpans, m: int, d: int, mark: Mark) -> bool {
    let dep = spans.manifests@[m].deps@[d];
    &&& mark.style == LabelStyle::Primary
    &&& mark.message.len() == 0
    &&& forall|w: int| #[trigger]
        is_left_to_workspace(spans, dep, w) ==> {
            &&& spans.workspace_id == Some(mark.file_id)
            &&& spans_both(
                mark.range,
                spans.workspace_spans@[w].key,
                spans.workspace_spans@[w].value,
            )
        }
    &&& !(exists|w: int| #[trigger] is_left_to_workspace(spans, dep, w)) ==> {
        &&& mark.file_id == spans.manifests@[m].id
        &&& spans_both(mark.range, dep.key_span, dep.value_span)
    }
}

proof fn lemma_dep_at(deps: Seq<ManifestDep>, name: Seq<char>, version: Version, from: int)
    requires
        0 <= from <= deps.len(),
    ensures
        match dep_at(deps, name, version, from) {
            Some(i) => {
                &&& from <= i < deps.len()
                &&& resolves_to(deps[i], name, version)
                &&& forall|j: int|
                    from <= j < i ==> !resolves_to(#[trigger] deps[j], name, version)
            },
            None => forall|j: int|
                from <= j < deps.len() ==> !resolves_to(#[trigger] deps[j], name, version),
        },
    decreases deps.len() - from,
{
    if from < deps.len() && !resolves_to(deps[from], name, version) {
        lemma_dep_at(deps, name, version, from + 1);
    }
}

proof fn lemma_declaration(spans: KrateSpans, m: int, d: int)
    requires
        0 <= m < spans.manifests.len(),
        0 <= d < spans.manifests@[m].deps.len(),
    ensures
        marks_declaration(
            spans,
            m,
            d,
            declaration(spans, spans.manifests@[m], spans.manifests@[m].deps@[d]),
        ),
{
    let dep = spans.manifests@[m].deps@[d];
    let kid = dep.krate.id;
    workspace_span_is_that_of_the_crate(spans, kid);
    lemma_workspace_span_at(spans.workspace_spans@, kid, 0);
    merged_covers_both(dep.key_span, dep.value_span);
    if let Some(i) = workspace_span_at(spans.workspace_spans@, kid, 0) {
        let ws = spans.workspace_spans@[i];
        merged_covers_both(ws.key, ws.value);
        if dep.workspace == Some(true) && spans.workspace_id is Some {
            assert(is_left_to_workspace(spans, dep, i));
        }
        assert forall|w: int| #[trigger] is_left_to_workspace(spans, dep, w) implies w == i by {
            if w < i {
                assert(!equal_kids(spans.workspace_spans@[w].kid, kid));
            } else if i < w {
                assert(!equal_kids(spans.workspace_spans@[i].kid, kid));
            }
        }
    } else {
        assert forall|w: int| !(#[trigger] is_left_to_workspace(spans, dep, w)) by {
            if is_left_to_workspace(spans, dep, w) {
                assert(!equal_kids(spans.workspace_spans@[w].kid, kid));
            }
        }
    }
}

/// The label of a dependency is on the declaration in the manifest of the crate of
/// the project, and there is one wherever that manifest declares the dependency.
pub proof fn dependency_is_marked_where_declared(
    spans: KrateSpans,
    kid: Kid,
    name: Seq<char>,
    version: Version,
)
    ensures
        dependency_mark(spans, kid, name, version) matches Some(mark) ==> exists|m: int, d: int|
            #[trigger] declares(spans, kid, name, version, m, d) && marks_declaration(
                spans,
                m,
                d,
                mark,
            ),
        dependency_mark(spans, kid, name, version) is None ==> forall|m: int, d: int|
            !(#[trigger] declares(spans, kid, name, version, m, d)),
{
    manifest_is_that_of_the_crate(spans, kid);
    lemma_manifest_at(spans.manifests@, kid, 0);
    match manifest_at(spans.manifests@, kid, 0) {
        Some(m) => {
            let deps = spans.manifests@[m].deps@;
            lemma_dep_at(deps, name, version, 0);
            assert(is_manifest_of(spans, kid, m));
            match dep_at(deps, name, version, 0) {
                Some(d) => {
                    lemma_declaration(spans, m, d);
                    assert(declares(spans, kid, name, version, m, d));
                },
                None => {
                    assert forall|n: int, d: int| !(#[trigger] declares(
                        spans,
                        kid,
                        name,
                        version,
                        n,
                        d,
                    )) by {
                        if declares(spans, kid, name, version, n, d) {
                            if n < m {
                                assert(!equal_kids(spans.manifests@[n].kid, kid));
                            } else if m < n {
                                assert(!equal_kids(spans.manifests@[m].kid, kid));
                            }
                            assert(!resolves_to(deps[d], name, version));
                        }
                    }
                },
            }
        },
        None => {
            assert forall|n: int, d: int| !(#[trigger] declares(
                spans,
                kid,
                name,
                version,
                n,
                d,
            )) by {
                if declares(spans, kid, name, version, n, d) {
                    assert(!equal_kids(spans.manifests@[n].kid, kid));
                }
            }
        },
    }
}

/// Whether the dependency `d` of the manifest `m` is the one that the crate of the
/// project at the start of a path declares on the first crate of the path.
pub open spec fn starts_with(spans: KrateSpans, path: Path, m: int, d: int) -> bool {
    &&& path.crates.len() > 0
    &&& declares(spans, path.root_kid, path.crates[0].name, path.crates[0].version, m, d)
}

/// Whether a mark comes before another one: by its file, then by where it starts,
/// then by where it ends.
pub open spec fn marked_before(a: Mark, b: Mark) -> bool {
    ||| a.file_id < b.file_id
    ||| a.file_id == b.file_id && a.range.start < b.range.start
    ||| a.file_id == b.file_id && a.range.start == b.range.start && a.range.end < b.range.end
}

/// Whether one of `paths` starts with the declaration that `mark` is on.
pub open spec fn is_start_of_one(spans: KrateSpans, paths: Seq<Path>, mark: Mark) -> bool {
    exists|i: int, m: int, d: int|
        0 <= i < paths.len() && #[trigger] starts_with(spans, paths[i], m, d) && marks_declaration(
            spans,
            m,
            d,
            mark,
        )
}

/// The labels that are found for some paths are on the declarations that the paths
/// start with, each of them once, in order. One is on the declaration of each path:
/// where the workspace does not have it, in the file of the manifest whose crate is
/// the one that the path starts at.
pub proof fn locations_are_where_paths_start(spans: KrateSpans, paths: Seq<Path>)
    ensures
        forall|k: int|
            #![trigger path_marks(spans, paths)[k]]
            0 <= k < path_marks(spans, paths).len() ==> is_start_of_one(
                spans,
                paths,
                path_marks(spans, paths)[k],
            ),
        forall|i: int, m: int, d: int|
            #![trigger starts_with(spans, paths[i], m, d)]
            0 <= i < paths.len() && starts_with(spans, paths[i], m, d) ==> exists|k: int|
                0 <= k < path_marks(spans, paths).len() && marks_declaration(
                    spans,
                    m,
                    d,
                    #[trigger] path_marks(spans, paths)[k],
                ),
        forall|j: int, k: int|
            #![trigger path_marks(spans, paths)[j], path_marks(spans, paths)[k]]
            0 <= j < k < path_marks(spans, paths).len() ==> marked_before(
                path_marks(spans, paths)[j],
                path_marks(spans, paths)[k],
            ),
{
    let marks = path_marks(spans, paths);
    path_marks_are_the_declarations(spans, paths);
    assert forall|k: int| #![trigger marks[k]] 0 <= k < marks.len() implies is_start_of_one(
        spans,
        paths,
        marks[k],
    ) by {
        assert(marks.contains(marks[k]));
        let i = choose|i: int|
            0 <= i < paths.len() && path_mark(spans, #[trigger] paths[i]) == Some(marks[k]);
        let path = paths[i];
        let step = path.crates[0];
        dependency_is_marked_where_declared(spans, path.root_kid, step.name, step.version);
        let (m, d) = choose|m: int, d: int| #[trigger]
            declares(spans, path.root_kid, step.name, step.version, m, d) && marks_declaration(
                spans,
                m,
                d,
                marks[k],
            );
        assert(starts_with(spans, paths[i], m, d));
    }
    assert forall|i: int, m: int, d: int|
        #![trigger starts_with(spans, paths[i], m, d)]
        0 <= i < paths.len() && starts_with(spans, paths[i], m, d) implies exists|k: int|
        0 <= k < marks.len() && marks_declaration(spans, m, d, #[trigger] marks[k]) by {
        let path = paths[i];
        let step = path.crates[0];
        let kid = path.root_kid;
        dependency_is_marked_where_declared(spans, kid, step.name, step.version);
        let mark = path_mark(spans, path)->0;
        assert(path_mark(spans, paths[i]) == Some(mark));
        assert(marks.contains(mark));
        let (n, e) = choose|n: int, e: int| #[trigger]
            declares(spans, kid, step.name, step.version, n, e) && marks_declaration(
                spans,
                n,
                e,
                mark,
            );
        lemma_one_declaration(spans, kid, step.name, step.version, m, d, n, e);
        let k = choose|k: int| 0 <= k < marks.len() && marks[k] == mark;
        assert(marks_declaration(spans, m, d, marks[k]));
    }
}

pub(crate) proof fn lemma_one_declaration(
    spans: KrateSpans,
    kid: Kid,
    name: Seq<char>,
    version: Version,
    m: int,
    d: int,
    n: int,
    e: int,
)
    requires
        declares(spans, kid, name, version, m, d),
        declares(spans, kid, name, version, n, e),
    ensures
        m == n,
        d == e,
{
    if m < n {
        assert(!equal_kids(spans.manifests@[m].kid, kid));
    } else if n < m {
        assert(!equal_kids(spans.manifests@[n].kid, kid));
    }
    let deps = spans.manifests@[m].deps@;
    if d < e {
        assert(!resolves_to(deps[d], name, version));
    } else if e < d {
        assert(!resolves_to(deps[e], name, version));
    }
}

/// A label that is not left to the workspace is in the file of a manifest whose crate
/// has the name, the version and the source of the crate that a path starts at.
pub proof fn own_locations_are_in_the_manifest_of_the_root(
    spans: KrateSpans,
    paths: Seq<Path>,
    k: int,
)
    requires
        0 <= k < path_marks(spans, paths).len(),
        spans.workspace_id != Some(path_marks(spans, paths)[k].file_id),
    ensures
        exists|i: int, m: int|
            #![trigger paths[i], spans.manifests@[m]]
            0 <= i < paths.len() && 0 <= m < spans.manifests.len() && equal_kids(
                spans.manifests@[m].kid,
                paths[i].root_kid,
            ) && spans.manifests@[m].id == path_marks(spans, paths)[k].file_id,
{
    let mark = path_marks(spans, paths)[k];
    locations_are_where_paths_start(spans, paths);
    assert(is_start_of_one(spans, paths, mark));
    let (i, m, d) = choose|i: int, m: int, d: int|
        0 <= i < paths.len() && #[trigger] starts_with(spans, paths[i], m, d) && marks_declaration(
            spans,
            m,
            d,
            mark,
        );
    let dep = spans.manifests@[m].deps@[d];
    if exists|w: int| #[trigger] is_left_to_workspace(spans, dep, w) {
        let w = choose|w: int| #[trigger] is_left_to_workspace(spans, dep, w);
        assert(spans.workspace_id == Some(mark.file_id));
    }
    assert(spans.manifests@[m].id == mark.file_id);
}

/// Whether a resolved label is the one that `mark` says.
pub open spec fn is_label_of(resolved: ResolvedLabel, mark: Mark) -> bool {
    &&& resolved.label.style == mark.style
    &&& resolved.label.file_id == mark.file_id
    &&& resolved.label.range == mark.range
    &&& resolved.label.message@ == mark.message
}

proof fn lemma_location_at(resolved: Seq<ResolvedLabel>, mark: Mark, from: int)
    requires
        0 <= from <= resolved.len(),
    ensures
        match location_at(resolved, mark, from) {
            Some(location) => exists|i: int|
                from <= i < resolved.len() && is_label_of(#[trigger] resolved[i], mark)
                    && resolved[i].location == location && forall|j: int|
                    from <= j < i ==> !is_label_of(#[trigger] resolved[j], mark),
            None => forall|j: int|
                from <= j < resolved.len() ==> !is_label_of(#[trigger] resolved[j], mark),
        },
    decreases resolved.len() - from,
{
    if from < resolved.len() {
        assert(is_label_of(resolved[from], mark) <==> resolved[from].label@ == mark);
        if !is_label_of(resolved[from], mark) {
            lemma_location_at(resolved, mark, from + 1);
            if location_at(resolved, mark, from + 1) is Some {
                let i = choose|i: int|
                    from < i < resolved.len() && is_label_of(#[trigger] resolved[i], mark)
                        && Some(resolved[i].location) == location_at(resolved, mark, from + 1)
                        && forall|j: int|
                        from < j < i ==> !is_label_of(#[trigger] resolved[j], mark);
                assert(is_label_of(resolved[i], mark));
            }
        } else {
            assert(is_label_of(resolved[from], mark));
        }
    }
}

/// A label is where the first resolved label of the same style, file, span and
/// message is; it is nowhere only if there is no such label.
pub proof fn label_is_where_it_was_resolved(files: Files, mark: Mark)
    ensures
        match files.location_of(mark) {
            Some(location) => exists|i: int|
                0 <= i < files.resolved.len() && is_label_of(#[trigger] files.resolved@[i], mark)
                    && files.resolved@[i].location == location && forall|j: int|
                    0 <= j < i ==> !is_label_of(#[trigger] files.resolved@[j], mark),
            None => forall|j: int|
                0 <= j < files.resolved.len() ==> !is_label_of(
                    #[trigger] files.resolved@[j],
                    mark,
                ),
        },
{
    lemma_location_at(files.resolved@, mark, 0);
}

proof fn lemma_position_at(positions: Seq<Position>, offset: u32, from: int)
    requires
        0 <= from <= positions.len(),
    ensures
        match position_at(positions, offset, from) {
            Some(position) => position.offset == offset && positions.contains(position),
            None => forall|j: int|
                from <= j < positions.len() ==> (#[trigger] positions[j]).offset != offset,
        },
    decreases positions.len() - from,
{
    if from < positions.len() {
        if positions[from].offset != offset {
            lemma_position_at(positions, offset, from + 1);
        } else {
            assert(positions.contains(positions[from]));
        }
    }
}

/// The position of a byte is one that is known of that byte in that file; there is
/// none only if none is known.
pub proof fn position_is_that_of_the_byte(files: Files, file_id: usize, offset: u32)
    ensures
        match files.position_of(file_id, offset) {
            Some(position) => {
                &&& file_id < files.files.len()
                &&& position.offset == offset
                &&& files.files@[file_id as int].positions@.contains(position)
            },
            None => file_id < files.files.len() ==> forall|j: int|
                0 <= j < files.files@[file_id as int].positions.len() ==> (
                #[trigger] files.files@[file_id as int].positions@[j]).offset != offset,
        },
{
    if file_id < files.files.len() {
        lemma_position_at(files.files@[file_id as int].positions@, offset, 0);
    }
}

} // verus!
