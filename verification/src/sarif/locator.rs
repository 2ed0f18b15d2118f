//! Finds where the manifests of a project declare dependencies.

use crate::diag::paths::{path_values, DependencyPath, Path};
use crate::diag::spans::{KrateSpans, Manifest, ManifestDep};
use crate::diag::{primary_mark, Label, Mark, Span};
use crate::krate_graph::{Kid, Version};
use crate::text::{text_eq, Order};
use std::cmp::Ordering;
use vstd::prelude::*;

verus! {

/// A label that is told apart from others by its file and span alone.
#[derive(Debug)]
struct LabelHash {
    label: Label,
}

/// The order of marks: by file, then by start, then by end.
pub open spec fn mark_order(a: Mark, b: Mark) -> Order {
    if a.file_id < b.file_id {
        Order::Less
    } else if a.file_id > b.file_id {
        Order::Greater
    } else if a.range.start < b.range.start {
        Order::Less
    } else if a.range.start > b.range.start {
        Order::Greater
    } else if a.range.end < b.range.end {
        Order::Less
    } else if a.range.end > b.range.end {
        Order::Greater
    } else {
        Order::Equal
    }
}

/// The order of marks is total: two marks are equal in it exactly where they are
/// on the same span of the same file, whatever their style and message; swapping
/// them swaps `Less` and `Greater`; and it is transitive.
pub proof fn mark_order_is_total(a: Mark, b: Mark, c: Mark)
    ensures
        mark_order(a, b) == Order::Equal <==> a.file_id == b.file_id && a.range == b.range,
        mark_order(a, b) == Order::Less <==> mark_order(b, a) == Order::Greater,
        mark_order(a, b) == Order::Equal <==> mark_order(b, a) == Order::Equal,
        mark_order(a, b) != Order::Greater && mark_order(b, c) != Order::Greater ==> mark_order(
            a,
            c,
        ) != Order::Greater,
        mark_order(a, b) == Order::Less && mark_order(b, c) != Order::Greater ==> mark_order(a, c)
            == Order::Less,
        mark_order(a, b) != Order::Greater && mark_order(b, c) == Order::Less ==> mark_order(a, c)
            == Order::Less,
{
}

impl LabelHash {
    fn new(label: Label) -> (hash: Self)
        ensures
            hash.label == label,
    {
        Self { label }
    }

    fn into_label(self) -> (label: Label)
        ensures
            label == self.label,
    {
        self.label
    }

    /// How the two labels are ordered.
    fn order_of(&self, other: &Self) -> (order: Order)
        ensures
            order == mark_order(self.label@, other.label@),
            order == Order::Equal <==> self.label.file_id == other.label.file_id
                && self.label.range == other.label.range,
    {
        let a = &self.label;
        let b = &other.label;
        if a.file_id < b.file_id {
            Order::Less
        } else if a.file_id > b.file_id {
            Order::Greater
        } else if a.range.start < b.range.start {
            Order::Less
        } else if a.range.start > b.range.start {
            Order::Greater
        } else if a.range.end < b.range.end {
            Order::Less
        } else if a.range.end > b.range.end {
            Order::Greater
        } else {
            Order::Equal
        }
    }
}

impl Clone for LabelHash {
    fn clone(&self) -> (hash: Self)
        ensures
            hash == *self,
    {
        Self { label: self.label.clone() }
    }
}

impl PartialEq for LabelHash {
    fn eq(&self, other: &Self) -> (r: bool) {
        self.label.file_id == other.label.file_id && self.label.range.start
            == other.label.range.start && self.label.range.end == other.label.range.end
    }
}

impl vstd::std_specs::cmp::PartialEqSpecImpl for LabelHash {
    closed spec fn obeys_eq_spec() -> bool {
        true
    }

    closed spec fn eq_spec(&self, other: &Self) -> bool {
        mark_order(self.label@, other.label@) == Order::Equal
    }
}

impl PartialOrd for LabelHash {
    fn partial_cmp(&self, other: &Self) -> (r: Option<Ordering>) {
        match self.order_of(other) {
            Order::Less => Some(Ordering::Less),
            Order::Equal => Some(Ordering::Equal),
            Order::Greater => Some(Ordering::Greater),
        }
    }
}

impl vstd::std_specs::cmp::PartialOrdSpecImpl for LabelHash {
    closed spec fn obeys_partial_cmp_spec() -> bool {
        true
    }

    closed spec fn partial_cmp_spec(&self, other: &Self) -> Option<Ordering> {
        match mark_order(self.label@, other.label@) {
            Order::Less => Some(Ordering::Less),
            Order::Equal => Some(Ordering::Equal),
            Order::Greater => Some(Ordering::Greater),
        }
    }
}

/// The smallest span that covers both spans.
pub open spec fn merged(a: Span, b: Span) -> Span {
    Span {
        start: if a.start <= b.start {
            a.start
        } else {
            b.start
        },
        end: if a.end >= b.end {
            a.end
        } else {
            b.end
        },
    }
}

/// Calculates a span that covers both key and value spans.
pub(crate) fn merge_spans(key_span: &Span, value_span: &Span) -> (span: Span)
    ensures
        span == merged(*key_span, *value_span),
{
    Span {
        start: if key_span.start <= value_span.start {
            key_span.start
        } else {
            value_span.start
        },
        end: if key_span.end >= value_span.end {
            key_span.end
        } else {
            value_span.end
        },
    }
}

/// The merged span covers both spans, and nothing that lies before or behind both.
pub proof fn merged_covers_both(a: Span, b: Span)
    ensures
        merged(a, b).start <= a.start,
        merged(a, b).start <= b.start,
        a.end <= merged(a, b).end,
        b.end <= merged(a, b).end,
        merged(a, b).start == a.start || merged(a, b).start == b.start,
        merged(a, b).end == a.end || merged(a, b).end == b.end,
        merged(a, b) == merged(b, a),
{
}

/// The place of the first of `deps` from `from` on that is resolved to the
/// version of the crate.
pub open spec fn dep_at(
    deps: Seq<ManifestDep>,
    name: Seq<char>,
    version: Version,
    from: int,
) -> Option<int>
    decreases deps.len() - from,
{
    if from < 0 || from >= deps.len() {
        None
    } else if deps[from].krate.name@ == name && deps[from].krate.version.same(version) {
        Some(from)
    } else {
        dep_at(deps, name, version, from + 1)
    }
}

/// Where a declaration is: in the manifest of the workspace, if it is controlled
/// by the workspace and that place is known, else in its own manifest.
pub open spec fn declaration(spans: KrateSpans, manifest: Manifest, dep: ManifestDep) -> Mark {
    let own = primary_mark(manifest.id, merged(dep.key_span, dep.value_span));
    if dep.workspace == Some(true) {
        match (spans.workspace_span_of(dep.krate.id), spans.workspace_id) {
            (Some(ws), Some(id)) => primary_mark(id, merged(ws.key, ws.value)),
            _ => own,
        }
    } else {
        own
    }
}

/// Where a crate of the project declares a dependency.
pub open spec fn dependency_mark(
    spans: KrateSpans,
    root_kid: Kid,
    name: Seq<char>,
    version: Version,
) -> Option<Mark> {
    match spans.manifest_of(root_kid) {
        Some(manifest) => match dep_at(manifest.deps@, name, version, 0) {
            Some(i) => Some(declaration(spans, manifest, manifest.deps@[i])),
            None => None,
        },
        None => None,
    }
}

/// Finds the declaration of a dependency in the manifest of a crate of the project.
pub(crate) fn find_declaration(
    krate_spans: &KrateSpans,
    root_kid: &Kid,
    dep_name: &str,
    dep_version: &Version,
) -> (label: Option<Label>)
    ensures
        dependency_mark(*krate_spans, *root_kid, dep_name@, *dep_version) == (match label {
            Some(label) => Some(label@),
            None => None,
        }),
{
    let manifest = match krate_spans.manifest(root_kid) {
        Some(manifest) => manifest,
        None => return None,
    };
    let mut i: usize = 0;
    while i < manifest.deps.len()
        invariant
            i <= manifest.deps.len(),
            krate_spans.manifest_of(*root_kid) == Some(*manifest),
            dep_at(manifest.deps@, dep_name@, *dep_version, 0) == dep_at(
                manifest.deps@,
                dep_name@,
                *dep_version,
                i as int,
            ),
        decreases manifest.deps.len() - i,
    {
        let dep = &manifest.deps[i];
        if text_eq(dep.krate.name.as_str(), dep_name) && dep.krate.version == *dep_version {
            let manifest_span = merge_spans(&dep.key_span, &dep.value_span);
            let controlled = match dep.workspace {
                Some(value) => value,
                None => false,
            };
            if controlled {
                match (krate_spans.workspace_span(&dep.krate.id), krate_spans.workspace_id) {
                    (Some(ws), Some(workspace_id)) => {
                        return Some(Label::primary(workspace_id, merge_spans(&ws.key, &ws.value)));
                    },
                    _ => {},
                }
            }
            return Some(Label::primary(manifest.id, manifest_span));
        }
        i += 1;
    }
    None
}

/// The declaration of the crate next to the crate of the project, where a path
/// has one.
pub open spec fn path_mark(spans: KrateSpans, path: Path) -> Option<Mark> {
    if path.crates.len() == 0 {
        None
    } else {
        dependency_mark(spans, path.root_kid, path.crates[0].name, path.crates[0].version)
    }
}

/// `marks` with `mark` in its place, unless there is one of the same span.
pub open spec fn with_mark(marks: Seq<Mark>, mark: Mark) -> Seq<Mark>
    decreases marks.len(),
{
    if marks.len() == 0 {
        seq![mark]
    } else {
        match mark_order(mark, marks.last()) {
            Order::Less => with_mark(marks.drop_last(), mark).push(marks.last()),
            Order::Equal => marks,
            Order::Greater => marks.push(mark),
        }
    }
}

/// The declarations that some paths lead to, in order and without duplicates.
pub open spec fn path_marks(spans: KrateSpans, paths: Seq<Path>) -> Seq<Mark>
    decreases paths.len(),
{
    if paths.len() == 0 {
        Seq::empty()
    } else {
        let before = path_marks(spans, paths.drop_last());
        match path_mark(spans, paths.last()) {
            Some(mark) => with_mark(before, mark),
            None => before,
        }
    }
}

/// The values in a list of labels.
pub open spec fn marks_of(labels: Seq<Label>) -> Seq<Mark> {
    Seq::new(labels.len(), |i: int| labels[i]@)
}

/// Whether no two marks are on the same span of the same file.
pub open spec fn distinct_spans(marks: Seq<Mark>) -> bool {
    forall|i: int, j: int|
        #![trigger marks[i], marks[j]]
        0 <= i < j < marks.len() ==> marks[i].file_id != marks[j].file_id || marks[i].range
            != marks[j].range
}

/// Trait for finding dependency locations in manifests for SARIF results
pub trait LocationFinder {
    /// The labels that are found for the given dependency paths.
    spec fn project_marks(&self, paths: Seq<Path>) -> Seq<Mark>;

    /// Finds project locations for the given dependency paths.
    ///
    /// Returns a deduplicated list of labels where dependencies are declared
    /// in the project's manifest files.
    fn find_project_locations(&self, paths: &[DependencyPath]) -> (labels: Vec<Label>)
        ensures
            marks_of(labels@) == self.project_marks(path_values(paths@)),
            distinct_spans(marks_of(labels@)),
    ;
}

/// Finds dependency locations in manifests for SARIF results
pub struct Locator<'a> {
    krate_spans: &'a KrateSpans,
}

/// The values in a list of labels.
spec fn hash_marks(labels: Seq<LabelHash>) -> Seq<Mark> {
    Seq::new(labels.len(), |i: int| labels[i].label@)
}

/// Puts a label in its place, unless there is one of the same span.
fn insert_label(seen: &mut Vec<LabelHash>, label: LabelHash)
    ensures
        hash_marks(final(seen)@) == with_mark(hash_marks(old(seen)@), label.label@),
{
    let ghost before = hash_marks(seen@);
    let ghost mark = label.label@;
    let mut i = seen.len();
    assert(before.take(i as int) =~= before);
    assert(with_mark(before, mark) =~= with_mark(before.take(i as int), mark) + before.skip(
        i as int,
    ));
    while i > 0
        invariant
            i <= seen.len(),
            before == hash_marks(seen@),
            before == hash_marks(old(seen)@),
            mark == label.label@,
            with_mark(before, mark) == with_mark(before.take(i as int), mark) + before.skip(
                i as int,
            ),
        ensures
            i <= seen.len(),
            i > 0 ==> mark_order(mark, before[i - 1]) == Order::Greater,
            before == hash_marks(seen@),
            with_mark(before, mark) == with_mark(before.take(i as int), mark) + before.skip(
                i as int,
            ),
        decreases i,
    {
        let ghost part = before.take(i as int);
        assert(part.last() == before[i - 1]);
        assert(before[i - 1] == seen@[i - 1].label@);
        match label.order_of(&seen[i - 1]) {
            Order::Less => {
                proof {
                    assert(part.drop_last() =~= before.take(i - 1));
                    assert(with_mark(part, mark) + before.skip(i as int) =~= with_mark(
                        before.take(i - 1),
                        mark,
                    ) + before.skip(i - 1));
                }
                i -= 1;
            },
            Order::Equal => {
                assert(part + before.skip(i as int) =~= before);
                return ;
            },
            Order::Greater => {
                break ;
            },
        }
    }
    let ghost part = before.take(i as int);
    proof {
        if i > 0 {
            assert(part.last() == before[i - 1]);
        }
        assert(with_mark(part, mark) =~= part.push(mark));
    }
    seen.insert(i, label);
    assert(hash_marks(seen@) =~= part.push(mark) + before.skip(i as int));
}

impl<'a> Locator<'a> {
    /// The manifests that locations are looked up in.
    pub closed spec fn spans(&self) -> KrateSpans {
        *self.krate_spans
    }

    pub fn new(krate_spans: &'a KrateSpans) -> (locator: Self)
        ensures
            locator.spans() == *krate_spans,
    {
        Self { krate_spans }
    }

    fn find_dependency_label(
        &self,
        root_kid: &Kid,
        dep_name: &str,
        dep_version: &Version,
    ) -> (label: Option<Label>)
        ensures
            dependency_mark(self.spans(), *root_kid, dep_name@, *dep_version) == (match label {
                Some(label) => Some(label@),
                None => None,
            }),
    {
        find_declaration(self.krate_spans, root_kid, dep_name, dep_version)
    }
}

impl<'a> LocationFinder for Locator<'a> {
    open spec fn project_marks(&self, paths: Seq<Path>) -> Seq<Mark> {
        path_marks(self.spans(), paths)
    }

    fn find_project_locations(&self, paths: &[DependencyPath]) -> (labels: Vec<Label>) {
        let mut seen: Vec<LabelHash> = Vec::new();
        let ghost values = path_values(paths@);
        let mut i: usize = 0;
        assert(values.take(0) =~= Seq::empty());
        assert(hash_marks(seen@) =~= Seq::empty());
        while i < paths.len()
            invariant
                i <= paths@.len(),
                values == path_values(paths@),
                hash_marks(seen@) == path_marks(self.spans(), values.take(i as int)),
            decreases paths@.len() - i,
        {
            let path = &paths[i];
            assert(values.take(i + 1).drop_last() =~= values.take(i as int));
            assert(values.take(i + 1).last() == path@);
            // The first crate on a path is the direct dependency of the root
            // crate. A path without crates is that of a workspace member itself.
            if path.crates.len() > 0 {
                let dep = &path.crates[0];
                if let Some(label) = self.find_dependency_label(
                    &path.root_kid,
                    dep.0.as_str(),
                    &dep.1,
                ) {
                    insert_label(&mut seen, LabelHash::new(label));
                }
            }
            i += 1;
        }
        assert(values.take(i as int) =~= values);
        let mut labels: Vec<Label> = Vec::new();
        let mut k: usize = 0;
        while k < seen.len()
            invariant
                k <= seen.len(),
                labels.len() == k,
                forall|j: int| 0 <= j < k ==> (#[trigger] labels@[j]) == seen@[j].label,
            decreases seen.len() - k,
        {
            labels.push(seen[k].clone().into_label());
            k += 1;
        }
        assert(marks_of(labels@) =~= hash_marks(seen@));
        proof {
            path_marks_are_the_declarations(self.spans(), values);
        }
        labels
    }
}

/// Whether each mark comes before those behind it.
pub open spec fn is_ascending(marks: Seq<Mark>) -> bool {
    forall|i: int, j: int|
        #![trigger marks[i], marks[j]]
        0 <= i < j < marks.len() ==> mark_order(marks[i], marks[j]) == Order::Less
}

/// Whether each mark is a primary one without a message.
pub open spec fn all_primary(marks: Seq<Mark>) -> bool {
    forall|i: int|
        0 <= i < marks.len() ==> #[trigger] marks[i] == primary_mark(
            marks[i].file_id,
            marks[i].range,
        )
}

proof fn lemma_with_mark(marks: Seq<Mark>, mark: Mark)
    requires
        is_ascending(marks),
        all_primary(marks),
        mark == primary_mark(mark.file_id, mark.range),
    ensures
        is_ascending(with_mark(marks, mark)),
        all_primary(with_mark(marks, mark)),
        forall|m: Mark|
            #![trigger with_mark(marks, mark).contains(m)]
            with_mark(marks, mark).contains(m) <==> m == mark || marks.contains(m),
    decreases marks.len(),
{
    let all = with_mark(marks, mark);
    if marks.len() == 0 {
        assert(all[0] == mark);
    } else {
        let rest = marks.drop_last();
        let last = marks.last();
        match mark_order(mark, last) {
            Order::Less => {
                lemma_with_mark(rest, mark);
                let shorter = with_mark(rest, mark);
                assert(all =~= shorter.push(last));
                assert forall|i: int, j: int|
                    #![trigger all[i], all[j]]
                    0 <= i < j < all.len() implies mark_order(all[i], all[j]) == Order::Less by {
                    assert(all[i] == shorter[i]);
                    if j < shorter.len() {
                        assert(all[j] == shorter[j]);
                    } else {
                        assert(shorter.contains(shorter[i]));
                        if shorter[i] != mark {
                            let k = choose|k: int| 0 <= k < rest.len() && rest[k] == shorter[i];
                            assert(marks[k] == shorter[i]);
                            assert(marks[marks.len() - 1] == last);
                        }
                    }
                }
                assert forall|m: Mark| #![trigger all.contains(m)] all.contains(m) <==> m == mark
                    || marks.contains(m) by {
                    if all.contains(m) {
                        let k = choose|k: int| 0 <= k < all.len() && all[k] == m;
                        if k < shorter.len() {
                            assert(shorter[k] == m);
                            assert(shorter.contains(m));
                            if m != mark {
                                let r = choose|r: int| 0 <= r < rest.len() && rest[r] == m;
                                assert(marks[r] == m);
                            }
                        } else {
                            assert(marks[marks.len() - 1] == m);
                        }
                    }
                    if m == mark || marks.contains(m) {
                        if m != mark {
                            let k = choose|k: int| 0 <= k < marks.len() && marks[k] == m;
                            if k < rest.len() {
                                assert(rest[k] == m);
                            }
                        }
                        if m == last {
                            assert(all[all.len() - 1] == m);
                        } else {
                            assert(m == mark || rest.contains(m));
                            assert(shorter.contains(m));
                            let r = choose|r: int| 0 <= r < shorter.len() && shorter[r] == m;
                            assert(all[r] == m);
                        }
                    }
                }
            },
            Order::Equal => {
                assert(marks[marks.len() - 1] == mark);
            },
            Order::Greater => {
                assert(all =~= marks.push(mark));
                assert forall|i: int, j: int|
                    #![trigger all[i], all[j]]
                    0 <= i < j < all.len() implies mark_order(all[i], all[j]) == Order::Less by {
                    assert(all[i] == marks[i]);
                    if j < marks.len() {
                        assert(all[j] == marks[j]);
                    } else if i < marks.len() - 1 {
                        assert(marks[marks.len() - 1] == last);
                    }
                }
                assert forall|m: Mark| #![trigger all.contains(m)] all.contains(m) <==> m == mark
                    || marks.contains(m) by {
                    if all.contains(m) {
                        let k = choose|k: int| 0 <= k < all.len() && all[k] == m;
                        if k < marks.len() {
                            assert(marks[k] == m);
                        }
                    }
                    if m == mark {
                        assert(all[all.len() - 1] == m);
                    } else if marks.contains(m) {
                        let k = choose|k: int| 0 <= k < marks.len() && marks[k] == m;
                        assert(all[k] == m);
                    }
                }
            },
        }
    }
}

/// The declarations that paths lead to are listed in order, each span once: they
/// are exactly the ones that one of the paths leads to.
pub proof fn path_marks_are_the_declarations(spans: KrateSpans, paths: Seq<Path>)
    ensures
        is_ascending(path_marks(spans, paths)),
        all_primary(path_marks(spans, paths)),
        forall|m: Mark|
            #![trigger path_marks(spans, paths).contains(m)]
            path_marks(spans, paths).contains(m) <==> exists|i: int|
                0 <= i < paths.len() && path_mark(spans, #[trigger] paths[i]) == Some(m),
    decreases paths.len(),
{
    if paths.len() > 0 {
        let rest = paths.drop_last();
        let last = paths.last();
        path_marks_are_the_declarations(spans, rest);
        if let Some(mark) = path_mark(spans, last) {
            lemma_with_mark(path_marks(spans, rest), mark);
        }
        let all = path_marks(spans, paths);
        assert forall|m: Mark| #![trigger all.contains(m)] all.contains(m) <==> exists|i: int|
            0 <= i < paths.len() && path_mark(spans, #[trigger] paths[i]) == Some(m) by {
            if all.contains(m) {
                if path_marks(spans, rest).contains(m) {
                    let i = choose|i: int|
                        0 <= i < rest.len() && path_mark(spans, #[trigger] rest[i]) == Some(m);
                    assert(paths[i] == rest[i]);
                } else {
                    assert(path_mark(spans, paths[paths.len() - 1]) == Some(m));
                }
            }
            if exists|i: int|
                0 <= i < paths.len() && path_mark(spans, #[trigger] paths[i]) == Some(m) {
                let i = choose|i: int|
                    0 <= i < paths.len() && path_mark(spans, #[trigger] paths[i]) == Some(m);
                if i < rest.len() {
                    assert(rest[i] == paths[i]);
                    assert(path_marks(spans, rest).contains(m));
                }
            }
        }
    }
}

} // verus!
