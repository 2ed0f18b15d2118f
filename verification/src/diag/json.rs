//! Diagnostics as JSON.

use crate::diag;
use crate::diag::files::Files;
use crate::diag::grapher::{GraphNode, InclusionGrapher, NodeInner, Shown, Tree};
use crate::diag::{Diag, Diagnostic, Label, Mark, Severity};
use crate::json::{
    field_values, item_values, list, object, push_field, text, Json, JsonValue,
};
use crate::krate_graph::KrateGraph;
use crate::sarif::graphs::graphs_of;
use crate::sarif::locator::marks_of;
use crate::text::{slice, sliceable, sliced, trim_quotes, unquoted};
use vstd::prelude::*;

verus! {

/// The name of a severity.
pub open spec fn severity_name(severity: Severity) -> Seq<char> {
    match severity {
        Severity::Error => "error"@,
        Severity::Warning => "warning"@,
        Severity::Note => "note"@,
        Severity::Help => "help"@,
        Severity::Bug => "bug"@,
    }
}

fn name_of_severity(severity: Severity) -> (s: &'static str)
    ensures
        s@ == severity_name(severity),
{
    match severity {
        Severity::Error => "error",
        Severity::Warning => "warning",
        Severity::Note => "note",
        Severity::Help => "help",
        Severity::Bug => "bug",
    }
}

pub fn is_false(v: &bool) -> (r: bool)
    ensures
        r == !*v,
{
    !*v
}

pub fn is_empty(v: &Vec<GraphNode>) -> (r: bool)
    ensures
        r == (v@.len() == 0),
{
    v.len() == 0
}

/// What a node shows, under the name of its variant.
pub open spec fn shown_field(inner: Shown) -> (Seq<char>, JsonValue) {
    match inner {
        Shown::Krate { name, version, kind, .. } => (
            "Krate"@,
            JsonValue::Fields(
                seq![
                    ("name"@, JsonValue::Text(name)),
                    ("version"@, JsonValue::Text(version.text())),
                ] + (match kind {
                    Some(kind) => seq![("kind"@, JsonValue::Text(kind))],
                    None => Seq::empty(),
                }),
            ),
        ),
        Shown::Feature { crate_name, name, .. } => (
            "Feature"@,
            JsonValue::Fields(
                seq![
                    ("crate_name"@, JsonValue::Text(crate_name)),
                    ("name"@, JsonValue::Text(name)),
                ],
            ),
        ),
    }
}

/// A graph. What repeats nothing and what has no parents does not say so.
pub open spec fn tree_json(t: Tree) -> JsonValue
    decreases t, 0nat,
{
    JsonValue::Fields(
        seq![shown_field(t.inner)] + (if t.repeat {
            seq![("repeat"@, JsonValue::Bool(true))]
        } else {
            Seq::empty()
        }) + (if t.parents.len() > 0 {
            seq![("parents"@, JsonValue::List(trees_json(t.parents, t.parents.len())))]
        } else {
            Seq::empty()
        }),
    )
}

/// The first `n` of some graphs.
pub open spec fn trees_json(trees: Seq<Tree>, n: nat) -> Seq<JsonValue>
    decreases trees, n,
{
    if n == 0 || n > trees.len() {
        Seq::empty()
    } else {
        trees_json(trees, (n - 1) as nat).push(tree_json(trees[n - 1]))
    }
}

fn inner_json(inner: &NodeInner) -> (field: (&'static str, Json))
    ensures
        (field.0@, field.1@) == shown_field(inner@),
{
    let mut fields: Vec<(String, Json)> = Vec::new();
    match inner {
        NodeInner::Krate { name, version, kind, .. } => {
            push_field(&mut fields, "name", text(name.as_str()));
            push_field(&mut fields, "version", Json::Text(version.to_text()));
            if let Some(kind) = kind {
                push_field(&mut fields, "kind", text(kind));
            }
            assert(field_values(fields@) =~= shown_field(inner@).1->Fields_0);
            ("Krate", object(fields))
        },
        NodeInner::Feature { crate_name, name, .. } => {
            push_field(&mut fields, "crate_name", text(crate_name.as_str()));
            push_field(&mut fields, "name", text(name.as_str()));
            assert(field_values(fields@) =~= shown_field(inner@).1->Fields_0);
            ("Feature", object(fields))
        },
    }
}

fn graph_json(node: &GraphNode) -> (json: Json)
    ensures
        json@ == tree_json(node@),
    decreases node,
{
    let mut fields: Vec<(String, Json)> = Vec::new();
    let inner = inner_json(&node.inner);
    push_field(&mut fields, inner.0, inner.1);
    if !is_false(&node.repeat) {
        push_field(&mut fields, "repeat", Json::Bool(true));
    }
    if !is_empty(&node.parents) {
        let mut parents: Vec<Json> = Vec::new();
        let mut i: usize = 0;
        assert(item_values(parents@) =~= trees_json(node@.parents, 0));
        while i < node.parents.len()
            invariant
                i <= node.parents.len(),
                item_values(parents@) == trees_json(node@.parents, i as nat),
            decreases node.parents.len() - i,
        {
            let parent = graph_json(&node.parents[i]);
            let ghost before = item_values(parents@);
            let ghost value = parent@;
            parents.push(parent);
            i += 1;
            assert(node@.parents[i - 1] == node.parents@[i - 1]@);
            assert(item_values(parents@) =~= before.push(value));
        }
        push_field(&mut fields, "parents", list(parents));
    }
    assert(field_values(fields@) =~= tree_json(node@)->Fields_0);
    object(fields)
}

/// Whether a mark is on whole characters of a file, at a known position.
pub open spec fn is_located(files: Files, mark: Mark) -> bool {
    &&& files.position_of(mark.file_id, mark.range.start as u32) matches Some(position)
    &&& position.line < usize::MAX
    &&& position.column < usize::MAX
    &&& sliceable(
        files.files@[mark.file_id as int].source@,
        mark.range.start as int,
        mark.range.end as int,
    )
}

/// A label, with the text that it is on and the line and column it starts at,
/// both counted from one.
pub open spec fn label_json(files: Files, mark: Mark) -> JsonValue {
    let position = files.position_of(mark.file_id, mark.range.start as u32).unwrap();
    JsonValue::Fields(
        seq![
            ("message"@, JsonValue::Text(mark.message)),
            (
                "span"@,
                JsonValue::Text(
                    unquoted(
                        sliced(
                            files.files@[mark.file_id as int].source@,
                            mark.range.start as int,
                            mark.range.end as int,
                        ),
                    ),
                ),
            ),
            ("line"@, JsonValue::Number((position.line + 1) as nat)),
            ("column"@, JsonValue::Number((position.column + 1) as nat)),
        ],
    )
}

fn json_of_label(files: &Files, label: &Label) -> (json: Json)
    requires
        is_located(*files, label@),
    ensures
        json@ == label_json(*files, label@),
{
    let start = label.range.start as u32;
    let position = files.location(label.file_id, start).unwrap();
    let span = slice(files.source(label.file_id), label.range.start, label.range.end);
    let mut fields: Vec<(String, Json)> = Vec::new();
    push_field(&mut fields, "message", text(label.message.as_str()));
    push_field(&mut fields, "span", text(trim_quotes(span)));
    push_field(&mut fields, "line", Json::Number((position.line + 1) as u64));
    push_field(&mut fields, "column", Json::Number((position.column + 1) as u64));
    assert(field_values(fields@) =~= label_json(*files, label@)->Fields_0);
    object(fields)
}

/// Some labels.
pub open spec fn labels_json(files: Files, marks: Seq<Mark>) -> Seq<JsonValue> {
    Seq::new(marks.len(), |i: int| label_json(files, marks[i]))
}

/// Some notes.
pub open spec fn notes_json(notes: Seq<String>) -> Seq<JsonValue> {
    Seq::new(notes.len(), |i: int| JsonValue::Text(notes[i]@))
}

/// The fields of a diagnostic. What it does not have is left out.
pub open spec fn diagnostic_fields(diag: Diagnostic, files: Files) -> Seq<(Seq<char>, JsonValue)> {
    seq![
        ("severity"@, JsonValue::Text(severity_name(diag.severity))),
        ("message"@, JsonValue::Text(diag.message@)),
    ] + (match diag.code {
        Some(code) => seq![("code"@, JsonValue::Text(code@))],
        None => Seq::empty(),
    }) + (if diag.labels@.len() > 0 {
        seq![("labels"@, JsonValue::List(labels_json(files, marks_of(diag.labels@))))]
    } else {
        Seq::empty()
    }) + (if diag.notes@.len() > 0 {
        seq![("notes"@, JsonValue::List(notes_json(diag.notes@)))]
    } else {
        Seq::empty()
    })
}

/// A diagnostic with the given fields.
pub open spec fn of_fields(fields: Seq<(Seq<char>, JsonValue)>) -> JsonValue {
    JsonValue::Fields(
        seq![
            ("type"@, JsonValue::Text("diagnostic"@)),
            ("fields"@, JsonValue::Fields(fields)),
        ],
    )
}

/// Whether all labels of a diagnostic are on whole characters, at known positions.
pub open spec fn all_located(diag: Diagnostic, files: Files) -> bool {
    forall|i: int| 0 <= i < diag.labels.len() ==> is_located(files, (#[trigger] diag.labels@[i])@)
}

fn list_labels(labels: &Vec<Label>, files: &Files) -> (items: Vec<Json>)
    requires
        forall|i: int| 0 <= i < labels.len() ==> is_located(*files, (#[trigger] labels@[i])@),
    ensures
        item_values(items@) == labels_json(*files, marks_of(labels@)),
{
    let mut items: Vec<Json> = Vec::new();
    let mut i: usize = 0;
    while i < labels.len()
        invariant
            i <= labels.len(),
            items.len() == i,
            forall|j: int| 0 <= j < labels.len() ==> is_located(*files, (#[trigger] labels@[j])@),
            forall|j: int| 0 <= j < i ==> (#[trigger] items@[j])@ == label_json(
                *files,
                labels@[j]@,
            ),
        decreases labels.len() - i,
    {
        items.push(json_of_label(files, &labels[i]));
        i += 1;
    }
    assert(item_values(items@) =~= labels_json(*files, marks_of(labels@)));
    items
}

fn list_notes(notes: Vec<String>) -> (items: Vec<Json>)
    ensures
        item_values(items@) == notes_json(notes@),
{
    let mut items: Vec<Json> = Vec::new();
    for note in it: notes
        invariant
            it.seq() == notes@,
            items.len() == it.index(),
            forall|j: int| 0 <= j < items.len() ==> (#[trigger] items@[j])@ == JsonValue::Text(
                notes@[j]@,
            ),
    {
        items.push(Json::Text(note));
    }
    assert(item_values(items@) =~= notes_json(notes@));
    items
}

fn fields_of(diag: Diagnostic, files: &Files) -> (fields: Vec<(String, Json)>)
    requires
        all_located(diag, *files),
    ensures
        field_values(fields@) == diagnostic_fields(diag, *files),
{
    let mut fields: Vec<(String, Json)> = Vec::new();
    push_field(&mut fields, "severity", text(name_of_severity(diag.severity)));
    push_field(&mut fields, "message", Json::Text(diag.message));
    if let Some(code) = diag.code {
        push_field(&mut fields, "code", Json::Text(code));
    }
    if diag.labels.len() > 0 {
        push_field(&mut fields, "labels", list(list_labels(&diag.labels, files)));
    }
    if diag.notes.len() > 0 {
        push_field(&mut fields, "notes", list(list_notes(diag.notes)));
    }
    assert(field_values(fields@) =~= diagnostic_fields(diag, *files));
    fields
}

fn diagnostic(fields: Vec<(String, Json)>) -> (json: Json)
    ensures
        json@ == of_fields(field_values(fields@)),
{
    let ghost values = field_values(fields@);
    let mut outer: Vec<(String, Json)> = Vec::new();
    push_field(&mut outer, "type", text("diagnostic"));
    push_field(&mut outer, "fields", object(fields));
    assert(field_values(outer@) =~= of_fields(values)->Fields_0);
    object(outer)
}

/// Turns a diagnostic into JSON. Each label has to be on whole characters of its
/// file, at a position that is known.
pub fn cs_diag_to_json(diag: Diagnostic, files: &Files) -> (json: Json)
    requires
        all_located(diag, *files),
    ensures
        json@ == of_fields(diagnostic_fields(diag, *files)),
{
    diagnostic(fields_of(diag, files))
}

/// How deep features are followed where there is no limit to it.
pub open spec fn full_depth(with_features: bool) -> nat {
    if with_features {
        usize::MAX as nat
    } else {
        0
    }
}

/// Turns a diagnostic of a check into JSON, with the graphs of its nodes if the
/// crates are given. `extra` is what the diagnostic carries besides its message,
/// if that could be written down.
pub open spec fn diag_fields(
    diag: Diag,
    files: Files,
    krates: Option<KrateGraph>,
    extra: Option<JsonValue>,
) -> Seq<(Seq<char>, JsonValue)> {
    diagnostic_fields(diag.diag, files) + (match krates {
        Some(g) => {
            let trees = graphs_of(g, diag.graph_nodes@, full_depth(diag.with_features));
            seq![("graphs"@, JsonValue::List(trees_json(trees, trees.len())))]
        },
        None => Seq::empty(),
    }) + (match extra {
        Some(value) => if diag.extra is Some {
            seq![("advisory"@, value)]
        } else {
            Seq::empty()
        },
        None => Seq::empty(),
    })
}

/// The first `n` of some graphs, with one more behind them.
proof fn lemma_one_more_tree(trees: Seq<Tree>, t: Tree, n: nat)
    requires
        n <= trees.len(),
    ensures
        trees_json(trees.push(t), n) == trees_json(trees, n),
    decreases n,
{
    if n > 0 {
        lemma_one_more_tree(trees, t, (n - 1) as nat);
        assert(trees.push(t)[n - 1] == trees[n - 1]);
    }
}

fn list_graphs(
    grapher: &InclusionGrapher<'_>,
    nodes: &Vec<diag::GraphNode>,
    max_feature_depth: usize,
) -> (items: Vec<Json>)
    requires
        grapher.krates.wf(),
    ensures
        ({
            let trees = graphs_of(*grapher.krates, nodes@, max_feature_depth as nat);
            item_values(items@) == trees_json(trees, trees.len())
        }),
{
    let mut items: Vec<Json> = Vec::new();
    let ghost g = *grapher.krates;
    let ghost max = max_feature_depth as nat;
    let ghost mut trees = graphs_of(g, nodes@.take(0), max);
    let mut i: usize = 0;
    assert(item_values(items@) =~= trees_json(trees, trees.len()));
    while i < nodes.len()
        invariant
            i <= nodes.len(),
            grapher.krates.wf(),
            g == *grapher.krates,
            max == max_feature_depth,
            trees == graphs_of(g, nodes@.take(i as int), max),
            item_values(items@) == trees_json(trees, trees.len()),
        decreases nodes.len() - i,
    {
        assert(nodes@.take(i + 1).drop_last() =~= nodes@.take(i as int));
        if let Ok(graph) = grapher.build_graph(&nodes[i], max_feature_depth) {
            let ghost before = item_values(items@);
            let ghost tree = graph@;
            items.push(graph_json(&graph));
            proof {
                lemma_one_more_tree(trees, tree, trees.len());
                assert(item_values(items@) =~= before.push(tree_json(tree)));
                trees = trees.push(tree);
            }
        }
        i += 1;
    }
    assert(nodes@.take(i as int) =~= nodes@);
    items
}

/// Turns a diagnostic of a check into JSON, with the graphs of its nodes if a
/// grapher is given. `extra` is what the diagnostic carries besides its message,
/// if that could be written down.
pub fn diag_to_json(
    diag: Diag,
    files: &Files,
    grapher: Option<&InclusionGrapher<'_>>,
    extra: Option<Json>,
) -> (json: Json)
    requires
        all_located(diag.diag, *files),
        grapher matches Some(g) ==> g.krates.wf(),
    ensures
        json@ == of_fields(
            diag_fields(
                diag,
                *files,
                match grapher {
                    Some(g) => Some(*g.krates),
                    None => None,
                },
                match extra {
                    Some(value) => Some(value@),
                    None => None,
                },
            ),
        ),
{
    let max_feature_depth = if diag.with_features {
        usize::MAX
    } else {
        0
    };
    let mut fields = fields_of(diag.diag, files);
    let ghost before = field_values(fields@);
    assert(before + Seq::<(Seq<char>, JsonValue)>::empty() =~= before);
    if let Some(grapher) = grapher {
        let graphs = list_graphs(grapher, &diag.graph_nodes, max_feature_depth);
        push_field(&mut fields, "graphs", list(graphs));
    }
    let ghost with_graphs = field_values(fields@);
    assert(with_graphs + Seq::<(Seq<char>, JsonValue)>::empty() =~= with_graphs);
    if let Some(value) = extra {
        if let Some(kept) = diag.extra {
            push_field(&mut fields, kept.key(), value);
        }
    }
    assert(field_values(fields@) =~= diag_fields(
        diag,
        *files,
        match grapher {
            Some(g) => Some(*g.krates),
            None => None,
        },
        match extra {
            Some(value) => Some(value@),
            None => None,
        },
    ));
    diagnostic(fields)
}

/// Whether no two fields have the same name.
pub open spec fn distinct_names(fields: Seq<(Seq<char>, JsonValue)>) -> bool {
    forall|i: int, j: int|
        #![trigger fields[i], fields[j]]
        0 <= i < j < fields.len() ==> fields[i].0 != fields[j].0
}

/// No two fields of a diagnostic have the same name.
pub proof fn field_names_are_distinct(
    diag: Diag,
    files: Files,
    krates: Option<KrateGraph>,
    extra: Option<JsonValue>,
)
    ensures
        distinct_names(diagnostic_fields(diag.diag, files)),
        distinct_names(diag_fields(diag, files, krates, extra)),
{
    reveal_strlit("severity");
    reveal_strlit("message");
    reveal_strlit("code");
    reveal_strlit("labels");
    reveal_strlit("notes");
    reveal_strlit("graphs");
    reveal_strlit("advisory");
    assert("severity"@.len() == 8 && "severity"@[0] == 's');
    assert("advisory"@.len() == 8 && "advisory"@[0] == 'a');
    assert("message"@.len() == 7);
    assert("code"@.len() == 4);
    assert("labels"@.len() == 6 && "labels"@[0] == 'l');
    assert("graphs"@.len() == 6 && "graphs"@[0] == 'g');
    assert("notes"@.len() == 5);
}

/// The parents of a graph are written down one by one, in order.
pub proof fn graph_keeps_its_parents(t: Tree, i: int)
    requires
        0 <= i < t.parents.len(),
    ensures
        trees_json(t.parents, t.parents.len()).len() == t.parents.len(),
        trees_json(t.parents, t.parents.len())[i] == tree_json(t.parents[i]),
{
    lemma_trees_json(t.parents, t.parents.len());
}

proof fn lemma_trees_json(trees: Seq<Tree>, n: nat)
    requires
        n <= trees.len(),
    ensures
        trees_json(trees, n).len() == n,
        forall|i: int|
            #![trigger trees_json(trees, n)[i]]
            0 <= i < n ==> trees_json(trees, n)[i] == tree_json(trees[i]),
    decreases n,
{
    if n > 0 {
        lemma_trees_json(trees, (n - 1) as nat);
    }
}

} // verus!
