//! What the JSON of a diagnostic says.

use crate::diag::files::Files;
use crate::diag::grapher::{Shown, Tree};
use crate::diag::json::{
    all_located, diag_fields, diagnostic_fields, is_located, label_json, labels_json, notes_json,
    of_fields, severity_name, shown_field, tree_json, trees_json,
};
use crate::diag::shape_laws::{all_edges_shown, dependents_shown};
use crate::diag::text_laws::{is_version_text, version_text_has_its_parts};
use crate::diag::{Diag, Diagnostic, Mark, Severity};
use crate::json::JsonValue;
use crate::krate_graph::KrateGraph;
use crate::sarif::graphs::graphs_of;
use crate::sarif::listing_laws::{graphs_are_those_of_the_nodes, lists_graphs, Listing};
use crate::sarif::locator::marks_of;
use crate::text::{sliced, unquoted};
use vstd::prelude::*;

verus! {

/// Whether `fields` says that `name` is `value`.
pub open spec fn says(
    fields: Seq<(Seq<char>, JsonValue)>,
    name: Seq<char>,
    value: JsonValue,
) -> bool {
    fields.contains((name, value))
}

/// Whether `fields` says nothing of `name`.
pub open spec fn is_silent_on(fields: Seq<(Seq<char>, JsonValue)>, name: Seq<char>) -> bool {
    forall|i: int| 0 <= i < fields.len() ==> (#[trigger] fields[i]).0 != name
}

/// Whether a field names what a node shows: a crate with its name, its version and
/// the kind of the dependency, or a feature with its name and that of its crate.
pub open spec fn names_node(field: (Seq<char>, JsonValue), inner: Shown) -> bool {
    &&& field.1 matches JsonValue::Fields(fields)
    &&& match inner {
        Shown::Krate { name, version, kind, .. } => {
            &&& field.0 == "Krate"@
            &&& says(fields, "name"@, JsonValue::Text(name))
            &&& exists|v: Seq<char>| #[trigger]
                is_version_text(version, v) && says(fields, "version"@, JsonValue::Text(v))
            &&& match kind {
                Some(kind) => says(fields, "kind"@, JsonValue::Text(kind)) && fields.len() == 3,
                None => fields.len() == 2,
            }
        },
        Shown::Feature { crate_name, name, .. } => {
            &&& field.0 == "Feature"@
            &&& says(fields, "crate_name"@, JsonValue::Text(crate_name))
            &&& says(fields, "name"@, JsonValue::Text(name))
            &&& fields.len() == 2
        },
    }
}

/// Whether a value is the JSON of a graph: what the root shows, whether it is a
/// repeat, and its parents in order, each in the same way.
pub open spec fn writes_graph(json: JsonValue, t: Tree) -> bool
    decreases t,
{
    &&& json matches JsonValue::Fields(fields)
    &&& fields.len() > 0
    &&& names_node(fields[0], t.inner)
    &&& if t.repeat {
        says(fields, "repeat"@, JsonValue::Bool(true))
    } else {
        is_silent_on(fields, "repeat"@)
    }
    &&& if t.parents.len() == 0 {
        is_silent_on(fields, "parents"@)
    } else {
        &&& fields.last().0 == "parents"@
        &&& fields.last().1 matches JsonValue::List(items)
        &&& items.len() == t.parents.len()
        &&& forall|i: int|
            0 <= i < t.parents.len() ==> writes_graph(items[i], #[trigger] t.parents[i])
    }
}

proof fn lemma_shown_field(inner: Shown)
    ensures
        names_node(shown_field(inner), inner),
{
    let fields = shown_field(inner).1->Fields_0;
    match inner {
        Shown::Krate { name, version, kind, .. } => {
            version_text_has_its_parts(version);
            assert(fields[0] == ("name"@, JsonValue::Text(name)));
            assert(fields[1] == ("version"@, JsonValue::Text(version.text())));
            if kind is Some {
                assert(fields[2] == ("kind"@, JsonValue::Text(kind.unwrap())));
            }
        },
        Shown::Feature { crate_name, name, .. } => {
            assert(fields[0] == ("crate_name"@, JsonValue::Text(crate_name)));
            assert(fields[1] == ("name"@, JsonValue::Text(name)));
        },
    }
}

/// A graph is written down whole: each node with what it shows and whether it is a
/// repeat, and all its parents.
pub proof fn graph_is_written_whole(t: Tree)
    ensures
        writes_graph(tree_json(t), t),
    decreases t,
{
    reveal_strlit("repeat");
    reveal_strlit("parents");
    reveal_strlit("Krate");
    reveal_strlit("Feature");
    assert("repeat"@.len() == 6);
    assert("parents"@.len() == 7 && "parents"@[0] == 'p');
    assert("Krate"@.len() == 5);
    assert("Feature"@.len() == 7 && "Feature"@[0] == 'F');
    let fields = tree_json(t)->Fields_0;
    lemma_shown_field(t.inner);
    assert(fields[0] == shown_field(t.inner));
    if t.repeat {
        assert(fields[1] == ("repeat"@, JsonValue::Bool(true)));
    }
    if t.parents.len() > 0 {
        let items = trees_json(t.parents, t.parents.len());
        assert(fields.last() == ("parents"@, JsonValue::List(items)));
        lemma_items(t.parents, t.parents.len());
        assert forall|i: int| 0 <= i < t.parents.len() implies writes_graph(
            items[i],
            #[trigger] t.parents[i],
        ) by {
            graph_is_written_whole(t.parents[i]);
            assert(items[i] == tree_json(t.parents[i]));
        }
    }
}

proof fn lemma_items(trees: Seq<Tree>, n: nat)
    requires
        n <= trees.len(),
    ensures
        trees_json(trees, n).len() == n,
        forall|i: int|
            #![trigger trees_json(trees, n)[i]]
            #![trigger trees[i]]
            0 <= i < n ==> trees_json(trees, n)[i] == tree_json(trees[i]),
    decreases n,
{
    if n > 0 {
        lemma_items(trees, (n - 1) as nat);
    }
}

/// What the graphs of a diagnostic were written from.
pub struct Written {
    pub items: Seq<JsonValue>,
    pub graphs: Seq<Tree>,
    pub listing: Listing,
}

/// Whether the items are the graphs of those nodes of a diagnostic that exist. With
/// features each node that is expanded, however deep, has one parent for each edge
/// that leads to it; without, one for each direct dependent.
pub open spec fn writes_graphs(g: KrateGraph, diag: Diag, written: Written) -> bool {
    &&& written.items.len() == written.graphs.len()
    &&& forall|i: int|
        #![trigger written.items[i]]
        0 <= i < written.items.len() ==> writes_graph(written.items[i], written.graphs[i])
    &&& lists_graphs(g, diag.graph_nodes@, written.graphs, written.listing)
    &&& forall|i: int|
        0 <= i < written.listing.walks.len() ==> if diag.with_features {
            all_edges_shown(g, #[trigger] written.listing.walks[i])
        } else {
            dependents_shown(g, written.listing.walks[i])
        }
}

/// A diagnostic of a check lists the graphs of its nodes where the crates are known:
/// with features each graph shows all that depends on each node, however deep, and
/// without only the direct dependents.
pub proof fn graphs_are_listed_whole(
    diag: Diag,
    files: Files,
    g: KrateGraph,
    extra: Option<JsonValue>,
) -> (written: Written)
    requires
        g.wf(),
    ensures
        says(
            diag_fields(diag, files, Some(g), extra),
            "graphs"@,
            JsonValue::List(written.items),
        ),
        writes_graphs(g, diag, written),
{
    let max = if diag.with_features {
        usize::MAX as nat
    } else {
        0
    };
    let graphs = graphs_of(g, diag.graph_nodes@, max);
    let items = trees_json(graphs, graphs.len());
    let listing = graphs_are_those_of_the_nodes(g, diag.graph_nodes@, max);
    let written = Written { items, graphs, listing };
    lemma_items(graphs, graphs.len());
    assert forall|i: int| #![trigger written.items[i]] 0 <= i
        < written.items.len() implies writes_graph(written.items[i], written.graphs[i]) by {
        graph_is_written_whole(graphs[i]);
        assert(items[i] == tree_json(graphs[i]));
    }
    let fields = diag_fields(diag, files, Some(g), extra);
    let k = diagnostic_fields(diag.diag, files).len() as int;
    assert(fields[k] == ("graphs"@, JsonValue::List(items)));
    written
}

/// Without the crates no graph is listed. What a diagnostic carries is reported
/// exactly where it carries something and that could be written down.
pub proof fn other_fields_follow(
    diag: Diag,
    files: Files,
    krates: Option<KrateGraph>,
    extra: Option<JsonValue>,
)
    ensures
        krates is None ==> is_silent_on(diag_fields(diag, files, krates, extra), "graphs"@),
        extra is Some && diag.extra is Some ==> says(
            diag_fields(diag, files, krates, extra),
            "advisory"@,
            extra->0,
        ),
        extra is None || diag.extra is None ==> is_silent_on(
            diag_fields(diag, files, krates, extra),
            "advisory"@,
        ),
        forall|field: (Seq<char>, JsonValue)|
            #![trigger diagnostic_fields(diag.diag, files).contains(field)]
            diagnostic_fields(diag.diag, files).contains(field) ==> diag_fields(
                diag,
                files,
                krates,
                extra,
            ).contains(field),
{
    lemma_names();
    let fields = diag_fields(diag, files, krates, extra);
    let before = diagnostic_fields(diag.diag, files);
    if extra is Some && diag.extra is Some {
        assert(fields.last() == ("advisory"@, extra.unwrap()));
        assert(fields[fields.len() - 1] == fields.last());
    }
    assert forall|field: (Seq<char>, JsonValue)| #![trigger before.contains(field)] before.contains(
        field,
    ) implies fields.contains(field) by {
        let i = choose|i: int| 0 <= i < before.len() && before[i] == field;
        assert(fields[i] == field);
    }
    assert forall|i: int| 0 <= i < before.len() implies {
        &&& (#[trigger] fields[i]).0 != "graphs"@
        &&& fields[i].0 != "advisory"@
    } by {
        assert(fields[i] == before[i]);
    }
}

proof fn lemma_names()
    ensures
        "severity"@.len() == 8 && "severity"@[0] == 's',
        "advisory"@.len() == 8 && "advisory"@[0] == 'a',
        "message"@.len() == 7,
        "code"@.len() == 4,
        "labels"@.len() == 6 && "labels"@[0] == 'l',
        "graphs"@.len() == 6 && "graphs"@[0] == 'g',
        "notes"@.len() == 5,
{
    reveal_strlit("severity");
    reveal_strlit("message");
    reveal_strlit("code");
    reveal_strlit("labels");
    reveal_strlit("notes");
    reveal_strlit("graphs");
    reveal_strlit("advisory");
}

/// Whether a value is the JSON of a label: its message, the text that it is on
/// without quotes around it, and the line and the column that it starts at, counted
/// from one.
pub open spec fn writes_label(json: JsonValue, files: Files, mark: Mark) -> bool {
    &&& json matches JsonValue::Fields(fields)
    &&& files.position_of(mark.file_id, mark.range.start as u32) matches Some(position)
    &&& fields.len() == 4
    &&& says(fields, "message"@, JsonValue::Text(mark.message))
    &&& says(fields, "line"@, JsonValue::Number((position.line + 1) as nat))
    &&& says(fields, "column"@, JsonValue::Number((position.column + 1) as nat))
    &&& says(
        fields,
        "span"@,
        JsonValue::Text(
            unquoted(
                sliced(
                    files.files@[mark.file_id as int].source@,
                    mark.range.start as int,
                    mark.range.end as int,
                ),
            ),
        ),
    )
}

proof fn lemma_label(files: Files, mark: Mark)
    requires
        is_located(files, mark),
    ensures
        writes_label(label_json(files, mark), files, mark),
{
    let fields = label_json(files, mark)->Fields_0;
    let position = files.position_of(mark.file_id, mark.range.start as u32).unwrap();
    assert(fields[0] == ("message"@, JsonValue::Text(mark.message)));
    assert(fields[1].0 == "span"@);
    assert(fields.contains(fields[1]));
    assert(fields[2] == ("line"@, JsonValue::Number((position.line + 1) as nat)));
    assert(fields[3] == ("column"@, JsonValue::Number((position.column + 1) as nat)));
}

/// A diagnostic says how severe it is and its message, and its code, its labels and
/// its notes exactly where it has them: one item for each, in order.
pub proof fn diagnostic_is_written_whole(diag: Diagnostic, files: Files)
    requires
        all_located(diag, files),
    ensures
        ({
            let fields = diagnostic_fields(diag, files);
            &&& says(
                fields,
                "severity"@,
                JsonValue::Text(
                    match diag.severity {
                        Severity::Bug => "bug"@,
                        Severity::Error => "error"@,
                        Severity::Warning => "warning"@,
                        Severity::Note => "note"@,
                        Severity::Help => "help"@,
                    },
                ),
            )
            &&& says(fields, "message"@, JsonValue::Text(diag.message@))
            &&& match diag.code {
                Some(code) => says(fields, "code"@, JsonValue::Text(code@)),
                None => is_silent_on(fields, "code"@),
            }
            &&& if diag.labels.len() == 0 {
                is_silent_on(fields, "labels"@)
            } else {
                exists|items: Seq<JsonValue>|
                    #![trigger says(fields, "labels"@, JsonValue::List(items))]
                    says(fields, "labels"@, JsonValue::List(items)) && items.len()
                        == diag.labels.len() && forall|i: int|
                        #![trigger items[i]]
                        0 <= i < items.len() ==> writes_label(items[i], files, diag.labels@[i]@)
            }
            &&& if diag.notes.len() == 0 {
                is_silent_on(fields, "notes"@)
            } else {
                exists|items: Seq<JsonValue>|
                    #![trigger says(fields, "notes"@, JsonValue::List(items))]
                    says(fields, "notes"@, JsonValue::List(items)) && items.len()
                        == diag.notes.len() && forall|i: int|
                        #![trigger items[i]]
                        0 <= i < items.len() ==> items[i] == JsonValue::Text(diag.notes@[i]@)
            }
        }),
{
    lemma_names();
    let fields = diagnostic_fields(diag, files);
    assert(fields[0] == ("severity"@, JsonValue::Text(severity_name(diag.severity))));
    assert(fields[1] == ("message"@, JsonValue::Text(diag.message@)));
    let after_code: int = if diag.code is Some {
        3
    } else {
        2
    };
    if diag.code is Some {
        assert(fields[2] == ("code"@, JsonValue::Text(diag.code.unwrap()@)));
    }
    let after_labels: int = if diag.labels.len() > 0 {
        after_code + 1
    } else {
        after_code
    };
    if diag.labels.len() > 0 {
        let items = labels_json(files, marks_of(diag.labels@));
        assert(fields[after_code] == ("labels"@, JsonValue::List(items)));
        assert forall|i: int| #![trigger items[i]] 0 <= i < items.len() implies writes_label(
            items[i],
            files,
            diag.labels@[i]@,
        ) by {
            lemma_label(files, diag.labels@[i]@);
        }
        assert(says(fields, "labels"@, JsonValue::List(items)));
    }
    if diag.notes.len() > 0 {
        let items = notes_json(diag.notes@);
        assert(fields[after_labels] == ("notes"@, JsonValue::List(items)));
        assert(says(fields, "notes"@, JsonValue::List(items)));
    }
}

/// The fields of a diagnostic stand in an object that says that it is one.
pub proof fn diagnostic_says_its_type(fields: Seq<(Seq<char>, JsonValue)>)
    ensures
        of_fields(fields) matches JsonValue::Fields(outer) && {
            &&& outer.len() == 2
            &&& says(outer, "type"@, JsonValue::Text("diagnostic"@))
            &&& says(outer, "fields"@, JsonValue::Fields(fields))
        },
{
    let outer = of_fields(fields)->Fields_0;
    assert(outer[0] == ("type"@, JsonValue::Text("diagnostic"@)));
    assert(outer[1] == ("fields"@, JsonValue::Fields(fields)));
}

} // verus!
