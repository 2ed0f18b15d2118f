//! What the messages of findings say.

use crate::diag;
use crate::diag::advisory::{Advisory, Affected, AffectedFunction, Metadata};
use crate::diag::files::Files;
use crate::diag::grapher::{graph_of, Tree};
use crate::diag::text_laws::in_a_row;
use crate::diag::tree_text::rendered;
use crate::diag::{Diag, Extra, LabelStyle, Mark};
use crate::krate_graph::KrateGraph;
use crate::sarif::advisory::{
    advisory_text, affected_text, code_list, code_row, detailed_style, function_rows, heading,
    plain_list, section, AdvisoryStyle,
};
use crate::sarif::collector::{dense_graph_style, dense_numbered_style, dense_style};
use crate::sarif::graphs::{
    gapped, graph_text, node_graph, numbered_graphs, GraphStyle, NumberedStyle,
};
use crate::sarif::listing_laws::name_of_feature;
use crate::sarif::locator::marks_of;
use crate::sarif::processors::advisory::{advisory_message, spaced_graph_style, spaced_style};
use crate::sarif::processors::license::{
    detail, detail_lines, license_finding, license_graph_style, note_lines, styled,
    with_details, with_expression, with_graph, with_notes,
};
use crate::sarif::processors::other::other_style;
use crate::text::{announces, decimal, decimal_is_read_back, trimmed};
use vstd::prelude::*;

verus! {

/// A list has one line for each item, in order: a dash and the item as code.
pub proof fn code_list_has_a_line_for_each(items: Seq<String>)
    ensures
        code_list(items) == in_a_row(
            Seq::new(items.len(), |i: int| seq!['-', ' ', '`'] + items[i]@ + seq!['`', '\n']),
        ),
    decreases items.len(),
{
    reveal_strlit("- `");
    reveal_strlit("`\n");
    let all = Seq::new(items.len(), |i: int| seq!['-', ' ', '`'] + items[i]@ + seq!['`', '\n']);
    if items.len() > 0 {
        let rest = items.drop_last();
        code_list_has_a_line_for_each(rest);
        assert(all.drop_last() =~= Seq::new(
            rest.len(),
            |i: int| seq!['-', ' ', '`'] + rest[i]@ + seq!['`', '\n'],
        ));
        assert(code_list(items) =~= in_a_row(all));
    }
}

/// A list has one line for each item, in order: a dash and the item.
pub proof fn plain_list_has_a_line_for_each(items: Seq<String>)
    ensures
        plain_list(items) == in_a_row(
            Seq::new(items.len(), |i: int| seq!['-', ' '] + items[i]@ + seq!['\n']),
        ),
    decreases items.len(),
{
    reveal_strlit("- ");
    reveal_strlit("\n");
    let all = Seq::new(items.len(), |i: int| seq!['-', ' '] + items[i]@ + seq!['\n']);
    if items.len() > 0 {
        let rest = items.drop_last();
        plain_list_has_a_line_for_each(rest);
        assert(all.drop_last() =~= Seq::new(
            rest.len(),
            |i: int| seq!['-', ' '] + rest[i]@ + seq!['\n'],
        ));
        assert(plain_list(items) =~= in_a_row(all));
    }
}

/// The item at `i` of a row of code: behind a comma unless it is the first.
pub open spec fn row_item(items: Seq<String>, i: int) -> Seq<char> {
    (if i == 0 {
        seq!['`']
    } else {
        seq![',', ' ', '`']
    }) + items[i]@ + seq!['`']
}

/// A row has each item as code, in order, with commas between them.
pub proof fn code_row_has_each_item(items: Seq<String>)
    ensures
        code_row(items) == in_a_row(Seq::new(items.len(), |i: int| row_item(items, i))),
    decreases items.len(),
{
    reveal_strlit("`");
    reveal_strlit(", ");
    let all = Seq::new(items.len(), |i: int| row_item(items, i));
    if items.len() > 0 {
        let rest = items.drop_last();
        code_row_has_each_item(rest);
        assert(all.drop_last() =~= Seq::new(rest.len(), |i: int| row_item(rest, i)));
        assert(code_row(items) =~= in_a_row(all));
    }
}

/// The row of a function in a table: its path, and the versions it is affected in.
pub open spec fn table_row(function: AffectedFunction) -> Seq<char> {
    seq!['|', '`'] + function.path@ + seq!['`', '|'] + in_a_row(
        Seq::new(function.versions@.len(), |i: int| row_item(function.versions@, i)),
    ) + seq!['|', '\n']
}

/// A table has a row for each function, in order, with the function and its versions.
pub proof fn table_has_a_row_for_each(functions: Seq<AffectedFunction>)
    ensures
        function_rows(functions) == in_a_row(
            Seq::new(functions.len(), |i: int| table_row(functions[i])),
        ),
    decreases functions.len(),
{
    reveal_strlit("|`");
    reveal_strlit("`|");
    reveal_strlit("|\n");
    let all = Seq::new(functions.len(), |i: int| table_row(functions[i]));
    if functions.len() > 0 {
        let rest = functions.drop_last();
        table_has_a_row_for_each(rest);
        code_row_has_each_item(functions.last().versions@);
        assert(all.drop_last() =~= Seq::new(rest.len(), |i: int| table_row(rest[i])));
        assert(function_rows(functions) =~= in_a_row(all));
    }
}

/// The lines of a list of code under a title, or nothing where there is no item.
pub open spec fn listed_code(title: Seq<char>, items: Seq<String>, end: Seq<char>) -> Seq<char> {
    if items.len() > 0 {
        title + in_a_row(
            Seq::new(items.len(), |i: int| seq!['-', ' ', '`'] + items[i]@ + seq!['`', '\n']),
        ) + end
    } else {
        Seq::empty()
    }
}

/// The lines of a list under a title, or nothing where there is no item.
pub open spec fn listed_plainly(title: Seq<char>, items: Seq<String>) -> Seq<char> {
    if items.len() > 0 {
        title + in_a_row(Seq::new(items.len(), |i: int| seq!['-', ' '] + items[i]@ + seq!['\n']))
            + seq!['\n']
    } else {
        Seq::empty()
    }
}

/// The table of functions, or nothing where there is none.
pub open spec fn function_table(functions: Seq<AffectedFunction>) -> Seq<char> {
    if functions.len() > 0 {
        "| Functions | Versions |\n|---|---|\n"@ + in_a_row(
            Seq::new(functions.len(), |i: int| table_row(functions[i])),
        ) + seq!['\n']
    } else {
        Seq::empty()
    }
}

/// What is affected is shown whole: the table of functions, then the architectures
/// and the operating systems, each under its title where there are any.
pub proof fn affected_is_shown_whole(style: AdvisoryStyle, affected: Affected)
    ensures
        affected_text(style, affected) == style.affected@ + function_table(affected.functions@)
            + listed_plainly(style.arches@, affected.arch@) + listed_plainly(
            style.systems@,
            affected.os@,
        ),
{
    reveal_strlit("\n");
    assert("\n"@ =~= seq!['\n']);
    table_has_a_row_for_each(affected.functions@);
    plain_list_has_a_line_for_each(affected.arch@);
    plain_list_has_a_line_for_each(affected.os@);
}

/// The id of an advisory, as a link where it has a url.
pub open spec fn linked_id(meta: Metadata) -> Seq<char> {
    if meta.url is Some {
        seq!['['] + meta.id@ + seq![']', '('] + meta.url->0@ + seq![')']
    } else {
        meta.id@
    }
}

/// An advisory is shown whole: its id, its title and its description, then the
/// versions that are not affected and those that are patched, where there are any,
/// and what is affected, where it is known.
pub proof fn advisory_is_shown_whole(style: AdvisoryStyle, advisory: Advisory)
    ensures
        advisory_text(style, advisory) == seq!['#', ' '] + linked_id(advisory.metadata)
            + style.before_title@ + advisory.metadata.title@ + style.after_title@
            + style.description@ + advisory.metadata.description@ + style.after_description@
            + listed_code(
            style.unaffected@,
            advisory.versions.unaffected@,
            style.after_unaffected@,
        ) + listed_code(style.patched@, advisory.versions.patched@, seq!['\n']) + (
        if advisory.affected is Some {
            affected_text(style, advisory.affected->0)
        } else {
            Seq::empty()
        }),
{
    reveal_strlit("# ");
    reveal_strlit("[");
    reveal_strlit("](");
    reveal_strlit(")");
    reveal_strlit("\n");
    assert("# "@ =~= seq!['#', ' ']);
    assert("["@ =~= seq!['[']);
    assert("]("@ =~= seq![']', '(']);
    assert(")"@ =~= seq![')']);
    assert("\n"@ =~= seq!['\n']);
    assert(heading(advisory.metadata) == linked_id(advisory.metadata));
    code_list_has_a_line_for_each(advisory.versions.unaffected@);
    code_list_has_a_line_for_each(advisory.versions.patched@);
    assert(section(
        style.unaffected@,
        advisory.versions.unaffected@.len(),
        code_list(advisory.versions.unaffected@),
        style.after_unaffected@,
    ) == listed_code(style.unaffected@, advisory.versions.unaffected@, style.after_unaffected@));
    assert(section(
        style.patched@,
        advisory.versions.patched@.len(),
        code_list(advisory.versions.patched@),
        "\n"@,
    ) == listed_code(style.patched@, advisory.versions.patched@, seq!['\n']));
}

/// The advisory that a diagnostic carries, as markdown.
spec fn text_of_extra(style: AdvisoryStyle, extra: Option<Extra>) -> Seq<char> {
    match extra {
        Some(Extra::Advisory(advisory)) => advisory_text(style, *advisory),
        None => Seq::empty(),
    }
}

/// The message of an advisory is its title, and as markdown the advisory with the
/// first graph of the diagnostic behind it, if it has one. A diagnostic without an
/// advisory keeps its message.
pub proof fn advisory_message_shows_the_advisory(
    style: AdvisoryStyle,
    graph_style: GraphStyle,
    diag: Diag,
    graphs: Seq<Tree>,
)
    ensures
        ({
            let message = advisory_message(style, graph_style, diag, graphs);
            match diag.extra {
                Some(Extra::Advisory(advisory)) => {
                    &&& message.text == advisory.metadata.title@
                    &&& message.markdown is Some
                    &&& graphs.len() == 0 ==> message.markdown->0 == advisory_text(
                        style,
                        *advisory,
                    )
                    &&& graphs.len() > 0 ==> message.markdown->0 == advisory_text(style, *advisory)
                        + graph_style.before@ + rendered(graphs[0], Seq::empty(), true)
                        + graph_style.after@
                },
                None => message.text == diag.diag.message@ && message.markdown is None,
            }
        }),
{
    if diag.extra is Some {
        let text = text_of_extra(style, diag.extra);
        if graphs.len() == 0 {
            assert(text + Seq::<char>::empty() =~= text);
        } else {
            assert(text + graph_text(graph_style, graphs[0]) =~= text + graph_style.before@
                + rendered(graphs[0], Seq::empty(), true) + graph_style.after@);
        }
    }
}

/// Whether some node before `n` has a graph.
pub open spec fn has_graph_before(
    g: KrateGraph,
    nodes: Seq<diag::GraphNode>,
    max: nat,
    n: int,
) -> bool {
    exists|i: int|
        0 <= i < n && graph_of(
            g,
            (#[trigger] nodes[i]).kid,
            name_of_feature(nodes[i]),
            max,
        ) is Some
}

/// What is shown for the node at `i`: its graph under its number, counted from one,
/// with an empty line before it unless nothing precedes it; nothing, where it does not
/// exist.
pub open spec fn numbered_piece(
    style: NumberedStyle,
    message: Seq<char>,
    g: KrateGraph,
    nodes: Seq<diag::GraphNode>,
    max: nat,
    i: int,
) -> Seq<char> {
    match graph_of(g, nodes[i].kid, name_of_feature(nodes[i]), max) {
        None => Seq::empty(),
        Some(tree) => (if message.len() == 0 && !has_graph_before(g, nodes, max, i) {
            Seq::empty()
        } else {
            seq!['\n', '\n']
        }) + style.before_number@ + decimal((i + 1) as nat) + style.after_number@
            + style.graph.before@ + rendered(tree, Seq::empty(), true) + style.graph.after@,
    }
}

/// A message is followed by the graph of each node that exists, each under the number
/// of its node.
pub proof fn graphs_are_shown_by_number(
    style: NumberedStyle,
    message: Seq<char>,
    g: KrateGraph,
    nodes: Seq<diag::GraphNode>,
    max: nat,
)
    ensures
        numbered_graphs(style, message, g, nodes, max) == message + in_a_row(
            Seq::new(
                nodes.len(),
                |i: int| numbered_piece(style, message, g, nodes, max, i),
            ),
        ),
        numbered_graphs(style, message, g, nodes, max).len() == 0 <==> message.len() == 0
            && !has_graph_before(g, nodes, max, nodes.len() as int),
    decreases nodes.len(),
{
    let all = Seq::new(nodes.len(), |i: int| numbered_piece(style, message, g, nodes, max, i));
    if nodes.len() == 0 {
        assert(message + in_a_row(all) =~= message);
    } else {
        let rest = nodes.drop_last();
        let n = nodes.len() - 1;
        let before = numbered_graphs(style, message, g, rest, max);
        let found = Seq::new(rest.len(), |i: int| numbered_piece(style, message, g, rest, max, i));
        graphs_are_shown_by_number(style, message, g, rest, max);
        assert(all.drop_last() =~= found) by {
            assert forall|i: int| 0 <= i < n implies all.drop_last()[i] == #[trigger] found[i] by {
                lemma_same_piece(style, message, g, nodes, max, i);
            }
        }
        lemma_last_piece(style, message, g, nodes, max);
        lemma_one_more(message, found, all, before, numbered_graphs(style, message, g, nodes, max));
    }
}

proof fn lemma_one_more(
    message: Seq<char>,
    found: Seq<Seq<char>>,
    all: Seq<Seq<char>>,
    before: Seq<char>,
    text: Seq<char>,
)
    requires
        all.len() > 0,
        all.drop_last() == found,
        before == message + in_a_row(found),
        text == before + all.last(),
    ensures
        text == message + in_a_row(all),
{
    assert(text =~= message + in_a_row(all));
}

proof fn lemma_same_piece(
    style: NumberedStyle,
    message: Seq<char>,
    g: KrateGraph,
    nodes: Seq<diag::GraphNode>,
    max: nat,
    i: int,
)
    requires
        0 <= i < nodes.len() - 1,
    ensures
        numbered_piece(style, message, g, nodes, max, i) == numbered_piece(
            style,
            message,
            g,
            nodes.drop_last(),
            max,
            i,
        ),
{
    assert(nodes[i] == nodes.drop_last()[i]);
    lemma_graph_before(g, nodes, max, i);
}

proof fn lemma_last_piece(
    style: NumberedStyle,
    message: Seq<char>,
    g: KrateGraph,
    nodes: Seq<diag::GraphNode>,
    max: nat,
)
    requires
        nodes.len() > 0,
        numbered_graphs(style, message, g, nodes.drop_last(), max).len() == 0 <==> message.len()
            == 0 && !has_graph_before(g, nodes.drop_last(), max, nodes.len() - 1),
    ensures
        numbered_graphs(style, message, g, nodes, max) == numbered_graphs(
            style,
            message,
            g,
            nodes.drop_last(),
            max,
        ) + numbered_piece(style, message, g, nodes, max, nodes.len() - 1),
        numbered_graphs(style, message, g, nodes, max).len() == 0 <==> message.len() == 0
            && !has_graph_before(g, nodes, max, nodes.len() as int),
{
    reveal_strlit("\n\n");
    assert("\n\n"@ =~= seq!['\n', '\n']);
    let n = nodes.len() - 1;
    let node = nodes[n];
    let before = numbered_graphs(style, message, g, nodes.drop_last(), max);
    let piece = numbered_piece(style, message, g, nodes, max, n);
    assert(nodes.last() == node);
    lemma_graph_before(g, nodes, max, n);
    lemma_graph_so_far(g, nodes, max);
    let graph = graph_of(g, node.kid, name_of_feature(node), max);
    assert(graph == node_graph(g, node, max)) by {
        assert(name_of_feature(node) == node.feature_text());
    }
    match graph {
        Some(tree) => {
            decimal_is_read_back(nodes.len());
            lemma_numbered(style, before, nodes.len(), tree);
            assert(piece.len() > 0);
        },
        None => {
            assert(before + piece =~= before);
        },
    }
}

proof fn lemma_numbered(style: NumberedStyle, before: Seq<char>, number: nat, tree: Tree)
    ensures
        gapped(before, "\n\n"@) + style.before_number@ + decimal(number) + style.after_number@
            + graph_text(style.graph, tree) == before + ((if before.len() == 0 {
            Seq::empty()
        } else {
            "\n\n"@
        }) + style.before_number@ + decimal(number) + style.after_number@ + style.graph.before@
            + rendered(tree, Seq::empty(), true) + style.graph.after@),
{
    assert(gapped(before, "\n\n"@) + style.before_number@ + decimal(number) + style.after_number@
        + graph_text(style.graph, tree) =~= before + ((if before.len() == 0 {
        Seq::empty()
    } else {
        "\n\n"@
    }) + style.before_number@ + decimal(number) + style.after_number@ + style.graph.before@
        + rendered(tree, Seq::empty(), true) + style.graph.after@));
}

proof fn lemma_graph_so_far(g: KrateGraph, nodes: Seq<diag::GraphNode>, max: nat)
    requires
        nodes.len() > 0,
    ensures
        has_graph_before(g, nodes, max, nodes.len() as int) <==> has_graph_before(
            g,
            nodes,
            max,
            nodes.len() - 1,
        ) || graph_of(
            g,
            nodes[nodes.len() - 1].kid,
            name_of_feature(nodes[nodes.len() - 1]),
            max,
        ) is Some,
{
}

proof fn lemma_graph_before(g: KrateGraph, nodes: Seq<diag::GraphNode>, max: nat, n: int)
    requires
        0 <= n < nodes.len(),
    ensures
        has_graph_before(g, nodes, max, n) == has_graph_before(g, nodes.drop_last(), max, n),
{
    let rest = nodes.drop_last();
    assert(forall|i: int| 0 <= i < n ==> #[trigger] nodes[i] == rest[i]);
    if has_graph_before(g, nodes, max, n) {
        let i = choose|i: int|
            0 <= i < n && graph_of(
                g,
                (#[trigger] nodes[i]).kid,
                name_of_feature(nodes[i]),
                max,
            ) is Some;
        assert(graph_of(g, rest[i].kid, name_of_feature(rest[i]), max) is Some);
    }
    if has_graph_before(g, rest, max, n) {
        let i = choose|i: int|
            0 <= i < n && graph_of(
                g,
                (#[trigger] rest[i]).kid,
                name_of_feature(rest[i]),
                max,
            ) is Some;
        assert(graph_of(g, nodes[i].kid, name_of_feature(nodes[i]), max) is Some);
    }
}

/// The line of a license that was rejected or accepted: what it is called, if its
/// label is on a known text, and the message of its label, with a colon between them
/// where there are both.
pub open spec fn license_line(files: Files, mark: Mark) -> Seq<char> {
    let name = match files.location_of(mark) {
        Some(location) => location.physical_location.region.snippet,
        None => None,
    };
    seq!['-', ' '] + (if name is None {
        mark.message
    } else if mark.message.len() == 0 {
        trimmed(name->0@)
    } else {
        trimmed(name->0@) + seq![':', ' '] + mark.message
    }) + seq!['\n']
}

proof fn lemma_license_line(files: Files, mark: Mark)
    ensures
        detail(files, mark) == license_line(files, mark),
{
    reveal_strlit("- ");
    reveal_strlit(": ");
    reveal_strlit("\n");
    assert(detail(files, mark) =~= license_line(files, mark));
}

/// There is a line for each license, in order.
pub proof fn each_license_has_its_line(files: Files, marks: Seq<Mark>)
    ensures
        detail_lines(files, marks) == in_a_row(
            Seq::new(marks.len(), |i: int| license_line(files, marks[i])),
        ),
    decreases marks.len(),
{
    let all = Seq::new(marks.len(), |i: int| license_line(files, marks[i]));
    if marks.len() > 0 {
        let rest = marks.drop_last();
        each_license_has_its_line(files, rest);
        lemma_license_line(files, marks.last());
        assert(all.drop_last() =~= Seq::new(rest.len(), |i: int| license_line(files, rest[i])));
    }
}

/// The line of a note, which has an empty line before it if it announces others.
pub open spec fn note_line(note: Seq<char>) -> Seq<char> {
    if announces(note) {
        seq!['\n'] + note + seq!['\n']
    } else {
        note + seq!['\n']
    }
}

/// There is a line for each note, in order.
pub proof fn each_note_has_its_line(notes: Seq<String>)
    ensures
        note_lines(notes) == in_a_row(Seq::new(notes.len(), |i: int| note_line(notes[i]@))),
    decreases notes.len(),
{
    reveal_strlit("\n");
    let all = Seq::new(notes.len(), |i: int| note_line(notes[i]@));
    if notes.len() > 0 {
        let rest = notes.drop_last();
        each_note_has_its_line(rest);
        assert(all.drop_last() =~= Seq::new(rest.len(), |i: int| note_line(rest[i]@)));
        assert(note_lines(notes) =~= in_a_row(all));
    }
}

/// `text` behind `before`, with `gap` between them unless `before` is empty.
pub open spec fn behind_gap(before: Seq<char>, gap: Seq<char>, text: Seq<char>) -> Seq<char> {
    if before.len() > 0 {
        before + gap + text
    } else {
        text
    }
}

/// The marks of a style, in order.
pub open spec fn marks_of_style(marks: Seq<Mark>, style: LabelStyle) -> Seq<Mark>
    decreases marks.len(),
{
    if marks.len() == 0 {
        Seq::empty()
    } else if marks.last().style == style {
        marks_of_style(marks.drop_last(), style).push(marks.last())
    } else {
        marks_of_style(marks.drop_last(), style)
    }
}

proof fn lemma_marks_of_style(marks: Seq<Mark>, style: LabelStyle)
    ensures
        styled(marks, style) == marks_of_style(marks, style),
    decreases marks.len(),
{
    reveal(Seq::filter);
    if marks.len() > 0 {
        lemma_marks_of_style(marks.drop_last(), style);
    }
}

/// The text of the first secondary label, which is the whole license expression.
pub open spec fn expression_of(files: Files, marks: Seq<Mark>) -> Option<Seq<char>> {
    let secondary = marks_of_style(marks, LabelStyle::Secondary);
    if secondary.len() == 0 {
        None
    } else {
        match files.location_of(secondary[0]) {
            Some(location) => match location.physical_location.region.snippet {
                Some(snippet) => Some(snippet@),
                None => None,
            },
            None => None,
        }
    }
}

/// The whole license expression stands behind the message, where it is known.
pub proof fn license_message_has_its_expression(message: Seq<char>, marks: Seq<Mark>, files: Files)
    ensures
        with_expression(message, marks, files) == (match expression_of(files, marks) {
            Some(expression) => behind_gap(message, seq!['\n', '\n'], expression),
            None => message,
        }),
{
    reveal_strlit("\n\n");
    assert("\n\n"@ =~= seq!['\n', '\n']);
    lemma_marks_of_style(marks, LabelStyle::Secondary);
    if let Some(expression) = expression_of(files, marks) {
        assert(Seq::<char>::empty() + expression =~= expression);
        assert(message.len() == 0 ==> message + expression =~= expression);
    }
}

/// The primary labels of a license diagnostic are listed behind the text, where there
/// are any.
pub proof fn license_message_has_its_details(md: Seq<char>, marks: Seq<Mark>, files: Files)
    ensures
        ({
            let primary = marks_of_style(marks, LabelStyle::Primary);
            with_details(md, marks, files) == (if primary.len() == 0 {
                md
            } else {
                behind_gap(
                    md,
                    seq!['\n', '\n'],
                    "**License Details:**\n"@ + in_a_row(
                        Seq::new(primary.len(), |i: int| license_line(files, primary[i])),
                    ),
                )
            })
        }),
{
    reveal_strlit("\n\n");
    assert("\n\n"@ =~= seq!['\n', '\n']);
    let primary = marks_of_style(marks, LabelStyle::Primary);
    lemma_marks_of_style(marks, LabelStyle::Primary);
    each_license_has_its_line(files, primary);
    let title = "**License Details:**\n"@;
    let lines = detail_lines(files, primary);
    assert(gapped(md, "\n\n"@) + title + lines =~= behind_gap(
        md,
        seq!['\n', '\n'],
        title + lines,
    ));
}

/// The notes of a license diagnostic are listed behind the text, where there are any.
pub proof fn license_message_has_its_notes(md: Seq<char>, notes: Seq<String>)
    ensures
        with_notes(md, notes) == (if notes.len() == 0 {
            md
        } else {
            behind_gap(
                md,
                seq!['\n'],
                "**License Information:**\n"@ + in_a_row(
                    Seq::new(notes.len(), |i: int| note_line(notes[i]@)),
                ) + seq!['\n'],
            )
        }),
{
    reveal_strlit("\n");
    assert("\n"@ =~= seq!['\n']);
    each_note_has_its_line(notes);
    let title = "**License Information:**\n"@;
    let lines = note_lines(notes);
    assert(gapped(md, "\n"@) + title + lines + "\n"@ =~= behind_gap(
        md,
        seq!['\n'],
        title + lines + seq!['\n'],
    ));
}

/// The graph of the first node of a license diagnostic is shown behind the text, if
/// there is one.
pub proof fn license_message_has_its_graph(
    md: Seq<char>,
    g: KrateGraph,
    nodes: Seq<diag::GraphNode>,
    max: nat,
)
    ensures
        with_graph(md, g, nodes, max) == (if nodes.len() == 0 {
            md
        } else {
            match graph_of(g, nodes[0].kid, name_of_feature(nodes[0]), max) {
                None => md,
                Some(tree) => behind_gap(
                    md,
                    seq!['\n'],
                    "## Dependency Graph\n\n```\n"@ + rendered(tree, Seq::empty(), true)
                        + "\n```\n"@,
                ),
            }
        }),
{
    reveal_strlit("\n");
    assert("\n"@ =~= seq!['\n']);
    if nodes.len() > 0 {
        assert(name_of_feature(nodes[0]) == nodes[0].feature_text());
        if let Some(tree) = graph_of(g, nodes[0].kid, name_of_feature(nodes[0]), max) {
            let text = graph_text(license_graph_style(), tree);
            assert(gapped(md, "\n"@) + text =~= behind_gap(md, seq!['\n'], text));
        }
    }
}

/// The message of a license diagnostic is its text; as markdown it has the license
/// expression, the details, the notes and the graph behind it, in this order.
pub proof fn license_message_has_its_parts(g: KrateGraph, max: nat, diag: Diag, files: Files)
    ensures
        ({
            let marks = marks_of(diag.diag.labels@);
            let message = license_finding(g, max, diag, files).message;
            let a = with_expression(diag.diag.message@, marks, files);
            let b = with_details(a, marks, files);
            let c = with_notes(b, diag.diag.notes@);
            &&& message.text == diag.diag.message@
            &&& message.markdown == Some(with_graph(c, g, diag.graph_nodes@, max))
            &&& diag.diag.message@.is_prefix_of(message.markdown->0)
        }),
{
    let marks = marks_of(diag.diag.labels@);
    let first = diag.diag.message@;
    let a = with_expression(first, marks, files);
    let b = with_details(a, marks, files);
    let c = with_notes(b, diag.diag.notes@);
    let d = with_graph(c, g, diag.graph_nodes@, max);
    assert(a.take(first.len() as int) =~= first);
    assert(b.take(first.len() as int) =~= first) by {
        assert(b.take(a.len() as int) =~= a);
        assert(b.take(first.len() as int) =~= a.take(first.len() as int));
    }
    assert(c.take(first.len() as int) =~= first) by {
        assert(c.take(b.len() as int) =~= b);
        assert(c.take(first.len() as int) =~= b.take(first.len() as int));
    }
    assert(d.take(first.len() as int) =~= first) by {
        assert(d.take(c.len() as int) =~= c);
        assert(d.take(first.len() as int) =~= c.take(first.len() as int));
    }
}

/// Whether the titles of a style name the parts that stand under them.
pub open spec fn titles_name_parts(style: AdvisoryStyle) -> bool {
    &&& "## Description"@.is_prefix_of(style.description@)
    &&& "## Unaffected\n"@.is_prefix_of(style.unaffected@)
    &&& "## Patched\n"@.is_prefix_of(style.patched@)
    &&& "## Affected\n"@.is_prefix_of(style.affected@)
    &&& "### Arches\n"@.is_prefix_of(style.arches@)
    &&& "### Operating Systems\n"@.is_prefix_of(style.systems@)
}

/// Each part of an advisory stands under a title of its own, in every style.
pub proof fn parts_have_their_titles()
    ensures
        titles_name_parts(dense_style()),
        titles_name_parts(spaced_style()),
        titles_name_parts(detailed_style()),
{
    reveal_strlit("## Description");
    reveal_strlit("## Description\n");
    reveal_strlit("## Description\n\n");
    reveal_strlit("## Description  \n\n");
    reveal_strlit("## Unaffected\n");
    reveal_strlit("## Unaffected\n\n");
    reveal_strlit("## Patched\n");
    reveal_strlit("## Patched\n\n");
    reveal_strlit("## Affected\n");
    reveal_strlit("## Affected\n\n");
    reveal_strlit("### Arches\n");
    reveal_strlit("### Arches\n\n");
    reveal_strlit("### Operating Systems\n");
    reveal_strlit("### Operating Systems\n\n");
    lemma_titles(dense_style());
    lemma_titles(spaced_style());
    lemma_titles(detailed_style());
}

proof fn lemma_titles(style: AdvisoryStyle)
    requires
        style.description@.take(14) =~= "## Description"@,
        style.unaffected@.take(14) =~= "## Unaffected\n"@,
        style.patched@.take(11) =~= "## Patched\n"@,
        style.affected@.take(12) =~= "## Affected\n"@,
        style.arches@.take(11) =~= "### Arches\n"@,
        style.systems@.take(22) =~= "### Operating Systems\n"@,
        style.description@.len() >= 14,
        style.unaffected@.len() >= 14,
        style.patched@.len() >= 11,
        style.affected@.len() >= 12,
        style.arches@.len() >= 11,
        style.systems@.len() >= 22,
        "## Description"@.len() == 14,
        "## Unaffected\n"@.len() == 14,
        "## Patched\n"@.len() == 11,
        "## Affected\n"@.len() == 12,
        "### Arches\n"@.len() == 11,
        "### Operating Systems\n"@.len() == 22,
    ensures
        titles_name_parts(style),
{
}

/// Whether `part` stands somewhere in `text`.
pub open spec fn holds(text: Seq<char>, part: Seq<char>) -> bool {
    exists|i: int|
        0 <= i <= text.len() - part.len() && #[trigger] text.subrange(i, i + part.len()) == part
}

/// Whether what a style puts around a graph opens and closes a block of code.
pub open spec fn makes_a_block(style: GraphStyle) -> bool {
    holds(style.before@, seq!['`', '`', '`']) && holds(style.after@, seq!['`', '`', '`'])
}

/// Every graph stands in a block of code, and those with a number under a title.
pub proof fn graphs_stand_in_blocks()
    ensures
        makes_a_block(dense_graph_style()),
        makes_a_block(spaced_graph_style()),
        makes_a_block(license_graph_style()),
        makes_a_block(dense_numbered_style().graph),
        makes_a_block(other_style().graph),
        holds(dense_numbered_style().before_number@, "Dependency Graph "@),
        holds(other_style().before_number@, "Dependency Graph "@),
{
    reveal_strlit("## Dependency Graph\n\n```\n");
    reveal_strlit("\n```\n");
    reveal_strlit("  \n\n## Dependency Graph  \n\n```  \n\n");
    reveal_strlit("  \n```  \n\n");
    reveal_strlit("```\n");
    reveal_strlit("```  \n");
    reveal_strlit("  \n```  \n");
    reveal_strlit("## Dependency Graph ");
    reveal_strlit("**Dependency Graph ");
    reveal_strlit("Dependency Graph ");
    lemma_holds("## Dependency Graph\n\n```\n"@, seq!['`', '`', '`'], 21);
    lemma_holds("\n```\n"@, seq!['`', '`', '`'], 1);
    lemma_holds("  \n\n## Dependency Graph  \n\n```  \n\n"@, seq!['`', '`', '`'], 27);
    lemma_holds("  \n```  \n\n"@, seq!['`', '`', '`'], 3);
    lemma_holds("```\n"@, seq!['`', '`', '`'], 0);
    lemma_holds("```  \n"@, seq!['`', '`', '`'], 0);
    lemma_holds("  \n```  \n"@, seq!['`', '`', '`'], 3);
    lemma_holds("## Dependency Graph "@, "Dependency Graph "@, 3);
    lemma_holds("**Dependency Graph "@, "Dependency Graph "@, 2);
}

proof fn lemma_holds(text: Seq<char>, part: Seq<char>, i: int)
    requires
        0 <= i <= text.len() - part.len(),
        forall|k: int| 0 <= k < part.len() ==> text[i + k] == #[trigger] part[k],
    ensures
        holds(text, part),
{
    assert(text.subrange(i, i + part.len()) =~= part);
}

} // verus!
