//! Inclusion graphs as text, one line for each node.

use crate::diag::grapher::{GraphNode, NodeInner, Shown, Tree};
use crate::small::{levels_of, Levels};
use vstd::prelude::*;
use vstd::utf8::encode_utf8;

verus! {

/// A column for each level: a bar where more lines of the level follow.
pub open spec fn bars(levels: Seq<bool>) -> Seq<char>
    decreases levels.len(),
{
    if levels.len() == 0 {
        Seq::empty()
    } else {
        bars(levels.drop_last()) + (if levels.last() {
            "\u{2502}   "@
        } else {
            "    "@
        })
    }
}

/// What stands before a node at the given levels: the columns of the outer
/// levels, then a branch, which is the last one where no more lines follow.
pub open spec fn indent(levels: Seq<bool>) -> Seq<char> {
    if levels.len() == 0 {
        Seq::empty()
    } else {
        bars(levels.drop_last()) + (if levels.last() {
            "\u{251c}\u{2500}\u{2500} "@
        } else {
            "\u{2514}\u{2500}\u{2500} "@
        })
    }
}

/// The mark of a node that is shown elsewhere with what is above it.
pub open spec fn star(repeat: bool) -> Seq<char> {
    if repeat {
        " (*)"@
    } else {
        ""@
    }
}

/// The kind of a dependency, in front of the name of the crate.
pub open spec fn kind_mark(kind: Option<Seq<char>>) -> Seq<char> {
    match kind {
        Some(kind) => "("@ + kind + ") "@,
        None => Seq::empty(),
    }
}

/// The line of a node.
pub open spec fn line(t: Tree) -> Seq<char> {
    match t.inner {
        Shown::Krate { name, version, kind, .. } => kind_mark(kind) + name + " v"@ + version.text()
            + star(t.repeat) + "\n"@,
        Shown::Feature { crate_name, name, .. } => crate_name + " feature '"@ + name + "' "@ + star(
            t.repeat,
        ) + "\n"@,
    }
}

/// Whether a node is a crate of the project.
pub open spec fn is_project(t: Tree) -> bool {
    t.inner matches Shown::Krate { is_project_crate, .. } && is_project_crate
}

/// The lines of a node and of what is above it. With `stop`, nothing above a
/// crate of the project is shown.
pub open spec fn rendered(t: Tree, levels: Seq<bool>, stop: bool) -> Seq<char>
    decreases t, 0nat,
{
    indent(levels) + line(t) + (if stop && is_project(t) {
        Seq::empty()
    } else {
        rendered_all(t.parents, t.parents.len(), levels, stop)
    })
}

/// The lines of the first `n` of `trees`, one level below `levels`.
pub open spec fn rendered_all(
    trees: Seq<Tree>,
    n: nat,
    levels: Seq<bool>,
    stop: bool,
) -> Seq<char>
    decreases trees, n,
{
    if n == 0 || n > trees.len() {
        Seq::empty()
    } else {
        rendered_all(trees, (n - 1) as nat, levels, stop) + rendered(
            trees[n - 1],
            levels.push(n < trees.len()),
            stop,
        )
    }
}

/// Appends what stands before a node at the given levels.
fn write_indent(out: &mut String, levels: &Levels)
    ensures
        final(out)@ == old(out)@ + indent(levels_of(*levels)),
{
    let n = levels.len();
    if n == 0 {
        assert(out@ =~= old(out)@ + indent(levels_of(*levels)));
        return;
    }
    let ghost all = levels_of(*levels);
    let mut i: usize = 0;
    assert(out@ =~= old(out)@ + bars(all.take(0)));
    while i < n - 1
        invariant
            n == all.len(),
            n > 0,
            all == levels_of(*levels),
            i <= n - 1,
            out@ == old(out)@ + bars(all.take(i as int)),
        decreases n - 1 - i,
    {
        if levels.at(i) {
            out.append("\u{2502}   ");
        } else {
            out.append("    ");
        }
        i += 1;
        assert(all.take(i as int).drop_last() =~= all.take(i - 1));
        assert(out@ =~= old(out)@ + bars(all.take(i as int)));
    }
    assert(all.take(i as int) =~= all.drop_last());
    if levels.at(n - 1) {
        out.append("\u{251c}\u{2500}\u{2500} ");
    } else {
        out.append("\u{2514}\u{2500}\u{2500} ");
    }
    assert(out@ =~= old(out)@ + indent(all));
}

/// Appends the line of a node.
fn write_line(out: &mut String, node: &GraphNode)
    ensures
        final(out)@ == old(out)@ + line(node@),
{
    let star = if !node.repeat {
        ""
    } else {
        " (*)"
    };
    match &node.inner {
        NodeInner::Krate { name, version, kind, .. } => {
            if let Some(kind) = kind {
                out.append("(");
                out.append(kind);
                out.append(") ");
            }
            out.append(name.as_str());
            out.append(" v");
            version.push_text(out);
            out.append(star);
            out.append("\n");
        },
        NodeInner::Feature { crate_name, name, .. } => {
            out.append(crate_name.as_str());
            out.append(" feature '");
            out.append(name.as_str());
            out.append("' ");
            out.append(star);
            out.append("\n");
        },
    }
    assert(out@ =~= old(out)@ + line(node@));
}

/// Appends the lines of a node and of what is above it.
fn write(node: &GraphNode, out: &mut String, levels: &mut Levels, stop_at_project_crate: bool)
    ensures
        final(out)@ == old(out)@ + rendered(
            node@,
            levels_of(*old(levels)),
            stop_at_project_crate,
        ),
        levels_of(*final(levels)) == levels_of(*old(levels)),
    decreases *node,
{
    let ghost all = levels_of(*levels);
    let ghost before = out@;
    write_indent(out, levels);
    write_line(out, node);
    if let NodeInner::Krate { is_project_crate, .. } = &node.inner {
        if stop_at_project_crate && *is_project_crate {
            assert(out@ =~= before + rendered(node@, all, stop_at_project_crate));
            return;
        }
    }
    let ghost head = indent(all) + line(node@);
    let n = node.parents.len();
    let mut i: usize = 0;
    assert(out@ =~= before + head + rendered_all(node@.parents, 0, all, stop_at_project_crate));
    while i < n
        invariant
            n == node.parents.len(),
            i <= n,
            levels_of(*levels) == all,
            out@ == before + head + rendered_all(
                node@.parents,
                i as nat,
                all,
                stop_at_project_crate,
            ),
        decreases n - i,
    {
        let ghost done = out@;
        levels.push(i < n - 1);
        write(&node.parents[i], out, levels, stop_at_project_crate);
        levels.pop();
        assert(all.push(i < n - 1).drop_last() =~= all);
        i += 1;
        assert(out@ =~= before + head + rendered_all(
            node@.parents,
            i as nat,
            all,
            stop_at_project_crate,
        ));
    }
    assert(out@ =~= before + rendered(node@, all, stop_at_project_crate));
}

fn write_graph_as_text_internal(root: &GraphNode, stop_at_project_crate: bool) -> (text: String)
    ensures
        text@ == rendered(root@, Seq::empty(), stop_at_project_crate),
{
    let mut out = String::new();
    let mut levels = Levels::new();
    write(root, &mut out, &mut levels, stop_at_project_crate);
    assert(out@ =~= rendered(root@, Seq::empty(), stop_at_project_crate));
    out
}

/// The lines of the whole graph.
pub fn write_graph_as_text(root: &GraphNode) -> (text: String)
    ensures
        text@ == rendered(root@, Seq::empty(), false),
{
    write_graph_as_text_internal(root, false)
}

/// The lines of the graph up to the crates of the project.
pub fn write_compact_graph_as_text(root: &GraphNode) -> (text: String)
    ensures
        text@ == rendered(root@, Seq::empty(), true),
{
    write_graph_as_text_internal(root, true)
}

/// The compact text of a graph is never longer than the whole text, neither in
/// characters nor in bytes.
pub proof fn compact_is_no_longer(t: Tree, levels: Seq<bool>)
    ensures
        rendered(t, levels, true).len() <= rendered(t, levels, false).len(),
        encode_utf8(rendered(t, levels, true)).len() <= encode_utf8(
            rendered(t, levels, false),
        ).len(),
    decreases t, 0nat,
{
    let head = indent(levels) + line(t);
    let parents = rendered_all(t.parents, t.parents.len(), levels, false);
    encode_utf8_adds_up(head, parents);
    if is_project(t) {
        assert(rendered(t, levels, true) =~= head);
    } else {
        compact_all_is_no_longer(t.parents, t.parents.len(), levels);
        encode_utf8_adds_up(head, rendered_all(t.parents, t.parents.len(), levels, true));
    }
}

/// The compact text of the first `n` of some graphs is never longer than the
/// whole text.
proof fn compact_all_is_no_longer(trees: Seq<Tree>, n: nat, levels: Seq<bool>)
    ensures
        rendered_all(trees, n, levels, true).len() <= rendered_all(trees, n, levels, false).len(),
        encode_utf8(rendered_all(trees, n, levels, true)).len() <= encode_utf8(
            rendered_all(trees, n, levels, false),
        ).len(),
    decreases trees, n,
{
    if n > 0 && n <= trees.len() {
        let inner = levels.push(n < trees.len());
        let before = (n - 1) as nat;
        compact_all_is_no_longer(trees, before, levels);
        compact_is_no_longer(trees[n - 1], inner);
        encode_utf8_adds_up(
            rendered_all(trees, before, levels, true),
            rendered(trees[n - 1], inner, true),
        );
        encode_utf8_adds_up(
            rendered_all(trees, before, levels, false),
            rendered(trees[n - 1], inner, false),
        );
    }
}

/// Two texts in a row take the bytes of both.
proof fn encode_utf8_adds_up(a: Seq<char>, b: Seq<char>)
    ensures
        encode_utf8(a + b).len() == encode_utf8(a).len() + encode_utf8(b).len(),
    decreases a.len(),
{
    if a.len() == 0 {
        assert(a + b =~= b);
    } else {
        assert((a + b).drop_first() =~= a.drop_first() + b);
        encode_utf8_adds_up(a.drop_first(), b);
    }
}

/// The line of a node, and whether the node lies above a crate of the project.
pub struct Listed {
    pub text: Seq<char>,
    pub hidden: bool,
}

/// The lines of a node and of what is above it, one for each node.
pub open spec fn listed(t: Tree, levels: Seq<bool>, hidden: bool) -> Seq<Listed>
    decreases t, 0nat,
{
    seq![Listed { text: indent(levels) + line(t), hidden }] + listed_all(
        t.parents,
        t.parents.len(),
        levels,
        hidden || is_project(t),
    )
}

/// The lines of the first `n` of `trees`, one level below `levels`.
pub open spec fn listed_all(trees: Seq<Tree>, n: nat, levels: Seq<bool>, hidden: bool) -> Seq<
    Listed,
>
    decreases trees, n,
{
    if n == 0 || n > trees.len() {
        Seq::empty()
    } else {
        listed_all(trees, (n - 1) as nat, levels, hidden) + listed(
            trees[n - 1],
            levels.push(n < trees.len()),
            hidden,
        )
    }
}

/// Some lines in a row.
pub open spec fn joined(lines: Seq<Listed>) -> Seq<char>
    decreases lines.len(),
{
    if lines.len() == 0 {
        Seq::empty()
    } else {
        joined(lines.drop_last()) + lines.last().text
    }
}

/// The lines that are not hidden, in order.
pub open spec fn kept(lines: Seq<Listed>) -> Seq<Listed>
    decreases lines.len(),
{
    if lines.len() == 0 {
        Seq::empty()
    } else if lines.last().hidden {
        kept(lines.drop_last())
    } else {
        kept(lines.drop_last()).push(lines.last())
    }
}

proof fn lemma_joined_adds_up(a: Seq<Listed>, b: Seq<Listed>)
    ensures
        joined(a + b) == joined(a) + joined(b),
    decreases b.len(),
{
    if b.len() == 0 {
        assert(a + b =~= a);
        assert(joined(a) + joined(b) =~= joined(a));
    } else {
        assert((a + b).drop_last() =~= a + b.drop_last());
        lemma_joined_adds_up(a, b.drop_last());
        assert(joined(a + b) =~= joined(a) + joined(b));
    }
}

proof fn lemma_kept_adds_up(a: Seq<Listed>, b: Seq<Listed>)
    ensures
        kept(a + b) == kept(a) + kept(b),
    decreases b.len(),
{
    if b.len() == 0 {
        assert(a + b =~= a);
        assert(kept(a) + kept(b) =~= kept(a));
    } else {
        assert((a + b).drop_last() =~= a + b.drop_last());
        lemma_kept_adds_up(a, b.drop_last());
        assert(kept(a + b) =~= kept(a) + kept(b));
    }
}

/// A single line.
proof fn lemma_one_line(one: Listed)
    ensures
        joined(seq![one]) == one.text,
        kept(seq![one]) == (if one.hidden {
            Seq::empty()
        } else {
            seq![one]
        }),
{
    reveal_with_fuel(joined, 2);
    reveal_with_fuel(kept, 2);
    assert(seq![one].drop_last() =~= Seq::empty());
    assert(joined(seq![one]) =~= one.text);
    assert(kept(seq![one]) =~= (if one.hidden {
        Seq::empty()
    } else {
        seq![one]
    }));
}

/// The whole text is made of the lines of all nodes. The compact text is made of
/// the same lines, unaltered and in order, less exactly those of the nodes above
/// crates of the project.
pub proof fn compact_keeps_the_lines(t: Tree, levels: Seq<bool>)
    ensures
        rendered(t, levels, false) == joined(listed(t, levels, false)),
        rendered(t, levels, true) == joined(kept(listed(t, levels, false))),
{
    lemma_lines(t, levels, false);
}

proof fn lemma_lines(t: Tree, levels: Seq<bool>, hidden: bool)
    ensures
        rendered(t, levels, false) == joined(listed(t, levels, hidden)),
        !hidden ==> rendered(t, levels, true) == joined(kept(listed(t, levels, hidden))),
        hidden ==> kept(listed(t, levels, hidden)) == Seq::<Listed>::empty(),
    decreases t, 0nat,
{
    let one = Listed { text: indent(levels) + line(t), hidden };
    let below = hidden || is_project(t);
    let rest = listed_all(t.parents, t.parents.len(), levels, below);
    lemma_lines_all(t.parents, t.parents.len(), levels, below);
    lemma_one_line(one);
    lemma_joined_adds_up(seq![one], rest);
    lemma_kept_adds_up(seq![one], rest);
    lemma_joined_adds_up(kept(seq![one]), kept(rest));
    if hidden {
        assert(kept(listed(t, levels, hidden)) =~= Seq::<Listed>::empty());
    } else if is_project(t) {
        assert(joined(kept(rest)) =~= Seq::<char>::empty());
    }
}

proof fn lemma_lines_all(trees: Seq<Tree>, n: nat, levels: Seq<bool>, hidden: bool)
    ensures
        rendered_all(trees, n, levels, false) == joined(listed_all(trees, n, levels, hidden)),
        !hidden ==> rendered_all(trees, n, levels, true) == joined(
            kept(listed_all(trees, n, levels, hidden)),
        ),
        hidden ==> kept(listed_all(trees, n, levels, hidden)) == Seq::<Listed>::empty(),
    decreases trees, n,
{
    if n > 0 && n <= trees.len() {
        let first = listed_all(trees, (n - 1) as nat, levels, hidden);
        let inner = levels.push(n < trees.len());
        let last = listed(trees[n - 1], inner, hidden);
        lemma_lines_all(trees, (n - 1) as nat, levels, hidden);
        lemma_lines(trees[n - 1], inner, hidden);
        lemma_joined_adds_up(first, last);
        lemma_kept_adds_up(first, last);
        lemma_joined_adds_up(kept(first), kept(last));
        if hidden {
            assert(kept(listed_all(trees, n, levels, hidden)) =~= Seq::<Listed>::empty());
        }
    }
}

/// Whether nothing is above a crate of the project.
pub open spec fn nothing_above_project(t: Tree) -> bool
    decreases t,
{
    &&& is_project(t) ==> t.parents.len() == 0
    &&& forall|i: int|
        0 <= i < t.parents.len() ==> nothing_above_project(#[trigger] t.parents[i])
}

/// The compact text is the whole text exactly where no crate of the project has
/// anything above it.
pub proof fn compact_is_whole(t: Tree, levels: Seq<bool>)
    ensures
        rendered(t, levels, true) == rendered(t, levels, false) <==> nothing_above_project(t),
{
    lemma_compact_length(t, levels);
}

proof fn lemma_compact_length(t: Tree, levels: Seq<bool>)
    ensures
        rendered(t, levels, true).len() <= rendered(t, levels, false).len(),
        nothing_above_project(t) ==> rendered(t, levels, true) == rendered(t, levels, false),
        !nothing_above_project(t) ==> rendered(t, levels, true).len() < rendered(
            t,
            levels,
            false,
        ).len(),
    decreases t, 0nat,
{
    let n = t.parents.len();
    if is_project(t) {
        if n > 0 {
            let last = rendered(t.parents[n - 1], levels.push(false), false);
            lemma_line_has_text(t.parents[n - 1]);
            reveal_with_fuel(rendered, 2);
            assert(last.len() > 0);
            assert(rendered_all(t.parents, n, levels, false) == rendered_all(
                t.parents,
                (n - 1) as nat,
                levels,
                false,
            ) + last);
        } else {
            assert(rendered_all(t.parents, n, levels, false) =~= Seq::<char>::empty());
        }
    } else {
        lemma_compact_lengths(t.parents, n, levels);
        if nothing_above_project(t) {
            assert(forall|i: int|
                0 <= i < n ==> nothing_above_project(#[trigger] t.parents[i]));
        }
    }
}

proof fn lemma_compact_lengths(trees: Seq<Tree>, n: nat, levels: Seq<bool>)
    requires
        n <= trees.len(),
    ensures
        rendered_all(trees, n, levels, true).len() <= rendered_all(trees, n, levels, false).len(),
        (forall|i: int| 0 <= i < n ==> nothing_above_project(#[trigger] trees[i]))
            ==> rendered_all(trees, n, levels, true) == rendered_all(trees, n, levels, false),
        !(forall|i: int| 0 <= i < n ==> nothing_above_project(#[trigger] trees[i]))
            ==> rendered_all(trees, n, levels, true).len() < rendered_all(
            trees,
            n,
            levels,
            false,
        ).len(),
    decreases trees, n,
{
    if n > 0 {
        lemma_compact_lengths(trees, (n - 1) as nat, levels);
        lemma_compact_length(trees[n - 1], levels.push(n < trees.len()));
        if !(forall|i: int| 0 <= i < n ==> nothing_above_project(#[trigger] trees[i])) {
            let i = choose|i: int| 0 <= i < n && !nothing_above_project(#[trigger] trees[i]);
            if i < n - 1 {
                assert(!(forall|k: int|
                    0 <= k < n - 1 ==> nothing_above_project(#[trigger] trees[k])));
            }
        }
    }
}

/// No line is empty: each has the end of a line.
proof fn lemma_line_has_text(t: Tree)
    ensures
        line(t).len() > 0,
{
    reveal_strlit("\n");
    assert("\n"@.len() == 1);
}

/// Whether no crate of the project is in the graph.
pub open spec fn no_project(t: Tree) -> bool
    decreases t,
{
    &&& !is_project(t)
    &&& forall|i: int| 0 <= i < t.parents.len() ==> no_project(#[trigger] t.parents[i])
}

/// Without a crate of the project the compact text is the whole text.
pub proof fn compact_is_whole_without_project(t: Tree, levels: Seq<bool>)
    requires
        no_project(t),
    ensures
        rendered(t, levels, true) == rendered(t, levels, false),
    decreases t, 0nat,
{
    compact_all_is_whole(t.parents, t.parents.len(), levels);
}

proof fn compact_all_is_whole(trees: Seq<Tree>, n: nat, levels: Seq<bool>)
    requires
        forall|i: int| 0 <= i < trees.len() ==> no_project(#[trigger] trees[i]),
    ensures
        rendered_all(trees, n, levels, true) == rendered_all(trees, n, levels, false),
    decreases trees, n,
{
    if n > 0 && n <= trees.len() {
        compact_all_is_whole(trees, (n - 1) as nat, levels);
        compact_is_whole_without_project(trees[n - 1], levels.push(n < trees.len()));
    }
}

/// Either text of a graph starts with the line of the root, which holds the name
/// and the version of a crate.
pub proof fn text_starts_with_root(t: Tree, stop: bool)
    ensures
        line(t).is_prefix_of(rendered(t, Seq::empty(), stop)),
        t.inner matches Shown::Krate { name, version, kind, .. } ==> (kind_mark(kind) + name
            + " v"@ + version.text()).is_prefix_of(line(t)),
{
    assert(rendered(t, Seq::empty(), stop).take(line(t).len() as int) =~= line(t));
    if let Shown::Krate { name, version, kind, .. } = t.inner {
        let head = kind_mark(kind) + name + " v"@ + version.text();
        assert(line(t).take(head.len() as int) =~= head);
    }
}

} // verus!
