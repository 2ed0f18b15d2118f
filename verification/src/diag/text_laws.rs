//! What every character of the text of an inclusion graph says.

use crate::diag::grapher::{Shown, Tree};
use crate::diag::tree_text::{bars, indent, is_project, line, rendered, rendered_all};
use crate::krate_graph::Version;
use crate::text::decimal;
use vstd::prelude::*;

verus! {

/// The node that is reached from `t` by going up to the parent that each index of
/// `place` names.
pub open spec fn node_at(t: Tree, place: Seq<int>) -> Tree
    decreases place.len(),
{
    if place.len() == 0 {
        t
    } else {
        node_at(t.parents[place[0]], place.skip(1))
    }
}

/// Whether there is a node at `place`.
pub open spec fn is_place(t: Tree, place: Seq<int>) -> bool
    decreases place.len(),
{
    if place.len() == 0 {
        true
    } else {
        0 <= place[0] < t.parents.len() && is_place(t.parents[place[0]], place.skip(1))
    }
}

/// Whether the node of a place at level `k` has a sibling behind it.
pub open spec fn has_more(t: Tree, place: Seq<int>, k: int) -> bool {
    place[k] + 1 < node_at(t, place.take(k)).parents.len()
}

/// Whether a place lies above a crate of the project.
pub open spec fn is_hidden(t: Tree, place: Seq<int>) -> bool {
    exists|k: int|
        0 <= k < place.len() && (node_at(t, #[trigger] place.take(k)).inner matches Shown::Krate {
            is_project_crate,
            ..
        } && is_project_crate)
}

/// Whether a place is listed before another: what is below before what is above it,
/// and a sibling with all that is above it before the next one.
pub open spec fn listed_before(a: Seq<int>, b: Seq<int>) -> bool {
    exists|k: int| #[trigger] part_ways(a, b, k)
}

/// Whether two places are the same up to `k`, where the first ends or goes to an
/// earlier parent.
pub open spec fn part_ways(a: Seq<int>, b: Seq<int>, k: int) -> bool {
    &&& 0 <= k <= a.len()
    &&& k < b.len()
    &&& a.take(k) == b.take(k)
    &&& k == a.len() || a[k] < b[k]
}

/// Whether `margin` is what stands before the node at `place`: four characters for
/// each level, with a bar for an outer level that goes on and a branch for the last
/// level.
pub open spec fn is_margin(t: Tree, place: Seq<int>, margin: Seq<char>) -> bool {
    &&& margin.len() == 4 * place.len()
    &&& forall|k: int|
        #![trigger place[k]]
        0 <= k < place.len() - 1 ==> {
            &&& margin[4 * k] == (if has_more(t, place, k) {
                '\u{2502}'
            } else {
                ' '
            })
            &&& margin[4 * k + 1] == ' '
            &&& margin[4 * k + 2] == ' '
            &&& margin[4 * k + 3] == ' '
        }
    &&& place.len() > 0 ==> {
        let last = place.len() - 1;
        &&& margin[4 * last] == (if has_more(t, place, last) {
            '\u{251c}'
        } else {
            '\u{2514}'
        })
        &&& margin[4 * last + 1] == '\u{2500}'
        &&& margin[4 * last + 2] == '\u{2500}'
        &&& margin[4 * last + 3] == ' '
    }
}

/// Whether `text` is the text of a version: three numbers between dots, then a
/// pre-release and a build part with their marks, where there are any.
pub open spec fn is_version_text(v: Version, text: Seq<char>) -> bool {
    let numbers = decimal(v.major as nat) + seq!['.'] + decimal(v.minor as nat) + seq!['.']
        + decimal(v.patch as nat);
    let with_pre = if v.pre@.len() > 0 {
        numbers + seq!['-'] + v.pre@
    } else {
        numbers
    };
    text == (if v.build@.len() > 0 {
        with_pre + seq!['+'] + v.build@
    } else {
        with_pre
    })
}

/// Whether `text` is the line of a node without its margin: for a crate the kind of
/// the dependency in brackets, the name and the version; for a feature the names of
/// the crate and of the feature; then a mark on a repeat, and the end of the line.
pub open spec fn is_line_of(node: Tree, text: Seq<char>) -> bool {
    let end = if node.repeat {
        seq![' ', '(', '*', ')', '\n']
    } else {
        seq!['\n']
    };
    match node.inner {
        Shown::Krate { name, version, kind, .. } => {
            let before = match kind {
                Some(kind) => seq!['('] + kind + seq![')', ' '],
                None => Seq::empty(),
            };
            exists|v: Seq<char>| #[trigger]
                is_version_text(version, v) && text == before + name + seq![' ', 'v'] + v + end
        },
        Shown::Feature { crate_name, name, .. } => text == crate_name + seq![
            ' ',
            'f',
            'e',
            'a',
            't',
            'u',
            'r',
            'e',
            ' ',
            '\'',
        ] + name + seq!['\'', ' '] + end,
    }
}

/// Some texts in a row.
pub open spec fn in_a_row(texts: Seq<Seq<char>>) -> Seq<char>
    decreases texts.len(),
{
    if texts.len() == 0 {
        Seq::empty()
    } else {
        in_a_row(texts.drop_last()) + texts.last()
    }
}

/// Which levels of a place go on.
spec fn more(t: Tree, place: Seq<int>) -> Seq<bool>
    decreases place.len(),
{
    if place.len() == 0 {
        Seq::empty()
    } else {
        seq![place[0] + 1 < t.parents.len()] + more(t.parents[place[0]], place.skip(1))
    }
}

/// The places that are listed, in order.
spec fn places(t: Tree, stop: bool) -> Seq<Seq<int>>
    decreases t, 0nat,
{
    seq![Seq::<int>::empty()] + (if stop && is_project(t) {
        Seq::empty()
    } else {
        places_in(t.parents, t.parents.len(), stop)
    })
}

/// The places in the first `n` of some trees, each behind the index of its tree.
spec fn places_in(trees: Seq<Tree>, n: nat, stop: bool) -> Seq<Seq<int>>
    decreases trees, n,
{
    if n == 0 || n > trees.len() {
        Seq::empty()
    } else {
        places_in(trees, (n - 1) as nat, stop) + behind(n - 1, places(trees[n - 1], stop))
    }
}

/// Some places, each behind the index `first`.
spec fn behind(first: int, list: Seq<Seq<int>>) -> Seq<Seq<int>> {
    Seq::new(list.len(), |i: int| seq![first] + list[i])
}

/// The line at a place with its margin, inside of `levels`.
spec fn row(t: Tree, levels: Seq<bool>, place: Seq<int>) -> Seq<char> {
    indent(levels + more(t, place)) + line(node_at(t, place))
}

spec fn rows(t: Tree, levels: Seq<bool>, list: Seq<Seq<int>>) -> Seq<Seq<char>> {
    Seq::new(list.len(), |i: int| row(t, levels, list[i]))
}

proof fn lemma_in_a_row(a: Seq<Seq<char>>, b: Seq<Seq<char>>)
    ensures
        in_a_row(a + b) == in_a_row(a) + in_a_row(b),
    decreases b.len(),
{
    if b.len() == 0 {
        assert(a + b =~= a);
        assert(in_a_row(a) + in_a_row(b) =~= in_a_row(a));
    } else {
        assert((a + b).drop_last() =~= a + b.drop_last());
        lemma_in_a_row(a, b.drop_last());
        assert(in_a_row(a + b) =~= in_a_row(a) + in_a_row(b));
    }
}

proof fn lemma_behind(first: int, place: Seq<int>)
    ensures
        (seq![first] + place).skip(1) == place,
        (seq![first] + place)[0] == first,
        (seq![first] + place).len() == place.len() + 1,
{
    assert((seq![first] + place).skip(1) =~= place);
}

proof fn lemma_rendered(t: Tree, levels: Seq<bool>, stop: bool)
    ensures
        rendered(t, levels, stop) == in_a_row(rows(t, levels, places(t, stop))),
    decreases t, 0nat,
{
    let list = places(t, stop);
    let root = seq![Seq::<int>::empty()];
    let rest = if stop && is_project(t) {
        Seq::empty()
    } else {
        places_in(t.parents, t.parents.len(), stop)
    };
    assert(rows(t, levels, list) =~= rows(t, levels, root) + rows(t, levels, rest));
    lemma_in_a_row(rows(t, levels, root), rows(t, levels, rest));
    let first = row(t, levels, Seq::empty());
    assert(rows(t, levels, root) =~= seq![first]);
    assert(levels + more(t, Seq::empty()) =~= levels);
    reveal_with_fuel(in_a_row, 2);
    assert(seq![first].drop_last() =~= Seq::<Seq<char>>::empty());
    assert(in_a_row(seq![first]) =~= first);
    if stop && is_project(t) {
        assert(rows(t, levels, rest) =~= Seq::<Seq<char>>::empty());
        assert(rendered(t, levels, stop) =~= in_a_row(rows(t, levels, list)));
    } else {
        lemma_rendered_in(t, t.parents.len(), levels, stop);
        assert(rendered(t, levels, stop) =~= in_a_row(rows(t, levels, list)));
    }
}

proof fn lemma_rendered_in(t: Tree, n: nat, levels: Seq<bool>, stop: bool)
    requires
        n <= t.parents.len(),
    ensures
        rendered_all(t.parents, n, levels, stop) == in_a_row(
            rows(t, levels, places_in(t.parents, n, stop)),
        ),
    decreases t.parents, n,
{
    if n == 0 {
        assert(rows(t, levels, places_in(t.parents, n, stop)) =~= Seq::<Seq<char>>::empty());
    } else {
        let m = (n - 1) as nat;
        let child = t.parents[n - 1];
        let inner = levels.push(n < t.parents.len());
        let first = places_in(t.parents, m, stop);
        let above = places(child, stop);
        let last = behind(n - 1, above);
        lemma_rendered_in(t, m, levels, stop);
        lemma_rendered(child, inner, stop);
        assert(rows(t, levels, first + last) =~= rows(t, levels, first) + rows(t, levels, last));
        lemma_in_a_row(rows(t, levels, first), rows(t, levels, last));
        assert(rows(t, levels, last) =~= rows(child, inner, above)) by {
            assert forall|i: int| 0 <= i < above.len() implies #[trigger] row(t, levels, last[i])
                == row(child, inner, above[i]) by {
                lemma_behind(n - 1, above[i]);
                assert(levels + more(t, last[i]) =~= inner + more(child, above[i]));
            }
            assert forall|i: int| 0 <= i < above.len() implies #[trigger] rows(t, levels, last)[i]
                == rows(child, inner, above)[i] by {
                assert(row(t, levels, last[i]) == row(child, inner, above[i]));
            }
        }
    }
}

proof fn lemma_places_are_places(t: Tree, stop: bool, i: int)
    requires
        0 <= i < places(t, stop).len(),
    ensures
        is_place(t, places(t, stop)[i]),
        stop ==> !is_hidden(t, places(t, stop)[i]),
    decreases t, 0nat,
{
    if i > 0 {
        let rest = places_in(t.parents, t.parents.len(), stop);
        assert(places(t, stop)[i] == rest[i - 1]);
        lemma_places_in_are_places(t, t.parents.len(), stop, i - 1);
    } else {
        assert(places(t, stop)[0].len() == 0);
    }
}

proof fn lemma_places_in_are_places(t: Tree, n: nat, stop: bool, i: int)
    requires
        n <= t.parents.len(),
        0 <= i < places_in(t.parents, n, stop).len(),
        !(stop && is_project(t)),
    ensures
        is_place(t, places_in(t.parents, n, stop)[i]),
        stop ==> !is_hidden(t, places_in(t.parents, n, stop)[i]),
        places_in(t.parents, n, stop)[i].len() > 0,
        0 <= places_in(t.parents, n, stop)[i][0] < n,
    decreases t.parents, n,
{
    let m = (n - 1) as nat;
    let first = places_in(t.parents, m, stop);
    if i < first.len() {
        lemma_places_in_are_places(t, m, stop, i);
        assert(places_in(t.parents, n, stop)[i] == first[i]);
    } else {
        let child = t.parents[n - 1];
        let above = places(child, stop);
        let j = i - first.len();
        lemma_places_are_places(child, stop, j);
        let place = places_in(t.parents, n, stop)[i];
        assert(place == seq![n - 1] + above[j]);
        lemma_behind(n - 1, above[j]);
        if stop && is_hidden(t, place) {
            let k = choose|k: int|
                0 <= k < place.len() && (node_at(t, #[trigger] place.take(k)).inner matches Shown::Krate {
                    is_project_crate,
                    ..
                } && is_project_crate);
            if k == 0 {
                assert(node_at(t, place.take(0)) == t);
            } else {
                assert(place.take(k).skip(1) =~= above[j].take(k - 1));
                assert(node_at(t, place.take(k)) == node_at(child, above[j].take(k - 1)));
                assert(is_hidden(child, above[j]));
            }
        }
    }
}

proof fn lemma_place_is_listed(t: Tree, stop: bool, place: Seq<int>) -> (i: int)
    requires
        is_place(t, place),
        stop ==> !is_hidden(t, place),
    ensures
        0 <= i < places(t, stop).len(),
        places(t, stop)[i] == place,
    decreases t, 0nat,
{
    if place.len() == 0 {
        assert(places(t, stop)[0] =~= place);
        0
    } else {
        if stop && is_project(t) {
            assert(node_at(t, place.take(0)) == t);
            assert(is_hidden(t, place));
        }
        let j = lemma_place_is_listed_in(t, t.parents.len(), stop, place);
        assert(places(t, stop)[j + 1] == places_in(t.parents, t.parents.len(), stop)[j]);
        j + 1
    }
}

proof fn lemma_place_is_listed_in(t: Tree, n: nat, stop: bool, place: Seq<int>) -> (i: int)
    requires
        is_place(t, place),
        place.len() > 0,
        place[0] < n <= t.parents.len(),
        stop ==> !is_hidden(t, place),
    ensures
        0 <= i < places_in(t.parents, n, stop).len(),
        places_in(t.parents, n, stop)[i] == place,
    decreases t.parents, n,
{
    let m = (n - 1) as nat;
    let first = places_in(t.parents, m, stop);
    if place[0] < n - 1 {
        let i = lemma_place_is_listed_in(t, m, stop, place);
        assert(places_in(t.parents, n, stop)[i] == first[i]);
        i
    } else {
        let child = t.parents[n - 1];
        let rest = place.skip(1);
        if stop && is_hidden(child, rest) {
            let k = choose|k: int|
                0 <= k < rest.len() && (node_at(child, #[trigger] rest.take(k)).inner matches Shown::Krate {
                    is_project_crate,
                    ..
                } && is_project_crate);
            assert(place.take(k + 1).skip(1) =~= rest.take(k));
            assert(node_at(t, place.take(k + 1)) == node_at(child, rest.take(k)));
            assert(is_hidden(t, place));
        }
        let j = lemma_place_is_listed(child, stop, rest);
        let i = first.len() + j;
        assert(places_in(t.parents, n, stop)[i] == seq![n - 1] + places(child, stop)[j]);
        assert(seq![n - 1] + rest =~= place);
        i
    }
}

proof fn lemma_places_are_ordered(t: Tree, stop: bool, i: int, j: int)
    requires
        0 <= i < j < places(t, stop).len(),
    ensures
        listed_before(places(t, stop)[i], places(t, stop)[j]),
    decreases t, 0nat,
{
    let rest = places_in(t.parents, t.parents.len(), stop);
    assert(places(t, stop)[j] == rest[j - 1]);
    lemma_places_in_are_places(t, t.parents.len(), stop, j - 1);
    if i == 0 {
        let a = places(t, stop)[0];
        let b = places(t, stop)[j];
        assert(a.take(0) =~= b.take(0));
        assert(part_ways(a, b, 0));
    } else {
        assert(places(t, stop)[i] == rest[i - 1]);
        lemma_places_in_are_ordered(t, t.parents.len(), stop, i - 1, j - 1);
    }
}

proof fn lemma_places_in_are_ordered(t: Tree, n: nat, stop: bool, i: int, j: int)
    requires
        n <= t.parents.len(),
        0 <= i < j < places_in(t.parents, n, stop).len(),
        !(stop && is_project(t)),
    ensures
        listed_before(places_in(t.parents, n, stop)[i], places_in(t.parents, n, stop)[j]),
    decreases t.parents, n,
{
    let m = (n - 1) as nat;
    let first = places_in(t.parents, m, stop);
    let all = places_in(t.parents, n, stop);
    let above = places(t.parents[n - 1], stop);
    if j < first.len() {
        lemma_places_in_are_ordered(t, m, stop, i, j);
        assert(all[i] == first[i]);
        assert(all[j] == first[j]);
    } else if i < first.len() {
        lemma_places_in_are_places(t, m, stop, i);
        assert(all[i] == first[i]);
        assert(all[j] == seq![n - 1] + above[j - first.len()]);
        assert(all[i].take(0) =~= all[j].take(0));
        assert(part_ways(all[i], all[j], 0));
    } else {
        let a = above[i - first.len()];
        let b = above[j - first.len()];
        lemma_places_are_ordered(t.parents[n - 1], stop, i - first.len(), j - first.len());
        let k = choose|k: int| #[trigger] part_ways(a, b, k);
        assert(all[i] == seq![n - 1] + a);
        assert(all[j] == seq![n - 1] + b);
        assert(all[i].take(k + 1) =~= seq![n - 1] + a.take(k));
        assert(all[j].take(k + 1) =~= seq![n - 1] + b.take(k));
        assert(part_ways(all[i], all[j], k + 1));
    }
}

proof fn lemma_more(t: Tree, place: Seq<int>, k: int)
    requires
        0 <= k < place.len(),
    ensures
        more(t, place).len() == place.len(),
        more(t, place)[k] == has_more(t, place, k),
    decreases place.len(),
{
    let child = t.parents[place[0]];
    let rest = place.skip(1);
    if k == 0 {
        assert(node_at(t, place.take(0)) == t);
        if rest.len() > 0 {
            lemma_more(child, rest, 0);
        } else {
            assert(more(child, rest).len() == 0);
        }
    } else {
        lemma_more(child, rest, k - 1);
        assert(place.take(k).skip(1) =~= rest.take(k - 1));
    }
}

proof fn lemma_bars(levels: Seq<bool>, k: int)
    requires
        0 <= k < levels.len(),
    ensures
        bars(levels).len() == 4 * levels.len(),
        bars(levels)[4 * k] == (if levels[k] {
            '\u{2502}'
        } else {
            ' '
        }),
        bars(levels)[4 * k + 1] == ' ',
        bars(levels)[4 * k + 2] == ' ',
        bars(levels)[4 * k + 3] == ' ',
    decreases levels.len(),
{
    reveal_strlit("\u{2502}   ");
    reveal_strlit("    ");
    let outer = levels.drop_last();
    lemma_bars_len(outer);
    if k < outer.len() {
        lemma_bars(outer, k);
    }
}

proof fn lemma_bars_len(levels: Seq<bool>)
    ensures
        bars(levels).len() == 4 * levels.len(),
    decreases levels.len(),
{
    reveal_strlit("\u{2502}   ");
    reveal_strlit("    ");
    if levels.len() > 0 {
        lemma_bars_len(levels.drop_last());
    }
}

proof fn lemma_margin(t: Tree, place: Seq<int>)
    ensures
        is_margin(t, place, indent(Seq::empty() + more(t, place))),
{
    reveal_strlit("\u{251c}\u{2500}\u{2500} ");
    reveal_strlit("\u{2514}\u{2500}\u{2500} ");
    let levels = more(t, place);
    assert(Seq::empty() + levels =~= levels);
    if place.len() > 0 {
        lemma_more(t, place, place.len() - 1);
        lemma_bars_len(levels.drop_last());
        assert forall|k: int| #![trigger place[k]] 0 <= k < place.len() - 1 implies {
            &&& indent(levels)[4 * k] == (if has_more(t, place, k) {
                '\u{2502}'
            } else {
                ' '
            })
            &&& indent(levels)[4 * k + 1] == ' '
            &&& indent(levels)[4 * k + 2] == ' '
            &&& indent(levels)[4 * k + 3] == ' '
        } by {
            lemma_more(t, place, k);
            lemma_bars(levels.drop_last(), k);
        }
    }
}

proof fn lemma_version_text(v: Version)
    ensures
        is_version_text(v, v.text()),
{
    reveal_strlit(".");
    reveal_strlit("-");
    reveal_strlit("+");
    assert("."@ =~= seq!['.']);
    assert("-"@ =~= seq!['-']);
    assert("+"@ =~= seq!['+']);
    let numbers = decimal(v.major as nat) + seq!['.'] + decimal(v.minor as nat) + seq!['.']
        + decimal(v.patch as nat);
    let with_pre = if v.pre@.len() > 0 {
        numbers + seq!['-'] + v.pre@
    } else {
        numbers
    };
    assert(v.text() =~= (if v.build@.len() > 0 {
        with_pre + seq!['+'] + v.build@
    } else {
        with_pre
    }));
}

/// The text of a version is its three numbers between dots, with what follows them.
pub proof fn version_text_has_its_parts(v: Version)
    ensures
        is_version_text(v, v.text()),
{
    lemma_version_text(v);
}

proof fn lemma_line(node: Tree)
    ensures
        is_line_of(node, line(node)),
{
    reveal_strlit(" (*)");
    reveal_strlit("");
    reveal_strlit("(");
    reveal_strlit(") ");
    reveal_strlit(" v");
    reveal_strlit("\n");
    reveal_strlit(" feature '");
    reveal_strlit("' ");
    let end = if node.repeat {
        seq![' ', '(', '*', ')', '\n']
    } else {
        seq!['\n']
    };
    match node.inner {
        Shown::Krate { name, version, kind, .. } => {
            let before = match kind {
                Some(kind) => seq!['('] + kind + seq![')', ' '],
                None => Seq::empty(),
            };
            lemma_version_text(version);
            assert(line(node) =~= before + name + seq![' ', 'v'] + version.text() + end);
        },
        Shown::Feature { crate_name, name, .. } => {
            assert(line(node) =~= crate_name + seq![
                ' ',
                'f',
                'e',
                'a',
                't',
                'u',
                'r',
                'e',
                ' ',
                '\'',
            ] + name + seq!['\'', ' '] + end);
        },
    }
}

/// The lines of a text: where the node of each stands, its margin and the rest of
/// it.
pub struct Lines {
    pub places: Seq<Seq<int>>,
    pub margins: Seq<Seq<char>>,
    pub texts: Seq<Seq<char>>,
}

/// Whether the lines tell of nodes of the graph: each shows the node at its place
/// behind a margin that tells its depth and which levels go on.
pub open spec fn are_lines_of(t: Tree, lines: Lines) -> bool {
    &&& lines.margins.len() == lines.places.len()
    &&& lines.texts.len() == lines.places.len()
    &&& forall|i: int|
        #![trigger lines.places[i]]
        0 <= i < lines.places.len() ==> {
            &&& is_place(t, lines.places[i])
            &&& is_margin(t, lines.places[i], lines.margins[i])
            &&& is_line_of(node_at(t, lines.places[i]), lines.texts[i])
        }
    &&& forall|i: int, j: int|
        #![trigger lines.places[i], lines.places[j]]
        0 <= i < j < lines.places.len() ==> listed_before(lines.places[i], lines.places[j])
}

/// The lines in a row.
pub open spec fn whole(lines: Lines) -> Seq<char> {
    in_a_row(Seq::new(lines.places.len(), |i: int| lines.margins[i] + lines.texts[i]))
}

/// The text of a graph has one line for each node, and the compact text one for each
/// that is not above a crate of the project. The lines are in order, and each shows
/// its node behind a margin of four characters for each level, which tells which
/// levels go on.
pub proof fn text_has_a_line_for_each_node(t: Tree, stop: bool) -> (lines: Lines)
    ensures
        rendered(t, Seq::empty(), stop) == whole(lines),
        are_lines_of(t, lines),
        forall|place: Seq<int>|
            #![trigger lines.places.contains(place)]
            #![trigger is_place(t, place)]
            lines.places.contains(place) <==> is_place(t, place) && (stop ==> !is_hidden(t, place)),
{
    let list = places(t, stop);
    let lines = Lines {
        places: list,
        margins: Seq::new(list.len(), |i: int| indent(Seq::empty() + more(t, list[i]))),
        texts: Seq::new(list.len(), |i: int| line(node_at(t, list[i]))),
    };
    lemma_rendered(t, Seq::empty(), stop);
    assert(rows(t, Seq::empty(), list) =~= Seq::new(
        list.len(),
        |i: int| lines.margins[i] + lines.texts[i],
    ));
    assert forall|i: int| #![trigger lines.places[i]] 0 <= i < lines.places.len() implies {
        &&& is_place(t, lines.places[i])
        &&& is_margin(t, lines.places[i], lines.margins[i])
        &&& is_line_of(node_at(t, lines.places[i]), lines.texts[i])
    } by {
        lemma_places_are_places(t, stop, i);
        lemma_margin(t, list[i]);
        lemma_line(node_at(t, list[i]));
    }
    assert forall|i: int, j: int| #![trigger lines.places[i], lines.places[j]] 0 <= i < j
        < lines.places.len() implies listed_before(lines.places[i], lines.places[j]) by {
        lemma_places_are_ordered(t, stop, i, j);
    }
    assert forall|place: Seq<int>|
        #![trigger lines.places.contains(place)]
        #![trigger is_place(t, place)]
        lines.places.contains(place) <==> is_place(t, place) && (stop ==> !is_hidden(t, place)) by {
        if lines.places.contains(place) {
            let i = choose|i: int| 0 <= i < list.len() && list[i] == place;
            lemma_places_are_places(t, stop, i);
        }
        if is_place(t, place) && (stop ==> !is_hidden(t, place)) {
            let i = lemma_place_is_listed(t, stop, place);
            assert(list[i] == place);
        }
    }
    lines
}

/// What stands before the node at some levels is four characters wide for each
/// level: a bar or a space for each outer level, then a branch.
pub proof fn margin_tells_the_depth(levels: Seq<bool>, k: int)
    ensures
        indent(levels).len() == 4 * levels.len(),
        0 <= k < levels.len() - 1 ==> {
            &&& indent(levels)[4 * k] == (if levels[k] {
                '\u{2502}'
            } else {
                ' '
            })
            &&& indent(levels)[4 * k + 1] == ' '
            &&& indent(levels)[4 * k + 2] == ' '
            &&& indent(levels)[4 * k + 3] == ' '
        },
        levels.len() > 0 ==> {
            let last = levels.len() - 1;
            &&& indent(levels)[4 * last] == (if levels[last] {
                '\u{251c}'
            } else {
                '\u{2514}'
            })
            &&& indent(levels)[4 * last + 1] == '\u{2500}'
            &&& indent(levels)[4 * last + 2] == '\u{2500}'
            &&& indent(levels)[4 * last + 3] == ' '
        },
{
    reveal_strlit("\u{251c}\u{2500}\u{2500} ");
    reveal_strlit("\u{2514}\u{2500}\u{2500} ");
    if levels.len() > 0 {
        lemma_bars_len(levels.drop_last());
        if 0 <= k < levels.len() - 1 {
            lemma_bars(levels.drop_last(), k);
        }
    }
}

} // verus!
