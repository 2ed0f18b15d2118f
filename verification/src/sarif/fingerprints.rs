//! The values by which a result is recognised in another log.

use crate::text::{
    order_text, stands_before, text_order, text_order_equal_is_same, text_order_is_antisymmetric,
    text_order_is_lexicographic, text_order_is_transitive, Order,
};
use vstd::prelude::*;

verus! {

/// Values by their name, in the order of the names.
#[derive(Debug)]
pub struct Fingerprints {
    pub entries: Vec<(String, String)>,
}

/// Whether `entries` has a value for `name` at `i`.
pub open spec fn names(entries: Seq<(String, String)>, name: Seq<char>, i: int) -> bool {
    0 <= i < entries.len() && entries[i].0@ == name
}

/// Whether the names of `entries` ascend.
pub open spec fn ascending(entries: Seq<(String, String)>) -> bool {
    forall|i: int, j: int|
        #![trigger entries[i], entries[j]]
        0 <= i < j < entries.len() ==> text_order(entries[i].0@, entries[j].0@) == Order::Less
}

impl View for Fingerprints {
    type V = Map<Seq<char>, Seq<char>>;

    open spec fn view(&self) -> Map<Seq<char>, Seq<char>> {
        Map::new(
            |name: Seq<char>| exists|i: int| names(self.entries@, name, i),
            |name: Seq<char>|
                self.entries@[choose|i: int| names(self.entries@, name, i)].1@,
        )
    }
}

/// There is one entry of a name, and it holds the value of the name.
proof fn lemma_entry(prints: Fingerprints, i: int)
    requires
        prints.wf(),
        0 <= i < prints.entries.len(),
    ensures
        prints@.dom().contains(prints.entries@[i].0@),
        prints@[prints.entries@[i].0@] == prints.entries@[i].1@,
{
    let entries = prints.entries@;
    let name = entries[i].0@;
    assert(names(entries, name, i));
    let k = choose|k: int| names(entries, name, k);
    text_order_equal_is_same(name, name);
    assert(k == i) by {
        if k < i {
            assert(text_order(entries[k].0@, entries[i].0@) == Order::Less);
        } else if i < k {
            assert(text_order(entries[i].0@, entries[k].0@) == Order::Less);
        }
    }
}

impl Fingerprints {
    /// Each name comes before those behind it.
    pub open spec fn wf(self) -> bool {
        ascending(self.entries@)
    }

    /// No value.
    pub fn new() -> (prints: Fingerprints)
        ensures
            prints.wf(),
            prints@ == Map::<Seq<char>, Seq<char>>::empty(),
    {
        let prints = Fingerprints { entries: Vec::new() };
        assert(prints@ =~= Map::<Seq<char>, Seq<char>>::empty());
        prints
    }

    /// Sets the value of a name.
    pub fn insert(&mut self, name: String, value: String)
        requires
            old(self).wf(),
        ensures
            final(self).wf(),
            final(self)@ == old(self)@.insert(name@, value@),
    {
        let ghost before = *self;
        let mut i: usize = 0;
        while i < self.entries.len()
            invariant
                *self == before,
                before.wf(),
                i <= self.entries.len(),
                forall|j: int|
                    0 <= j < i ==> text_order((#[trigger] self.entries@[j]).0@, name@)
                        == Order::Less,
            ensures
                *self == before,
                i <= self.entries.len(),
                forall|j: int|
                    0 <= j < i ==> text_order((#[trigger] self.entries@[j]).0@, name@)
                        == Order::Less,
                i < self.entries.len() ==> text_order(self.entries@[i as int].0@, name@)
                    != Order::Less,
            decreases self.entries.len() - i,
        {
            match order_text(self.entries[i].0.as_str(), name.as_str()) {
                Order::Less => {
                    i += 1;
                },
                _ => {
                    break ;
                },
            }
        }
        let found = i < self.entries.len() && match order_text(
            self.entries[i].0.as_str(),
            name.as_str(),
        ) {
            Order::Equal => true,
            _ => false,
        };
        let ghost entry = (name, value);
        if found {
            proof {
                text_order_equal_is_same(before.entries@[i as int].0@, name@);
            }
            self.entries.set(i, (name, value));
            proof {
                lemma_set(before, *self, i as int, entry);
            }
        } else {
            self.entries.insert(i, (name, value));
            proof {
                lemma_insert(before, *self, i as int, entry);
            }
        }
    }
}

/// Setting the entry of a name sets its value.
proof fn lemma_set(before: Fingerprints, after: Fingerprints, i: int, entry: (String, String))
    requires
        before.wf(),
        0 <= i < before.entries.len(),
        before.entries@[i].0@ == entry.0@,
        after.entries@ == before.entries@.update(i, entry),
    ensures
        after.wf(),
        after@ == before@.insert(entry.0@, entry.1@),
{
    let old_entries = before.entries@;
    let entries = after.entries@;
    assert forall|a: int, b: int| #![trigger entries[a], entries[b]] 0 <= a < b
        < entries.len() implies text_order(entries[a].0@, entries[b].0@) == Order::Less by {
        assert(text_order(old_entries[a].0@, old_entries[b].0@) == Order::Less);
    }
    assert forall|name: Seq<char>| after@.dom().contains(name) <==> before@.insert(
        entry.0@,
        entry.1@,
    ).dom().contains(name) by {
        if after@.dom().contains(name) {
            let k = choose|k: int| names(entries, name, k);
            assert(names(old_entries, name, k));
        }
        if before@.dom().contains(name) {
            let k = choose|k: int| names(old_entries, name, k);
            assert(names(entries, name, k));
        }
        assert(names(entries, entry.0@, i));
    }
    assert forall|name: Seq<char>| after@.dom().contains(name) implies #[trigger] after@[name]
        == before@.insert(entry.0@, entry.1@)[name] by {
        let k = choose|k: int| names(entries, name, k);
        lemma_entry(after, k);
        lemma_entry(after, i);
        lemma_entry(before, k);
    }
    assert(after@ =~= before@.insert(entry.0@, entry.1@));
}

/// Inserting an entry in its place sets the value of its name.
proof fn lemma_insert(before: Fingerprints, after: Fingerprints, i: int, entry: (String, String))
    requires
        before.wf(),
        0 <= i <= before.entries.len(),
        forall|j: int|
            0 <= j < i ==> text_order((#[trigger] before.entries@[j]).0@, entry.0@) == Order::Less,
        i < before.entries.len() ==> text_order(before.entries@[i].0@, entry.0@) == Order::Greater,
        after.entries@ == before.entries@.insert(i, entry),
    ensures
        after.wf(),
        after@ == before@.insert(entry.0@, entry.1@),
{
    let old_entries = before.entries@;
    let entries = after.entries@;
    if i < old_entries.len() {
        text_order_is_antisymmetric(old_entries[i].0@, entry.0@);
    }
    assert forall|a: int, b: int| #![trigger entries[a], entries[b]] 0 <= a < b
        < entries.len() implies text_order(entries[a].0@, entries[b].0@) == Order::Less by {
        if a == i {
            let next = old_entries[b - 1].0@;
            if b - 1 > i {
                assert(text_order(old_entries[i].0@, next) == Order::Less);
                text_order_is_transitive(entry.0@, old_entries[i].0@, next);
            }
        } else {
            let x = if a < i {
                a
            } else {
                a - 1
            };
            let y = if b < i {
                b
            } else {
                b - 1
            };
            assert(entries[a] == old_entries[x]);
            if b != i {
                assert(entries[b] == old_entries[y]);
            }
        }
    }
    assert forall|name: Seq<char>| after@.dom().contains(name) <==> before@.insert(
        entry.0@,
        entry.1@,
    ).dom().contains(name) by {
        if after@.dom().contains(name) {
            let k = choose|k: int| names(entries, name, k);
            if k < i {
                assert(names(old_entries, name, k));
            } else if k > i {
                assert(names(old_entries, name, k - 1));
            }
        }
        if before@.dom().contains(name) {
            let k = choose|k: int| names(old_entries, name, k);
            if k < i {
                assert(names(entries, name, k));
            } else {
                assert(names(entries, name, k + 1));
            }
        }
        assert(names(entries, entry.0@, i));
    }
    assert forall|name: Seq<char>| after@.dom().contains(name) implies #[trigger] after@[name]
        == before@.insert(entry.0@, entry.1@)[name] by {
        let k = choose|k: int| names(entries, name, k);
        lemma_entry(after, k);
        lemma_entry(after, i);
        if k < i {
            lemma_entry(before, k);
        } else if k > i {
            lemma_entry(before, k - 1);
        }
    }
    assert(after@ =~= before@.insert(entry.0@, entry.1@));
}

/// Each entry holds the value of its name, each name has an entry, and the entries are
/// in the order of their names.
pub proof fn entries_are_the_values(prints: Fingerprints)
    requires
        prints.wf(),
    ensures
        forall|i: int|
            #![trigger prints.entries@[i]]
            0 <= i < prints.entries.len() ==> prints@.contains_pair(
                prints.entries@[i].0@,
                prints.entries@[i].1@,
            ),
        forall|name: Seq<char>| #[trigger]
            prints@.dom().contains(name) ==> exists|i: int|
                0 <= i < prints.entries.len() && (#[trigger] prints.entries@[i]).0@ == name,
        forall|i: int, j: int|
            #![trigger prints.entries@[i], prints.entries@[j]]
            0 <= i < j < prints.entries.len() ==> stands_before(
                prints.entries@[i].0@,
                prints.entries@[j].0@,
            ),
{
    let entries = prints.entries@;
    assert forall|i: int| #![trigger entries[i]] 0 <= i < entries.len() implies prints@.contains_pair(
        entries[i].0@,
        entries[i].1@,
    ) by {
        lemma_entry(prints, i);
    }
    assert forall|name: Seq<char>| #[trigger] prints@.dom().contains(name) implies exists|i: int|
        0 <= i < entries.len() && (#[trigger] entries[i]).0@ == name by {
        let i = choose|i: int| names(entries, name, i);
        assert(entries[i].0@ == name);
    }
    assert forall|i: int, j: int| #![trigger entries[i], entries[j]] 0 <= i < j
        < entries.len() implies stands_before(entries[i].0@, entries[j].0@) by {
        text_order_is_lexicographic(entries[i].0@, entries[j].0@);
    }
}

} // verus!
