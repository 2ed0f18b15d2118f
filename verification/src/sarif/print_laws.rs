//! What holds of the values by which results are recognised.

use crate::diag::Extra;
use crate::krate_graph::Kid;
use crate::sarif::log::{
    crates_io, krate_print, numbered, place_print, prints_of, with_krates, with_places,
};
use crate::sarif::model::Place;
use crate::sarif::processors::Finding;
use crate::text::{decimal, decimal_is_injective, has_suffix};
use vstd::prelude::*;

verus! {

/// A name with two different numbers is not the same name.
pub proof fn numbered_is_injective(name: Seq<char>, i: nat, j: nat)
    requires
        numbered(name, i) == numbered(name, j),
    ensures
        i == j,
{
    let n = name.len() as int;
    if i > 0 {
        assert(numbered(name, i).skip(n) =~= decimal(i));
        if j == 0 {
            assert(decimal(i).len() == 0);
        }
    }
    if j > 0 {
        assert(numbered(name, j).skip(n) =~= decimal(j));
        if i == 0 {
            assert(decimal(j).len() == 0);
        }
    }
    if i > 0 && j > 0 {
        decimal_is_injective(i, j);
    }
}

/// Whether `key` is a name with some number.
pub open spec fn is_numbered(name: Seq<char>, key: Seq<char>) -> bool {
    exists|i: nat| key == #[trigger] numbered(name, i)
}

/// Each crate has its own value, and the values under other names stay.
pub proof fn krates_have_their_prints(prints: Map<Seq<char>, Seq<char>>, krates: Seq<Kid>)
    ensures
        forall|i: int|
            #![trigger krates[i]]
            0 <= i < krates.len() ==> with_krates(prints, krates).contains_pair(
                numbered("cargo-deny/krate"@, i as nat),
                krate_print(krates[i]),
            ),
        forall|key: Seq<char>, value: Seq<char>|
            !is_numbered("cargo-deny/krate"@, key) && prints.contains_pair(key, value)
                ==> #[trigger] with_krates(prints, krates).contains_pair(key, value),
    decreases krates.len(),
{
    if krates.len() > 0 {
        let rest = krates.drop_last();
        let n = (krates.len() - 1) as nat;
        krates_have_their_prints(prints, rest);
        assert(is_numbered("cargo-deny/krate"@, numbered("cargo-deny/krate"@, n)));
        assert forall|key: Seq<char>, value: Seq<char>|
            !is_numbered("cargo-deny/krate"@, key) && prints.contains_pair(
                key,
                value,
            ) implies #[trigger] with_krates(prints, krates).contains_pair(key, value) by {
            assert(with_krates(prints, rest).contains_pair(key, value));
        }
        assert forall|i: int| #![trigger krates[i]] 0 <= i < krates.len() implies with_krates(
            prints,
            krates,
        ).contains_pair(numbered("cargo-deny/krate"@, i as nat), krate_print(krates[i])) by {
            if i < n {
                assert(rest[i] == krates[i]);
                if numbered("cargo-deny/krate"@, i as nat) == numbered("cargo-deny/krate"@, n) {
                    numbered_is_injective("cargo-deny/krate"@, i as nat, n);
                }
            }
        }
    }
}

/// Each location has its own value, and the values under other names stay.
pub proof fn places_have_their_prints(prints: Map<Seq<char>, Seq<char>>, places: Seq<Place>)
    ensures
        forall|i: int|
            #![trigger places[i]]
            0 <= i < places.len() ==> with_places(prints, places).contains_pair(
                numbered("cargo-deny/loc"@, i as nat),
                place_print(places[i]),
            ),
        forall|key: Seq<char>, value: Seq<char>|
            !is_numbered("cargo-deny/loc"@, key) && prints.contains_pair(key, value)
                ==> #[trigger] with_places(prints, places).contains_pair(key, value),
    decreases places.len(),
{
    if places.len() > 0 {
        let rest = places.drop_last();
        let n = (places.len() - 1) as nat;
        places_have_their_prints(prints, rest);
        assert(is_numbered("cargo-deny/loc"@, numbered("cargo-deny/loc"@, n)));
        assert forall|key: Seq<char>, value: Seq<char>|
            !is_numbered("cargo-deny/loc"@, key) && prints.contains_pair(
                key,
                value,
            ) implies #[trigger] with_places(prints, places).contains_pair(key, value) by {
            assert(with_places(prints, rest).contains_pair(key, value));
        }
        assert forall|i: int| #![trigger places[i]] 0 <= i < places.len() implies with_places(
            prints,
            places,
        ).contains_pair(numbered("cargo-deny/loc"@, i as nat), place_print(places[i])) by {
            if i < n {
                assert(rest[i] == places[i]);
                if numbered("cargo-deny/loc"@, i as nat) == numbered("cargo-deny/loc"@, n) {
                    numbered_is_injective("cargo-deny/loc"@, i as nat, n);
                }
            }
        }
    }
}

/// Whether `key` is a name with a number below `n`.
pub open spec fn is_numbered_below(name: Seq<char>, n: nat, key: Seq<char>) -> bool {
    exists|i: nat| i < n && key == #[trigger] numbered(name, i)
}

proof fn lemma_krate_keys(prints: Map<Seq<char>, Seq<char>>, krates: Seq<Kid>, key: Seq<char>)
    ensures
        with_krates(prints, krates).dom().contains(key) <==> prints.dom().contains(key)
            || is_numbered_below("cargo-deny/krate"@, krates.len(), key),
    decreases krates.len(),
{
    let name = "cargo-deny/krate"@;
    if krates.len() > 0 {
        let n = (krates.len() - 1) as nat;
        lemma_krate_keys(prints, krates.drop_last(), key);
        lemma_one_more_number(name, n, key);
    }
}

proof fn lemma_place_keys(prints: Map<Seq<char>, Seq<char>>, places: Seq<Place>, key: Seq<char>)
    ensures
        with_places(prints, places).dom().contains(key) <==> prints.dom().contains(key)
            || is_numbered_below("cargo-deny/loc"@, places.len(), key),
    decreases places.len(),
{
    let name = "cargo-deny/loc"@;
    if places.len() > 0 {
        let n = (places.len() - 1) as nat;
        lemma_place_keys(prints, places.drop_last(), key);
        lemma_one_more_number(name, n, key);
    }
}

proof fn lemma_one_more_number(name: Seq<char>, n: nat, key: Seq<char>)
    ensures
        is_numbered_below(name, n + 1, key) <==> is_numbered_below(name, n, key) || key == numbered(
            name,
            n,
        ),
{
    if is_numbered_below(name, n + 1, key) {
        let i = choose|i: nat| i < n + 1 && key == #[trigger] numbered(name, i);
        if i < n {
            assert(is_numbered_below(name, n, key));
        }
    }
    if is_numbered_below(name, n, key) {
        let i = choose|i: nat| i < n && key == #[trigger] numbered(name, i);
        assert(i < n + 1);
    }
    if key == numbered(name, n) {
        assert(n < n + 1);
    }
}

/// The values of a finding have these names and no others: that of the code, that
/// of the advisory if there is one, and one for each crate or, if there is none,
/// for each location.
pub proof fn prints_have_no_other_names(finding: Finding, key: Seq<char>)
    ensures
        prints_of(finding).dom().contains(key) <==> {
            ||| key == "cargo-deny/id"@
            ||| finding.extra is Some && key == "cargo-deny/advisory-id"@
            ||| finding.krates.len() > 0 && is_numbered_below(
                "cargo-deny/krate"@,
                finding.krates.len(),
                key,
            )
            ||| finding.krates.len() == 0 && is_numbered_below(
                "cargo-deny/loc"@,
                finding.locations.len(),
                key,
            )
        },
{
    let first = Map::<Seq<char>, Seq<char>>::empty().insert(
        "cargo-deny/id"@,
        finding.code.code().qualified@,
    );
    let base = match finding.extra {
        Some(Extra::Advisory(advisory)) => first.insert(
            "cargo-deny/advisory-id"@,
            advisory.metadata.id@,
        ),
        None => first,
    };
    lemma_krate_keys(base, finding.krates, key);
    lemma_place_keys(base, finding.locations, key);
}

/// The values of a finding hold its code, the id of its advisory if it has one,
/// and each of its crates or, if it has none, each of its locations.
pub proof fn prints_are_complete(finding: Finding)
    ensures
        prints_of(finding).contains_pair("cargo-deny/id"@, finding.code.code().qualified@),
        finding.extra matches Some(Extra::Advisory(advisory)) ==> prints_of(finding).contains_pair(
            "cargo-deny/advisory-id"@,
            advisory.metadata.id@,
        ),
        forall|i: int|
            #![trigger finding.krates[i]]
            0 <= i < finding.krates.len() ==> prints_of(finding).contains_pair(
                numbered("cargo-deny/krate"@, i as nat),
                krate_print(finding.krates[i]),
            ),
        finding.krates.len() == 0 ==> forall|i: int|
            #![trigger finding.locations[i]]
            0 <= i < finding.locations.len() ==> prints_of(finding).contains_pair(
                numbered("cargo-deny/loc"@, i as nat),
                place_print(finding.locations[i]),
            ),
{
    reveal_strlit("cargo-deny/id");
    reveal_strlit("cargo-deny/advisory-id");
    reveal_strlit("cargo-deny/krate");
    reveal_strlit("cargo-deny/loc");
    let id = "cargo-deny/id"@;
    let advisory_id = "cargo-deny/advisory-id"@;
    let first = Map::<Seq<char>, Seq<char>>::empty().insert(id, finding.code.code().qualified@);
    let base = match finding.extra {
        Some(Extra::Advisory(advisory)) => first.insert(advisory_id, advisory.metadata.id@),
        None => first,
    };
    assert(id[11] == 'i' && advisory_id[11] == 'a');
    assert("cargo-deny/krate"@[11] == 'k' && "cargo-deny/loc"@[11] == 'l');
    assert forall|i: nat| id != #[trigger] numbered("cargo-deny/krate"@, i) && advisory_id
        != numbered("cargo-deny/krate"@, i) by {
        assert(numbered("cargo-deny/krate"@, i)[11] == 'k');
    }
    assert forall|i: nat| id != #[trigger] numbered("cargo-deny/loc"@, i) && advisory_id
        != numbered("cargo-deny/loc"@, i) by {
        assert(numbered("cargo-deny/loc"@, i)[11] == 'l');
    }
    krates_have_their_prints(base, finding.krates);
    places_have_their_prints(base, finding.locations);
    assert(base.contains_pair(id, finding.code.code().qualified@));
}

/// A crate of crates.io is recognised by its name and its version alone.
pub proof fn crates_io_is_left_out(kid: Kid)
    ensures
        has_suffix(kid.source@, crates_io()) ==> krate_print(kid) == kid.name@ + "@"@ + kid.version@,
        !has_suffix(kid.source@, crates_io()) ==> krate_print(kid) == kid.source@ + "#"@ + kid.name@
            + "@"@ + kid.version@,
{
    assert(Seq::<char>::empty() + kid.name@ =~= kid.name@);
}

} // verus!
