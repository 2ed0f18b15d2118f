//! Findings and rules in the terms of SARIF.

use crate::diag::{DiagnosticCode, Extra, Severity};
use crate::krate_graph::Kid;
use crate::sarif::collector::RuleData;
use crate::sarif::fingerprints::Fingerprints;
use crate::sarif::model::{
    places_of, DefaultConfiguration, Help, Location, Place, Rule, RuleProperties, SarifResult,
    TextContent,
};
use crate::sarif::processors::{DiagnosticData, Finding};
use crate::small::{kids_of, Kids};
use crate::text::{decimal, ends_with, has_suffix, push_decimal};
use vstd::prelude::*;

verus! {

/// The level of a severity.
pub open spec fn level(severity: Severity) -> &'static str {
    match severity {
        Severity::Error | Severity::Bug => "error",
        Severity::Warning => "warning",
        Severity::Note | Severity::Help => "note",
    }
}

pub(crate) fn severity_to_sarif_level(severity: Severity) -> (s: &'static str)
    ensures
        s == level(severity),
{
    match severity {
        Severity::Error | Severity::Bug => "error",
        Severity::Warning => "warning",
        Severity::Note | Severity::Help => "note",
    }
}

/// The tags of a rule.
pub open spec fn rule_tags(code: DiagnosticCode) -> Seq<&'static str> {
    match code {
        DiagnosticCode::Advisory(_) => seq!["security", "vulnerability"],
        DiagnosticCode::License(_) => seq!["license", "compliance"],
        DiagnosticCode::Bans(_) => seq!["dependencies", "supply-chain"],
        DiagnosticCode::Source(_) => seq!["sources", "supply-chain"],
        DiagnosticCode::General(_) => seq!["cargo-deny"],
    }
}

pub(crate) fn get_rule_tags(code: DiagnosticCode) -> (tags: &'static [&'static str])
    ensures
        tags@ == rule_tags(code),
{
    match code {
        DiagnosticCode::Advisory(_) => &["security", "vulnerability"],
        DiagnosticCode::License(_) => &["license", "compliance"],
        DiagnosticCode::Bans(_) => &["dependencies", "supply-chain"],
        DiagnosticCode::Source(_) => &["sources", "supply-chain"],
        DiagnosticCode::General(_) => &["cargo-deny"],
    }
}

/// Whether a rule says what its data does.
pub open spec fn is_rule(rule: Rule, data: RuleData) -> bool {
    &&& rule.id@ == data.code.code().qualified@
    &&& rule.name@ == data.code.code().qualified@
    &&& rule.short_description.text@ == data.description@
    &&& rule.full_description.text@ == Seq::<char>::empty()
    &&& rule.default_configuration.level@ == level(data.severity)@
    &&& rule.help == Help(data.code)
    &&& rule.properties.tags@ == rule_tags(data.code)
    &&& rule.properties.precision == "high"
    &&& rule.properties.problem_severity == level(data.severity)
}

/// Makes a rule of its data.
pub(crate) fn make_rule(data: RuleData) -> (rule: Rule)
    ensures
        is_rule(rule, data),
{
    Rule {
        id: data.code.qualified_str(),
        name: data.code.qualified_str(),
        short_description: TextContent { text: data.description.to_owned() },
        full_description: TextContent { text: String::new() },
        default_configuration: DefaultConfiguration {
            level: severity_to_sarif_level(data.severity).to_owned(),
        },
        help: Help(data.code),
        properties: RuleProperties {
            tags: get_rule_tags(data.code),
            precision: "high",
            problem_severity: severity_to_sarif_level(data.severity),
        },
    }
}

/// The source of the crates of crates.io.
pub open spec fn crates_io() -> Seq<char> {
    "https://github.com/rust-lang/crates.io-index"@
}

/// Reads `tame_index::CRATES_IO_INDEX`: the url of the git index of crates.io.
#[verifier::external_body]
fn crates_io_index() -> (url: &'static str)
    ensures
        url@ == crates_io(),
{
    tame_index::CRATES_IO_INDEX
}

/// The value that stands for a crate. The source is left out for crates.io, from
/// where most crates come.
pub open spec fn krate_print(kid: Kid) -> Seq<char> {
    (if has_suffix(kid.source@, crates_io()) {
        Seq::empty()
    } else {
        kid.source@ + "#"@
    }) + kid.name@ + "@"@ + kid.version@
}

/// Writes the value that stands for a crate.
fn print_krate(kid: &Kid) -> (fp: String)
    ensures
        fp@ == krate_print(*kid),
{
    let mut fp = String::new();
    if !ends_with(kid.source(), crates_io_index()) {
        fp.append(kid.source());
        fp.append("#");
    }
    assert(fp@ =~= (if has_suffix(kid.source@, crates_io()) {
        Seq::empty()
    } else {
        kid.source@ + "#"@
    }));
    fp.append(kid.name());
    fp.append("@");
    fp.append(kid.version());
    fp
}

/// The value that stands for a place.
pub open spec fn place_print(place: Place) -> Seq<char> {
    place.uri + ":"@ + decimal(place.byte_offset as nat) + ".."@ + decimal(
        (place.byte_offset + place.byte_length) as nat,
    )
}

/// Writes the value that stands for a location.
fn print_location(loc: &Location) -> (fp: String)
    requires
        loc.wf(),
    ensures
        fp@ == place_print(loc@),
{
    let region = &loc.physical_location.region;
    let mut fp = loc.physical_location.artifact_location.uri.clone();
    fp.append(":");
    push_decimal(&mut fp, region.byte_offset as u64);
    fp.append("..");
    push_decimal(&mut fp, (region.byte_offset + region.byte_length) as u64);
    fp
}

/// A name with its number, which the first one does not have.
pub open spec fn numbered(name: Seq<char>, i: nat) -> Seq<char> {
    if i > 0 {
        name + decimal(i)
    } else {
        name
    }
}

/// Writes a name with its number.
fn number_name(name: &str, i: usize) -> (s: String)
    ensures
        s@ == numbered(name@, i as nat),
{
    let mut s = name.to_owned();
    if i > 0 {
        push_decimal(&mut s, i as u64);
    }
    s
}

/// `prints` with the values of some crates.
pub open spec fn with_krates(prints: Map<Seq<char>, Seq<char>>, krates: Seq<Kid>) -> Map<
    Seq<char>,
    Seq<char>,
>
    decreases krates.len(),
{
    if krates.len() == 0 {
        prints
    } else {
        with_krates(prints, krates.drop_last()).insert(
            numbered("cargo-deny/krate"@, (krates.len() - 1) as nat),
            krate_print(krates.last()),
        )
    }
}

/// `prints` with the values of some places.
pub open spec fn with_places(prints: Map<Seq<char>, Seq<char>>, places: Seq<Place>) -> Map<
    Seq<char>,
    Seq<char>,
>
    decreases places.len(),
{
    if places.len() == 0 {
        prints
    } else {
        with_places(prints, places.drop_last()).insert(
            numbered("cargo-deny/loc"@, (places.len() - 1) as nat),
            place_print(places.last()),
        )
    }
}

/// The values by which a finding is recognised: its code, its advisory, and its
/// crates or, if it has none, its locations.
pub open spec fn prints_of(finding: Finding) -> Map<Seq<char>, Seq<char>> {
    let id = Map::<Seq<char>, Seq<char>>::empty().insert(
        "cargo-deny/id"@,
        finding.code.code().qualified@,
    );
    let with_advisory = match finding.extra {
        Some(Extra::Advisory(advisory)) => id.insert(
            "cargo-deny/advisory-id"@,
            advisory.metadata.id@,
        ),
        None => id,
    };
    if finding.krates.len() > 0 {
        with_krates(with_advisory, finding.krates)
    } else {
        with_places(with_advisory, finding.locations)
    }
}

fn add_krates(prints: &mut Fingerprints, krates: &Kids)
    requires
        old(prints).wf(),
    ensures
        final(prints).wf(),
        final(prints)@ == with_krates(old(prints)@, kids_of(*krates)),
{
    let ghost kids = kids_of(*krates);
    let mut i: usize = 0;
    while i < krates.len()
        invariant
            i <= kids.len(),
            kids == kids_of(*krates),
            prints.wf(),
            prints@ == with_krates(old(prints)@, kids.take(i as int)),
        decreases kids.len() - i,
    {
        assert(kids.take(i + 1).drop_last() =~= kids.take(i as int));
        prints.insert(number_name("cargo-deny/krate", i), print_krate(krates.at(i)));
        i += 1;
    }
    assert(kids.take(i as int) =~= kids);
}

fn add_places(prints: &mut Fingerprints, locations: &Vec<Location>)
    requires
        old(prints).wf(),
        forall|i: int| 0 <= i < locations.len() ==> (#[trigger] locations@[i]).wf(),
    ensures
        final(prints).wf(),
        final(prints)@ == with_places(old(prints)@, places_of(locations@)),
{
    let ghost places = places_of(locations@);
    let mut i: usize = 0;
    while i < locations.len()
        invariant
            i <= locations.len(),
            places == places_of(locations@),
            forall|j: int| 0 <= j < locations.len() ==> (#[trigger] locations@[j]).wf(),
            prints.wf(),
            prints@ == with_places(old(prints)@, places.take(i as int)),
        decreases locations.len() - i,
    {
        assert(places.take(i + 1).drop_last() =~= places.take(i as int));
        prints.insert(number_name("cargo-deny/loc", i), print_location(&locations[i]));
        i += 1;
    }
    assert(places.take(i as int) =~= places);
}

/// Whether a result says what a finding does.
pub open spec fn is_result(result: SarifResult, finding: Finding) -> bool {
    &&& result.rule_id@ == finding.code.code().qualified@
    &&& result.message@ == finding.message
    &&& result.level == level(finding.severity)
    &&& places_of(result.locations@) == finding.locations
    &&& result.partial_fingerprints.wf()
    &&& result.partial_fingerprints@ == prints_of(finding)
}

/// Makes a result of its data.
pub(crate) fn make_result(diag: DiagnosticData) -> (result: SarifResult)
    requires
        forall|i: int| 0 <= i < diag.locations.len() ==> (#[trigger] diag.locations@[i]).wf(),
    ensures
        is_result(result, diag@),
{
    let mut fingerprints = Fingerprints::new();
    let rule_id = diag.code.qualified_str();
    fingerprints.insert("cargo-deny/id".to_owned(), rule_id.clone());
    match &diag.extra {
        Some(Extra::Advisory(advisory)) => {
            fingerprints.insert("cargo-deny/advisory-id".to_owned(), advisory.metadata.id.clone());
        },
        None => {},
    }
    if diag.krates.len() > 0 {
        add_krates(&mut fingerprints, &diag.krates);
    } else {
        add_places(&mut fingerprints, &diag.locations);
    }
    SarifResult {
        rule_id,
        message: diag.message,
        level: severity_to_sarif_level(diag.severity),
        locations: diag.locations,
        partial_fingerprints: fingerprints,
    }
}

} // verus!
