//! What rules and results say of what they are made of.

use crate::diag::files::Files;
use crate::diag::spans::KrateSpans;
use crate::diag::{BansCode, Code, Diag, DiagnosticCode, Severity};
use crate::krate_graph::{Kid, KrateGraph};
use crate::sarif::collector::{diag_findings, diags_findings, is_log, rule_of, Collected};
use crate::sarif::log::{
    is_result, is_rule, krate_print, level, numbered, place_print, rule_tags,
};
use crate::sarif::model::{places_of, Place, Rule, SarifLog, SarifResult};
use crate::sarif::print_laws::prints_are_complete;
use crate::sarif::processors::Finding;
use crate::text::{decimal, has_suffix, stands_before, text_order_is_lexicographic};
use vstd::prelude::*;

verus! {

/// Whether `code` is the one within the check of `of`.
pub open spec fn is_code_of(code: Code, of: DiagnosticCode) -> bool {
    match of {
        DiagnosticCode::Advisory(c) => code == c,
        DiagnosticCode::Bans(bans) => match bans {
            BansCode::Duplicate(c) => code == c,
            BansCode::Other(c) => code == c,
        },
        DiagnosticCode::License(c) => code == c,
        DiagnosticCode::Source(c) => code == c,
        DiagnosticCode::General(c) => code == c,
    }
}

/// Whether the check of one code comes before that of another: advisories, bans,
/// licenses, sources, and then the rest.
pub open spec fn is_earlier_check(a: DiagnosticCode, b: DiagnosticCode) -> bool {
    match a {
        DiagnosticCode::Advisory(_) => !(b is Advisory),
        DiagnosticCode::Bans(_) => b is License || b is Source || b is General,
        DiagnosticCode::License(_) => b is Source || b is General,
        DiagnosticCode::Source(_) => b is General,
        DiagnosticCode::General(_) => false,
    }
}

/// A code is the one that its diagnostic was given.
pub proof fn code_is_the_given_one(of: DiagnosticCode)
    ensures
        is_code_of(of.code(), of),
{
}

/// Codes are ordered by their check, then by their rank, then by their text.
pub proof fn codes_are_ordered_by_check(a: DiagnosticCode, b: DiagnosticCode, x: Code, y: Code)
    requires
        is_code_of(x, a),
        is_code_of(y, b),
    ensures
        a.before(b) <==> {
            ||| is_earlier_check(a, b)
            ||| !is_earlier_check(b, a) && x.rank < y.rank
            ||| !is_earlier_check(b, a) && x.rank == y.rank && stands_before(
                x.qualified@,
                y.qualified@,
            )
        },
        a.same(b) <==> {
            &&& !is_earlier_check(a, b)
            &&& !is_earlier_check(b, a)
            &&& x.rank == y.rank
            &&& x.qualified@ == y.qualified@
        },
{
    text_order_is_lexicographic(x.qualified@, y.qualified@);
}

/// What is severe is an error, a warning is a warning, and the rest is a note.
pub proof fn level_follows_severity(severity: Severity)
    ensures
        severity == Severity::Bug || severity == Severity::Error ==> level(severity)@ == seq![
            'e',
            'r',
            'r',
            'o',
            'r',
        ],
        severity == Severity::Warning ==> level(severity)@ == seq![
            'w',
            'a',
            'r',
            'n',
            'i',
            'n',
            'g',
        ],
        severity == Severity::Note || severity == Severity::Help ==> level(severity)@ == seq![
            'n',
            'o',
            't',
            'e',
        ],
{
    reveal_strlit("error");
    reveal_strlit("warning");
    reveal_strlit("note");
}

/// The tags of a rule tell which check it is of, and nothing else.
pub proof fn tags_tell_the_check(a: DiagnosticCode, b: DiagnosticCode)
    ensures
        rule_tags(a) == rule_tags(b) <==> !is_earlier_check(a, b) && !is_earlier_check(b, a),
        rule_tags(a).len() > 0,
        a is Advisory ==> rule_tags(a)[0]@ == "security"@ && rule_tags(a)[1]@ == "vulnerability"@,
        a is License ==> rule_tags(a)[0]@ == "license"@ && rule_tags(a)[1]@ == "compliance"@,
        a is Bans ==> rule_tags(a)[0]@ == "dependencies"@ && rule_tags(a)[1]@ == "supply-chain"@,
        a is Source ==> rule_tags(a)[0]@ == "sources"@ && rule_tags(a)[1]@ == "supply-chain"@,
        a is General ==> rule_tags(a).len() == 1 && rule_tags(a)[0]@ == "cargo-deny"@,
{
    reveal_strlit("security");
    reveal_strlit("license");
    reveal_strlit("dependencies");
    reveal_strlit("sources");
    reveal_strlit("cargo-deny");
    assert("security"@.len() == 8);
    assert("license"@.len() == 7 && "license"@[0] == 'l');
    assert("dependencies"@.len() == 12);
    assert("sources"@.len() == 7 && "sources"@[0] == 's');
    assert("cargo-deny"@.len() == 10);
    let x = rule_tags(a);
    let y = rule_tags(b);
    if x == y {
        assert(x[0]@ == y[0]@);
    }
}

/// A rule says what its code does: it is named by the text of the code and described
/// by what the code stands for, and its level is that of its severity.
pub proof fn rule_says_what_its_code_does(
    rule: Rule,
    of: DiagnosticCode,
    severity: Severity,
    code: Code,
)
    requires
        is_rule(rule, rule_of(of, severity)),
        is_code_of(code, of),
    ensures
        rule.id@ == code.qualified@,
        rule.name@ == code.qualified@,
        rule.short_description.text@ == code.description@,
        rule.full_description.text@.len() == 0,
        rule.help.0 == of,
        rule.default_configuration.level@ == level(severity)@,
        rule.properties.problem_severity@ == level(severity)@,
        rule.properties.precision@ == "high"@,
        rule.properties.tags@ == rule_tags(of),
{
}

/// A result says what its finding does: it is named by the code of the finding, and
/// it has its message, its locations and the level of its severity.
pub proof fn result_says_what_its_finding_does(result: SarifResult, finding: Finding, code: Code)
    requires
        is_result(result, finding),
        is_code_of(code, finding.code),
    ensures
        result.rule_id@ == code.qualified@,
        result.message@ == finding.message,
        result.level@ == level(finding.severity)@,
        result.locations.len() == finding.locations.len(),
        forall|i: int|
            #![trigger result.locations@[i]]
            0 <= i < result.locations.len() ==> result.locations@[i]@ == finding.locations[i],
        result.partial_fingerprints@.contains_pair("cargo-deny/id"@, code.qualified@),
        finding.krates.len() > 0 ==> result.partial_fingerprints@.contains_pair(
            "cargo-deny/krate"@,
            krate_print(finding.krates[0]),
        ),
        finding.krates.len() == 0 && finding.locations.len() > 0
            ==> result.partial_fingerprints@.contains_pair(
            "cargo-deny/loc"@,
            place_print(finding.locations[0]),
        ),
{
    prints_are_complete(finding);
    assert forall|i: int| #![trigger result.locations@[i]] 0 <= i
        < result.locations.len() implies result.locations@[i]@ == finding.locations[i] by {
        assert(places_of(result.locations@)[i] == result.locations@[i]@);
    }
    if finding.krates.len() > 0 {
        assert(numbered("cargo-deny/krate"@, 0) == "cargo-deny/krate"@);
        assert(finding.krates[0] == finding.krates[0int]);
    } else if finding.locations.len() > 0 {
        assert(numbered("cargo-deny/loc"@, 0) == "cargo-deny/loc"@);
        assert(finding.locations[0] == finding.locations[0int]);
    }
}

/// The first of several values has the bare name, and the others have their number
/// behind it.
pub proof fn names_are_numbered_behind_the_first(name: Seq<char>, i: nat)
    ensures
        i == 0 ==> numbered(name, i) == name,
        i > 0 ==> numbered(name, i) == name + decimal(i),
{
}

/// A place is named by its file and by the bytes where it starts and ends.
pub proof fn place_print_tells_the_bytes(place: Place)
    ensures
        place_print(place) == place.uri + seq![':'] + decimal(place.byte_offset as nat) + seq![
            '.',
            '.',
        ] + decimal((place.byte_offset + place.byte_length) as nat),
{
    reveal_strlit(":");
    reveal_strlit("..");
    assert(":"@ =~= seq![':']);
    assert(".."@ =~= seq!['.', '.']);
}

/// Whether a source is one of crates.io: whether it ends in the url of its index.
pub open spec fn is_from_crates_io(source: Seq<char>) -> bool {
    exists|before: Seq<char>|
        source == #[trigger] (before + "https://github.com/rust-lang/crates.io-index"@)
}

/// A crate is named by its name and its version, and by its source unless that is
/// crates.io.
pub proof fn krate_print_tells_the_krate(kid: Kid)
    ensures
        is_from_crates_io(kid.source@) ==> krate_print(kid) == kid.name@ + seq!['@']
            + kid.version@,
        !is_from_crates_io(kid.source@) ==> krate_print(kid) == kid.source@ + seq!['#']
            + kid.name@ + seq!['@'] + kid.version@,
{
    reveal_strlit("@");
    reveal_strlit("#");
    assert("@"@ =~= seq!['@']);
    assert("#"@ =~= seq!['#']);
    let url = "https://github.com/rust-lang/crates.io-index"@;
    suffix_is_the_end(kid.source@, url);
    assert(Seq::<char>::empty() + kid.name@ =~= kid.name@);
    if has_suffix(kid.source@, url) {
        let before = kid.source@.take(kid.source@.len() - url.len());
        assert(kid.source@ =~= before + url);
    }
}

/// A text has a suffix exactly where it is some text with the suffix behind it.
pub proof fn suffix_is_the_end(s: Seq<char>, tail: Seq<char>)
    ensures
        has_suffix(s, tail) <==> exists|before: Seq<char>| s == #[trigger] (before + tail),
{
    if has_suffix(s, tail) {
        let before = s.take(s.len() - tail.len());
        assert(s =~= before + tail);
    }
    if exists|before: Seq<char>| s == #[trigger] (before + tail) {
        let before = choose|before: Seq<char>| s == #[trigger] (before + tail);
        assert(s.skip(s.len() - tail.len()) =~= tail);
    }
}

/// Crates of crates.io have the same value only if they have the same name and the
/// same version.
pub proof fn krates_from_crates_io_are_told_apart(a: Kid, b: Kid)
    requires
        is_from_crates_io(a.source@),
        is_from_crates_io(b.source@),
        !a.name@.contains('@'),
        !b.name@.contains('@'),
        krate_print(a) == krate_print(b),
    ensures
        a.name@ == b.name@,
        a.version@ == b.version@,
{
    krate_print_tells_the_krate(a);
    krate_print_tells_the_krate(b);
    let x = a.name@ + seq!['@'] + a.version@;
    let y = b.name@ + seq!['@'] + b.version@;
    let n = a.name@.len() as int;
    let m = b.name@.len() as int;
    assert(x[n] == '@');
    assert(y[m] == '@');
    if n < m {
        assert(y[n] == b.name@[n]);
        assert(b.name@.contains(b.name@[n]));
    } else if m < n {
        assert(x[m] == a.name@[m]);
        assert(a.name@.contains(a.name@[m]));
    }
    assert(x.take(n) =~= a.name@);
    assert(y.take(m) =~= b.name@);
    assert(x.skip(n + 1) =~= a.version@);
    assert(y.skip(m + 1) =~= b.version@);
}

/// A log has one run, with a rule for each rule that was collected and a result for
/// each finding, in order.
pub proof fn log_has_each_finding(log: SarifLog, collected: Collected)
    requires
        is_log(log, collected),
    ensures
        log.runs.len() == 1,
        log.runs@[0].results.len() == collected.findings.len(),
        forall|i: int|
            #![trigger log.runs@[0].results@[i]]
            0 <= i < collected.findings.len() ==> {
                let result = log.runs@[0].results@[i];
                let finding = collected.findings[i];
                &&& is_named_by(result.rule_id@, finding.code)
                &&& result.message@ == finding.message
                &&& result.locations.len() == finding.locations.len()
                &&& result.level@ == level(finding.severity)@
            },
        log.runs@[0].tool.driver.rules.len() == collected.rules.len(),
        forall|i: int|
            #![trigger log.runs@[0].tool.driver.rules@[i]]
            0 <= i < collected.rules.len() ==> {
                let rule = log.runs@[0].tool.driver.rules@[i];
                &&& is_named_by(rule.id@, collected.rules[i].code)
                &&& rule.short_description.text@ == collected.rules[i].description@
                &&& rule.default_configuration.level@ == level(collected.rules[i].severity)@
            },
{
    assert forall|i: int| #![trigger log.runs@[0].results@[i]] 0 <= i
        < collected.findings.len() implies {
        let result = log.runs@[0].results@[i];
        let finding = collected.findings[i];
        &&& is_named_by(result.rule_id@, finding.code)
        &&& result.message@ == finding.message
        &&& result.locations.len() == finding.locations.len()
        &&& result.level@ == level(finding.severity)@
    } by {
        let result = log.runs@[0].results@[i];
        assert(is_result(result, collected.findings[i]));
        assert(places_of(result.locations@).len() == result.locations.len());
        assert(is_code_of(collected.findings[i].code.code(), collected.findings[i].code));
    }
    assert forall|i: int| #![trigger log.runs@[0].tool.driver.rules@[i]] 0 <= i
        < collected.rules.len() implies {
        let rule = log.runs@[0].tool.driver.rules@[i];
        &&& is_named_by(rule.id@, collected.rules[i].code)
        &&& rule.short_description.text@ == collected.rules[i].description@
        &&& rule.default_configuration.level@ == level(collected.rules[i].severity)@
    } by {
        assert(is_rule(log.runs@[0].tool.driver.rules@[i], collected.rules[i]));
        assert(is_code_of(collected.rules[i].code.code(), collected.rules[i].code));
    }
}

/// Whether `name` is the text of a code.
pub open spec fn is_named_by(name: Seq<char>, of: DiagnosticCode) -> bool {
    exists|code: Code| #[trigger] is_code_of(code, of) && code.qualified@ == name
}

/// A diagnostic alone gives its findings, and no diagnostic gives none.
pub proof fn one_diagnostic_gives_its_findings(
    g: KrateGraph,
    spans: KrateSpans,
    feature_depth: u32,
    diag: Diag,
    files: Files,
)
    ensures
        diags_findings(g, spans, feature_depth, seq![diag], files) == diag_findings(
            g,
            spans,
            feature_depth,
            diag,
            files,
        ),
        diags_findings(g, spans, feature_depth, Seq::empty(), files).len() == 0,
{
    let none = diags_findings(g, spans, feature_depth, Seq::empty(), files);
    let found = diag_findings(g, spans, feature_depth, diag, files);
    assert(seq![diag].drop_last() =~= Seq::empty());
    assert(none =~= Seq::<Finding>::empty());
    assert(none + found =~= found);
}

} // verus!
