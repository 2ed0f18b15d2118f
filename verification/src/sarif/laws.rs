//! What holds of every report.

use crate::diag::files::Files;
use crate::diag::paths::Path;
use crate::diag::spans::KrateSpans;
use crate::diag::{
    code_order_is_total, code_order_is_transitive, Diag, DiagnosticCode, Severity,
};
use crate::krate_graph::KrateGraph;
use crate::sarif::collector::{
    diag_findings, diags_findings, has_part, is_actionable, is_log, path_place, root_places,
    rule_of, same_part, with_rule, with_rules, RuleData, SarifCollector,
};
use crate::sarif::locator::LocationFinder;
use crate::sarif::log::{is_result, is_rule, level};
use crate::sarif::model::{MessageParts, Place, SarifLog};
use crate::sarif::processors::advisory::findings_at;
use crate::sarif::processors::license::LicenseProcessor;
use crate::sarif::processors::Finding;
use vstd::prelude::*;

verus! {

/// An advisory gives at least one finding, and each of its findings has exactly
/// one location.
pub proof fn advisories_have_one_location_each(
    diag: Diag,
    message: MessageParts,
    places: Seq<Place>,
    unknown: Place,
)
    ensures
        findings_at(diag, message, places, unknown).len() >= 1,
        forall|i: int|
            #![trigger findings_at(diag, message, places, unknown)[i]]
            0 <= i < findings_at(diag, message, places, unknown).len() ==> findings_at(
                diag,
                message,
                places,
                unknown,
            )[i].locations.len() == 1,
{
}

/// What is only a note or a help, and what has no code, is not reported. Anything
/// else is: by at least one finding, and by exactly one unless it is an advisory.
pub proof fn actionable_diagnostics_are_reported(
    g: KrateGraph,
    spans: KrateSpans,
    feature_depth: u32,
    diag: Diag,
    files: Files,
)
    ensures
        ({
            let found = diag_findings(g, spans, feature_depth, diag, files);
            let actionable = is_actionable(diag.diag.severity) && diag.code is Some;
            &&& found.len() > 0 <==> actionable
            &&& actionable && !(diag.code matches Some(code) && code is Advisory) ==> found.len()
                == 1
        }),
{
}

/// Every finding has the code, the severity and the crates of its diagnostic.
pub proof fn findings_keep_code_and_severity(
    g: KrateGraph,
    spans: KrateSpans,
    feature_depth: u32,
    diag: Diag,
    files: Files,
    i: int,
)
    requires
        0 <= i < diag_findings(g, spans, feature_depth, diag, files).len(),
    ensures
        ({
            let found = diag_findings(g, spans, feature_depth, diag, files)[i];
            &&& diag.code == Some(found.code)
            &&& found.severity == diag.diag.severity
            &&& found.krates.len() == diag.graph_nodes@.len()
            &&& forall|j: int|
                0 <= j < found.krates.len() ==> #[trigger] found.krates[j]
                    == diag.graph_nodes@[j].kid
            &&& found.extra == diag.extra
        }),
{
}

/// Nothing that is reported has the level of a note.
pub proof fn no_note_is_reported(
    g: KrateGraph,
    spans: KrateSpans,
    feature_depth: u32,
    diags: Seq<Diag>,
    files: Files,
    i: int,
)
    requires
        0 <= i < diags_findings(g, spans, feature_depth, diags, files).len(),
    ensures
        ({
            let severity = diags_findings(g, spans, feature_depth, diags, files)[i].severity;
            is_actionable(severity) && level(severity)@ != "note"@
        }),
    decreases diags.len(),
{
    reveal_strlit("note");
    reveal_strlit("error");
    reveal_strlit("warning");
    let before = diags_findings(g, spans, feature_depth, diags.drop_last(), files);
    if i < before.len() {
        no_note_is_reported(g, spans, feature_depth, diags.drop_last(), files, i);
    } else {
        let found = diag_findings(g, spans, feature_depth, diags.last(), files);
        findings_keep_code_and_severity(
            g,
            spans,
            feature_depth,
            diags.last(),
            files,
            i - before.len(),
        );
        assert(diags_findings(g, spans, feature_depth, diags, files)[i] == found[i
            - before.len()]);
        actionable_diagnostics_are_reported(g, spans, feature_depth, diags.last(), files);
    }
    assert("error"@.len() == 5);
    assert("warning"@.len() == 7);
    assert("note"@.len() == 4);
}

/// Two packs give what one with the diagnostics of both gives.
#[verifier::spinoff_prover]
#[verifier::rlimit(50)]
pub proof fn packs_add_up(
    g: KrateGraph,
    spans: KrateSpans,
    feature_depth: u32,
    a: Seq<Diag>,
    b: Seq<Diag>,
    files: Files,
)
    ensures
        diags_findings(g, spans, feature_depth, a + b, files) == diags_findings(
            g,
            spans,
            feature_depth,
            a,
            files,
        ) + diags_findings(g, spans, feature_depth, b, files),
    decreases b.len(),
{
    let first = diags_findings(g, spans, feature_depth, a, files);
    if b.len() == 0 {
        assert(a + b =~= a);
        assert(diags_findings(g, spans, feature_depth, b, files) == Seq::<Finding>::empty());
        assert(first + Seq::<Finding>::empty() =~= first);
    } else {
        let rest = b.drop_last();
        let middle = diags_findings(g, spans, feature_depth, rest, files);
        let last = diag_findings(g, spans, feature_depth, b.last(), files);
        assert((a + b).drop_last() =~= a + rest);
        assert((a + b).last() == b.last());
        packs_add_up(g, spans, feature_depth, a, rest, files);
        lemma_in_a_row(first, middle, last);
    }
}

proof fn lemma_in_a_row(a: Seq<Finding>, b: Seq<Finding>, c: Seq<Finding>)
    ensures
        (a + b) + c == a + (b + c),
{
    assert((a + b) + c =~= a + (b + c));
}

/// Without features, it does not matter how deep they would be followed.
pub proof fn depth_matters_only_with_features(
    g: KrateGraph,
    spans: KrateSpans,
    a: u32,
    b: u32,
    diag: Diag,
    files: Files,
)
    requires
        !diag.with_features,
    ensures
        diag_findings(g, spans, a, diag, files) == diag_findings(g, spans, b, diag, files),
{
}

/// No part of a file is located twice, and the locations are those of the
/// declarations that the paths lead to.
pub proof fn root_places_are_distinct(spans: KrateSpans, files: Files, paths: Seq<Path>)
    ensures
        forall|i: int, j: int|
            #![trigger root_places(spans, files, paths)[i], root_places(spans, files, paths)[j]]
            0 <= i < j < root_places(spans, files, paths).len() ==> !same_part(
                root_places(spans, files, paths)[i],
                root_places(spans, files, paths)[j],
            ),
        forall|i: int|
            #![trigger root_places(spans, files, paths)[i]]
            0 <= i < root_places(spans, files, paths).len() ==> is_path_place(
                spans,
                files,
                paths,
                root_places(spans, files, paths)[i],
            ),
        forall|k: int|
            #![trigger paths[k]]
            0 <= k < paths.len() ==> (path_place(spans, files, paths[k]) matches Some(place)
                ==> has_part(root_places(spans, files, paths), place)),
    decreases paths.len(),
{
    let all = root_places(spans, files, paths);
    if paths.len() > 0 {
        let rest = paths.drop_last();
        let before = root_places(spans, files, rest);
        root_places_are_distinct(spans, files, rest);
        assert forall|i: int, j: int| #![trigger all[i], all[j]] 0 <= i < j
            < all.len() implies !same_part(all[i], all[j]) by {
            assert(all[i] == before[i]);
            if j < before.len() {
                assert(all[j] == before[j]);
            }
        }
        assert forall|i: int| #![trigger all[i]] 0 <= i < all.len() implies is_path_place(
            spans,
            files,
            paths,
            all[i],
        ) by {
            if i < before.len() {
                assert(all[i] == before[i]);
                assert(is_path_place(spans, files, rest, before[i]));
                let k = choose|k: int|
                    0 <= k < rest.len() && path_place(spans, files, #[trigger] rest[k]) == Some(
                        before[i],
                    );
                assert(paths[k] == rest[k]);
            } else {
                assert(paths[paths.len() - 1] == paths.last());
            }
        }
        assert forall|k: int| #![trigger paths[k]] 0 <= k < paths.len() implies (path_place(
            spans,
            files,
            paths[k],
        ) matches Some(place) ==> has_part(all, place)) by {
            let found = path_place(spans, files, paths[k]);
            if found is Some {
                let place = found.unwrap();
                if k < rest.len() {
                    assert(rest[k] == paths[k]);
                    assert(has_part(before, place));
                    let m = choose|m: int|
                        0 <= m < before.len() && same_part(#[trigger] before[m], place);
                    assert(all[m] == before[m]);
                } else if has_part(before, place) {
                    let m = choose|m: int|
                        0 <= m < before.len() && same_part(#[trigger] before[m], place);
                    assert(all[m] == before[m]);
                } else {
                    assert(all[before.len() as int] == place);
                }
            }
        }
    }
}

/// Whether a place is that of a declaration that one of the paths leads to.
pub open spec fn is_path_place(
    spans: KrateSpans,
    files: Files,
    paths: Seq<Path>,
    place: Place,
) -> bool {
    exists|k: int|
        0 <= k < paths.len() && path_place(spans, files, #[trigger] paths[k]) == Some(place)
}

/// Whether the codes of the rules ascend.
pub open spec fn rules_ascend(rules: Seq<RuleData>) -> bool {
    forall|i: int, j: int|
        #![trigger rules[i], rules[j]]
        0 <= i < j < rules.len() ==> rules[i].code.before(rules[j].code)
}

/// Whether one of the rules is for a code.
pub open spec fn has_rule(rules: Seq<RuleData>, code: DiagnosticCode) -> bool {
    exists|i: int| 0 <= i < rules.len() && (#[trigger] rules[i]).code.same(code)
}

proof fn lemma_with_rule(rules: Seq<RuleData>, rule: RuleData)
    requires
        rules_ascend(rules),
    ensures
        rules_ascend(with_rule(rules, rule)),
        has_rule(with_rule(rules, rule), rule.code),
        has_rule(rules, rule.code) ==> with_rule(rules, rule) == rules,
        forall|r: RuleData|
            #![trigger with_rule(rules, rule).contains(r)]
            with_rule(rules, rule).contains(r) <==> rules.contains(r) || (r == rule && !has_rule(
                rules,
                rule.code,
            )),
    decreases rules.len(),
{
    let all = with_rule(rules, rule);
    if rules.len() == 0 {
        assert(all[0] == rule);
        assert(!has_rule(rules, rule.code));
    } else {
        let last = rules.last();
        let rest = rules.drop_last();
        assert(last == rules[rules.len() - 1]);
        if last.code.before(rule.code) {
            assert(all =~= rules.push(rule));
            assert(all[rules.len() as int] == rule);
            assert forall|i: int, j: int| #![trigger all[i], all[j]] 0 <= i < j
                < all.len() implies all[i].code.before(all[j].code) by {
                assert(all[i] == rules[i]);
                if j < rules.len() {
                    assert(all[j] == rules[j]);
                } else if i < rules.len() - 1 {
                    assert(rules[i].code.before(last.code));
                    code_order_is_transitive(rules[i].code, last.code, rule.code);
                }
            }
            assert(!has_rule(rules, rule.code)) by {
                assert forall|i: int| 0 <= i < rules.len() implies !(
                #[trigger] rules[i]).code.same(rule.code) by {
                    if i < rules.len() - 1 {
                        assert(rules[i].code.before(last.code));
                        code_order_is_transitive(rules[i].code, last.code, rule.code);
                    }
                    code_order_is_total(rules[i].code, rule.code);
                }
            }
            assert forall|r: RuleData| #![trigger all.contains(r)] all.contains(r)
                <==> rules.contains(r) || r == rule by {
                if rules.contains(r) {
                    let k = choose|k: int| 0 <= k < rules.len() && rules[k] == r;
                    assert(all[k] == r);
                }
            }
        } else if last.code.same(rule.code) {
            assert(rules[rules.len() - 1].code.same(rule.code));
        } else {
            code_order_is_total(rule.code, last.code);
            assert(rule.code.before(last.code));
            assert forall|i: int, j: int| #![trigger rest[i], rest[j]] 0 <= i < j
                < rest.len() implies rest[i].code.before(rest[j].code) by {
                assert(rules[i].code.before(rules[j].code));
            }
            lemma_with_rule(rest, rule);
            let shorter = with_rule(rest, rule);
            assert(all =~= shorter.push(last));
            assert(rest.push(last) =~= rules);
            assert(has_rule(rules, rule.code) <==> has_rule(rest, rule.code)) by {
                if has_rule(rules, rule.code) {
                    let k = choose|k: int|
                        0 <= k < rules.len() && (#[trigger] rules[k]).code.same(rule.code);
                    assert(rest[k] == rules[k]);
                }
                if has_rule(rest, rule.code) {
                    let k = choose|k: int|
                        0 <= k < rest.len() && (#[trigger] rest[k]).code.same(rule.code);
                    assert(rules[k] == rest[k]);
                }
            }
            assert forall|i: int, j: int| #![trigger all[i], all[j]] 0 <= i < j
                < all.len() implies all[i].code.before(all[j].code) by {
                assert(all[i] == shorter[i]);
                if j < shorter.len() {
                    assert(all[j] == shorter[j]);
                } else {
                    assert(shorter.contains(shorter[i]));
                    if rest.contains(shorter[i]) {
                        let k = choose|k: int| 0 <= k < rest.len() && rest[k] == shorter[i];
                        assert(rules[k].code.before(rules[rules.len() - 1].code));
                    }
                }
            }
            let m = choose|m: int|
                0 <= m < shorter.len() && (#[trigger] shorter[m]).code.same(rule.code);
            assert(all[m] == shorter[m]);
            assert forall|r: RuleData| #![trigger all.contains(r)] all.contains(r)
                <==> rules.contains(r) || (r == rule && !has_rule(rules, rule.code)) by {
                if all.contains(r) {
                    let k = choose|k: int| 0 <= k < all.len() && all[k] == r;
                    if k < shorter.len() {
                        assert(shorter[k] == r);
                        assert(shorter.contains(r));
                        if rest.contains(r) {
                            let n = choose|n: int| 0 <= n < rest.len() && rest[n] == r;
                            assert(rules[n] == r);
                        }
                    } else {
                        assert(rules[rules.len() - 1] == r);
                    }
                }
                if rules.contains(r) {
                    let k = choose|k: int| 0 <= k < rules.len() && rules[k] == r;
                    if k < rest.len() {
                        assert(rest[k] == r);
                        assert(shorter.contains(r));
                        let n = choose|n: int| 0 <= n < shorter.len() && shorter[n] == r;
                        assert(all[n] == r);
                    } else {
                        assert(all[shorter.len() as int] == r);
                    }
                }
                if r == rule && !has_rule(rules, rule.code) {
                    assert(shorter.contains(r));
                    let n = choose|n: int| 0 <= n < shorter.len() && shorter[n] == r;
                    assert(all[n] == r);
                }
            }
        }
    }
}

/// Registering a code makes sure that it has a rule. Where it has one already,
/// nothing changes, however severe the new one is; otherwise the new rule is added
/// to the others. Registering it again changes nothing.
pub proof fn codes_are_registered_once(
    rules: Seq<RuleData>,
    code: DiagnosticCode,
    severity: Severity,
    again: Severity,
)
    requires
        rules_ascend(rules),
    ensures
        ({
            let registered = with_rule(rules, rule_of(code, severity));
            &&& rules_ascend(registered)
            &&& has_rule(registered, code)
            &&& has_rule(rules, code) ==> registered == rules
            &&& !has_rule(rules, code) ==> registered.to_multiset() == rules.to_multiset().insert(
                rule_of(code, severity),
            )
            &&& with_rule(registered, rule_of(code, again)) == registered
        }),
{
    let rule = rule_of(code, severity);
    lemma_with_rule(rules, rule);
    lemma_with_rule(with_rule(rules, rule), rule_of(code, again));
    if !has_rule(rules, code) {
        lemma_new_rule_is_added(rules, rule);
    }
}

proof fn lemma_new_rule_is_added(rules: Seq<RuleData>, rule: RuleData)
    requires
        !has_rule(rules, rule.code),
    ensures
        with_rule(rules, rule).to_multiset() == rules.to_multiset().insert(rule),
    decreases rules.len(),
{
    broadcast use vstd::seq_lib::group_to_multiset_ensures;

    if rules.len() == 0 {
        assert(seq![rule] =~= rules.push(rule));
    } else if !rules.last().code.before(rule.code) {
        let rest = rules.drop_last();
        assert(!rules[rules.len() - 1].code.same(rule.code));
        assert(!has_rule(rest, rule.code)) by {
            assert forall|i: int| 0 <= i < rest.len() implies !(#[trigger] rest[i]).code.same(
                rule.code,
            ) by {
                assert(rest[i] == rules[i]);
            }
        }
        lemma_new_rule_is_added(rest, rule);
        assert(rules =~= rest.push(rules.last()));
        assert(with_rule(rules, rule).to_multiset() =~= rules.to_multiset().insert(rule));
    }
}

/// Whether the finding at `k` is the first of its code.
pub open spec fn is_first_of_code(findings: Seq<Finding>, k: int) -> bool {
    &&& 0 <= k < findings.len()
    &&& forall|m: int| 0 <= m < k ==> !(#[trigger] findings[m]).code.same(findings[k].code)
}

/// The rules ascend, so no code has two of them; there is one for each finding;
/// and there are no others: each is that of the first finding of its code.
pub proof fn rules_are_those_of_the_findings(findings: Seq<Finding>)
    ensures
        rules_ascend(with_rules(Seq::empty(), findings)),
        forall|k: int|
            #![trigger findings[k]]
            0 <= k < findings.len() ==> has_rule(
                with_rules(Seq::empty(), findings),
                findings[k].code,
            ),
        forall|r: RuleData|
            #![trigger with_rules(Seq::empty(), findings).contains(r)]
            with_rules(Seq::empty(), findings).contains(r) ==> is_rule_of_first(findings, r),
    decreases findings.len(),
{
    let rules = with_rules(Seq::empty(), findings);
    if findings.len() > 0 {
        let rest = findings.drop_last();
        let last = findings.last();
        let before = with_rules(Seq::empty(), rest);
        let rule = rule_of(last.code, last.severity);
        rules_are_those_of_the_findings(rest);
        lemma_with_rule(before, rule);
        assert(last == findings[findings.len() - 1]);
        assert forall|k: int| #![trigger findings[k]] 0 <= k < findings.len() implies has_rule(
            rules,
            findings[k].code,
        ) by {
            if k < rest.len() {
                assert(rest[k] == findings[k]);
                let n = choose|n: int|
                    0 <= n < before.len() && (#[trigger] before[n]).code.same(findings[k].code);
                assert(before.contains(before[n]));
                assert(rules.contains(before[n]));
                let m = choose|m: int| 0 <= m < rules.len() && rules[m] == before[n];
                assert(rules[m].code.same(findings[k].code));
            }
        }
        assert forall|r: RuleData| #![trigger rules.contains(r)] rules.contains(
            r,
        ) implies is_rule_of_first(findings, r) by {
            if before.contains(r) {
                assert(is_rule_of_first(rest, r));
                let k = choose|k: int|
                    #[trigger] is_first_of_code(rest, k) && r == rule_of(
                        rest[k].code,
                        rest[k].severity,
                    );
                assert(findings[k] == rest[k]);
                assert forall|m: int| 0 <= m < k implies !(#[trigger] findings[m]).code.same(
                    findings[k].code,
                ) by {
                    assert(rest[m] == findings[m]);
                }
                assert(is_first_of_code(findings, k));
            } else {
                let k = findings.len() - 1;
                assert forall|m: int| 0 <= m < k implies !(#[trigger] findings[m]).code.same(
                    findings[k].code,
                ) by {
                    assert(rest[m] == findings[m]);
                    if findings[m].code.same(last.code) {
                        assert(has_rule(before, rest[m].code));
                        let n = choose|n: int|
                            0 <= n < before.len() && (#[trigger] before[n]).code.same(
                                rest[m].code,
                            );
                        assert(before[n].code.same(rule.code));
                        assert(has_rule(before, rule.code));
                    }
                }
                assert(is_first_of_code(findings, k));
            }
        }
    } else {
        assert(rules =~= Seq::empty());
    }
}

/// Whether a rule is that of the first finding of its code.
pub open spec fn is_rule_of_first(findings: Seq<Finding>, rule: RuleData) -> bool {
    exists|k: int|
        #[trigger] is_first_of_code(findings, k) && rule == rule_of(
            findings[k].code,
            findings[k].severity,
        )
}

/// Whether one of the rules of a log has an id.
pub open spec fn log_has_rule(log: SarifLog, id: Seq<char>) -> bool {
    exists|j: int|
        0 <= j < log.runs@[0].tool.driver.rules.len() && (
        #[trigger] log.runs@[0].tool.driver.rules@[j]).id@ == id
}

/// Whether one of the results of a log refers to an id.
pub open spec fn log_has_result(log: SarifLog, id: Seq<char>) -> bool {
    exists|i: int|
        0 <= i < log.runs@[0].results.len() && (#[trigger] log.runs@[0].results@[i]).rule_id@ == id
}

/// Whether the codes of the rules of a log ascend. Each has the text of its code
/// as its id and as its name.
pub open spec fn log_rules_ascend(log: SarifLog) -> bool {
    let rules = log.runs@[0].tool.driver.rules@;
    &&& forall|i: int, j: int|
        #![trigger rules[i], rules[j]]
        0 <= i < j < rules.len() ==> rules[i].help.0.before(rules[j].help.0)
    &&& forall|i: int|
        #![trigger rules[i]]
        0 <= i < rules.len() ==> rules[i].id@ == rules[i].help.0.code().qualified@
            && rules[i].name@ == rules[i].id@
}

/// A log of a valid collector has one run, in which the codes of the rules
/// ascend, so no code has two of them; every result refers to a rule, and every
/// rule has a result that refers to it.
pub proof fn rules_and_results_match(collector: SarifCollector<'_>, log: SarifLog)
    requires
        collector.wf(),
        is_log(log, collector@),
    ensures
        log.runs.len() == 1,
        log_rules_ascend(log),
        forall|i: int|
            #![trigger log.runs@[0].results@[i]]
            0 <= i < log.runs@[0].results.len() ==> log_has_rule(
                log,
                log.runs@[0].results@[i].rule_id@,
            ),
        forall|j: int|
            #![trigger log.runs@[0].tool.driver.rules@[j]]
            0 <= j < log.runs@[0].tool.driver.rules.len() ==> log_has_result(
                log,
                log.runs@[0].tool.driver.rules@[j].id@,
            ),
{
    let findings = collector@.findings;
    let rules = collector@.rules;
    let results = log.runs@[0].results@;
    let logged = log.runs@[0].tool.driver.rules@;
    collector.rules_follow_findings();
    rules_are_those_of_the_findings(findings);
    assert forall|i: int, j: int| #![trigger logged[i], logged[j]] 0 <= i < j
        < logged.len() implies logged[i].help.0.before(logged[j].help.0) by {
        assert(is_rule(logged[i], rules[i]));
        assert(is_rule(logged[j], rules[j]));
        assert(rules[i].code.before(rules[j].code));
    }
    assert forall|i: int| #![trigger results[i]] 0 <= i < results.len() implies log_has_rule(
        log,
        results[i].rule_id@,
    ) by {
        assert(is_result(results[i], findings[i]));
        assert(has_rule(rules, findings[i].code));
        let j = choose|j: int|
            0 <= j < rules.len() && (#[trigger] rules[j]).code.same(findings[i].code);
        assert(is_rule(logged[j], rules[j]));
    }
    assert forall|j: int| #![trigger logged[j]] 0 <= j < logged.len() implies log_has_result(
        log,
        logged[j].id@,
    ) by {
        assert(is_rule(logged[j], rules[j]));
        assert(rules.contains(rules[j]));
        let k = choose|k: int|
            #[trigger] is_first_of_code(findings, k) && rules[j] == rule_of(
                findings[k].code,
                findings[k].severity,
            );
        assert(is_result(results[k], findings[k]));
    }
}

/// Whether different codes have different texts.
pub open spec fn texts_tell_codes(findings: Seq<Finding>) -> bool {
    forall|i: int, j: int|
        #![trigger findings[i], findings[j]]
        0 <= i < findings.len() && 0 <= j < findings.len()
            && findings[i].code.code().qualified@ == findings[j].code.code().qualified@
            ==> findings[i].code.same(findings[j].code)
}

/// Whether the result at `k` is the first one that refers to `id`.
pub open spec fn is_first_result(log: SarifLog, id: Seq<char>, k: int) -> bool {
    let results = log.runs@[0].results@;
    &&& 0 <= k < results.len()
    &&& results[k].rule_id@ == id
    &&& forall|m: int| 0 <= m < k ==> (#[trigger] results[m]).rule_id@ != id
}

/// Every result of a log of a valid collector has the level of an error or of a
/// warning, never that of a note; so has every rule.
pub proof fn levels_are_actionable(collector: SarifCollector<'_>, log: SarifLog)
    requires
        collector.wf(),
        is_log(log, collector@),
    ensures
        forall|i: int|
            #![trigger log.runs@[0].results@[i]]
            0 <= i < log.runs@[0].results.len() ==> {
                let severity = collector@.findings[i].severity;
                let found = log.runs@[0].results@[i].level@;
                &&& found == (if severity == Severity::Warning {
                    "warning"@
                } else {
                    "error"@
                })
                &&& found != "note"@
            },
        forall|j: int|
            #![trigger log.runs@[0].tool.driver.rules@[j]]
            0 <= j < log.runs@[0].tool.driver.rules.len() ==> {
                let rule = log.runs@[0].tool.driver.rules@[j];
                &&& rule.default_configuration.level@ == rule.properties.problem_severity@
                &&& rule.default_configuration.level@ != "note"@
            },
{
    reveal_strlit("note");
    reveal_strlit("error");
    reveal_strlit("warning");
    assert("error"@.len() == 5);
    assert("warning"@.len() == 7);
    assert("note"@.len() == 4);
    let findings = collector@.findings;
    let rules = collector@.rules;
    let results = log.runs@[0].results@;
    let logged = log.runs@[0].tool.driver.rules@;
    collector.rules_follow_findings();
    rules_are_those_of_the_findings(findings);
    assert forall|i: int| #![trigger results[i]] 0 <= i < results.len() implies results[i].level@
        == (if findings[i].severity == Severity::Warning {
        "warning"@
    } else {
        "error"@
    }) by {
        assert(is_result(results[i], findings[i]));
        assert(is_actionable(findings[i].severity));
    }
    assert forall|j: int| #![trigger logged[j]] 0 <= j
        < logged.len() implies logged[j].default_configuration.level@
        == logged[j].properties.problem_severity@ && logged[j].default_configuration.level@
        != "note"@ by {
        assert(is_rule(logged[j], rules[j]));
        assert(rules.contains(rules[j]));
        let k = choose|k: int|
            #[trigger] is_first_of_code(findings, k) && rules[j] == rule_of(
                findings[k].code,
                findings[k].severity,
            );
        assert(is_actionable(findings[k].severity));
    }
}

/// Every rule of a log of a valid collector has the level of the result of the
/// first finding with its code.
pub proof fn first_finding_decides_level(collector: SarifCollector<'_>, log: SarifLog, j: int)
    requires
        collector.wf(),
        is_log(log, collector@),
        0 <= j < log.runs@[0].tool.driver.rules.len(),
    ensures
        ({
            let rule = log.runs@[0].tool.driver.rules@[j];
            exists|k: int|
                #[trigger] is_first_of_code(collector@.findings, k)
                    && collector@.findings[k].code == rule.help.0
                    && rule.default_configuration.level@ == log.runs@[0].results@[k].level@
                    && rule.properties.problem_severity == log.runs@[0].results@[k].level
        }),
{
    let findings = collector@.findings;
    let rules = collector@.rules;
    let results = log.runs@[0].results@;
    let rule = log.runs@[0].tool.driver.rules@[j];
    collector.rules_follow_findings();
    rules_are_those_of_the_findings(findings);
    assert(is_rule(rule, rules[j]));
    assert(rules.contains(rules[j]));
    let k = choose|k: int|
        #[trigger] is_first_of_code(findings, k) && rules[j] == rule_of(
            findings[k].code,
            findings[k].severity,
        );
    assert(is_result(results[k], findings[k]));
}

/// The level of a rule is that of the first result that refers to it, where
/// different codes have different texts.
pub proof fn first_result_decides_level(collector: SarifCollector<'_>, log: SarifLog, j: int)
    requires
        collector.wf(),
        is_log(log, collector@),
        texts_tell_codes(collector@.findings),
        0 <= j < log.runs@[0].tool.driver.rules.len(),
    ensures
        ({
            let rule = log.runs@[0].tool.driver.rules@[j];
            exists|k: int|
                #[trigger] is_first_result(log, rule.id@, k) && rule.default_configuration.level@
                    == log.runs@[0].results@[k].level@ && rule.properties.problem_severity
                    == log.runs@[0].results@[k].level
        }),
{
    let findings = collector@.findings;
    let results = log.runs@[0].results@;
    let rule = log.runs@[0].tool.driver.rules@[j];
    first_finding_decides_level(collector, log, j);
    let k = choose|k: int|
        #[trigger] is_first_of_code(findings, k) && findings[k].code == rule.help.0
            && rule.default_configuration.level@ == results[k].level@
            && rule.properties.problem_severity == results[k].level;
    assert(is_result(results[k], findings[k]));
    assert(is_rule(rule, collector@.rules[j]));
    assert forall|m: int| 0 <= m < k implies (#[trigger] results[m]).rule_id@ != rule.id@ by {
        assert(is_result(results[m], findings[m]));
        assert(!findings[m].code.same(findings[k].code));
    }
    assert(is_first_result(log, rule.id@, k));
}

/// A collector that was given no diagnostics has neither rules nor results in
/// its log.
pub proof fn nothing_collected_is_nothing_logged(collector: SarifCollector<'_>, log: SarifLog)
    requires
        collector.wf(),
        collector@.findings.len() == 0,
        is_log(log, collector@),
    ensures
        log.runs@[0].results.len() == 0,
        log.runs@[0].tool.driver.rules.len() == 0,
{
    collector.rules_follow_findings();
}

/// The processor for licenses reports a license diagnostic as the collector does.
pub proof fn license_processor_agrees<L: LocationFinder>(
    processor: LicenseProcessor<'_, L>,
    spans: KrateSpans,
    diag: Diag,
    files: Files,
)
    requires
        is_actionable(diag.diag.severity),
        diag.code matches Some(code) && code is License,
    ensures
        processor.found(diag, files) == diag_findings(
            *processor.grapher.krates,
            spans,
            processor.feature_depth,
            diag,
            files,
        ),
{
}

} // verus!
