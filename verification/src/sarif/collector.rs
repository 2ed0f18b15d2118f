//! Collects diagnostics into a SARIF log.

use crate::diag::files::Files;
use crate::diag::grapher::InclusionGrapher;
use crate::diag::paths::{path_values, DependencyPath, Path};
use crate::diag::spans::KrateSpans;
use crate::diag::{code_order_is_total, BansCode, Diag, DiagnosticCode, Pack, Severity};
use crate::krate_graph::{Kid, KrateGraph, Version};
use crate::sarif::advisory::AdvisoryStyle;
use crate::sarif::graphs::{
    add_paths, build_graphs, depth, depth_of, graph_paths, graphs_of, kids_of_nodes, node_graph,
    node_kids, numbered_graphs, push_numbered, GraphStyle, NumberedStyle,
};
use crate::sarif::laws::{codes_are_registered_once, has_rule, rules_ascend};
use crate::sarif::locator::{dependency_mark, find_declaration, path_mark};
use crate::sarif::log::{is_result, is_rule, make_result, make_rule};
use crate::sarif::model::{
    places_of, Driver, Location, Message, MessageParts, Place, Rule, Run, SarifLog, SarifResult,
    Tool,
};
use crate::sarif::processors::advisory::{
    advisory_message, data_at, findings_at, write_advisory_message,
};
use crate::sarif::processors::license::{license_data, license_finding};
use crate::sarif::processors::other::{label_data, labelled_finding};
use crate::sarif::processors::{
    create_dummy_location, findings_of, unknown_place, DiagnosticData, Finding,
};
use crate::text::text_eq;
use vstd::prelude::*;

verus! {

/// Whether two places are the same part of the same file.
pub open spec fn same_part(a: Place, b: Place) -> bool {
    a.uri == b.uri && a.byte_offset == b.byte_offset && a.byte_length == b.byte_length
}

/// Whether one of `places` is the same part of the same file as `place`.
pub open spec fn has_part(places: Seq<Place>, place: Place) -> bool {
    exists|i: int| 0 <= i < places.len() && same_part(#[trigger] places[i], place)
}

/// Where the project declares the dependency that a path starts with.
pub open spec fn path_place(spans: KrateSpans, files: Files, path: Path) -> Option<Place> {
    match path_mark(spans, path) {
        Some(mark) => match files.location_of(mark) {
            Some(location) => Some(location@),
            None => None,
        },
        None => None,
    }
}

/// Where the project declares the dependencies that the paths start with, each
/// part of a file once.
pub open spec fn root_places(spans: KrateSpans, files: Files, paths: Seq<Path>) -> Seq<Place>
    decreases paths.len(),
{
    if paths.len() == 0 {
        Seq::empty()
    } else {
        let before = root_places(spans, files, paths.drop_last());
        match path_place(spans, files, paths.last()) {
            Some(place) => if has_part(before, place) {
                before
            } else {
                before.push(place)
            },
            None => before,
        }
    }
}

/// How the collector shows an advisory.
pub open spec fn dense_style() -> AdvisoryStyle {
    AdvisoryStyle {
        before_title: "\n",
        after_title: "\n",
        description: "## Description\n",
        after_description: "\n\n",
        unaffected: "## Unaffected\n",
        after_unaffected: "\n",
        patched: "## Patched\n",
        affected: "## Affected\n",
        arches: "### Arches\n",
        systems: "### Operating Systems\n",
    }
}

/// How the collector shows a graph.
pub open spec fn dense_graph_style() -> GraphStyle {
    GraphStyle { before: "## Dependency Graph\n\n```\n", after: "\n```\n" }
}

/// How the collector shows several graphs.
pub open spec fn dense_numbered_style() -> NumberedStyle {
    NumberedStyle {
        before_number: "## Dependency Graph ",
        after_number: "\n\n",
        graph: GraphStyle { before: "```\n", after: "\n```\n" },
    }
}

/// What an advisory is turned into: one finding for each place where the
/// project depends on the crates.
pub open spec fn advisory_findings(
    g: KrateGraph,
    spans: KrateSpans,
    max: nat,
    diag: Diag,
    files: Files,
) -> Seq<Finding> {
    let graphs = graphs_of(g, diag.graph_nodes@, max);
    findings_at(
        diag,
        advisory_message(dense_style(), dense_graph_style(), diag, graphs),
        root_places(spans, files, graph_paths(graphs)),
        unknown_place("Cargo.toml"@),
    )
}

/// The paths that start at a crate of the project.
pub open spec fn project_paths(paths: Seq<Path>) -> Seq<Path> {
    paths.filter(|path: Path| path.is_project_crate)
}

/// What a ban on duplicates is turned into.
pub open spec fn duplicate_finding(
    g: KrateGraph,
    spans: KrateSpans,
    max: nat,
    diag: Diag,
    files: Files,
) -> Finding {
    Finding {
        code: diag.code.unwrap(),
        severity: diag.diag.severity,
        krates: node_kids(diag.graph_nodes@),
        message: MessageParts {
            text: diag.diag.message@,
            markdown: Some(
                numbered_graphs(
                    dense_numbered_style(),
                    diag.diag.message@,
                    g,
                    diag.graph_nodes@,
                    max,
                ),
            ),
        },
        locations: root_places(
            spans,
            files,
            project_paths(graph_paths(graphs_of(g, diag.graph_nodes@, max))),
        ),
        extra: diag.extra,
    }
}

/// What a diagnostic is turned into. What is not actionable and what has no code
/// is left out.
pub open spec fn diag_findings(
    g: KrateGraph,
    spans: KrateSpans,
    feature_depth: u32,
    diag: Diag,
    files: Files,
) -> Seq<Finding> {
    let max = depth(feature_depth, diag.with_features);
    if !is_actionable(diag.diag.severity) {
        Seq::empty()
    } else {
        match diag.code {
            None => Seq::empty(),
            Some(DiagnosticCode::Advisory(_)) => advisory_findings(g, spans, max, diag, files),
            Some(DiagnosticCode::License(_)) => seq![license_finding(g, max, diag, files)],
            Some(DiagnosticCode::Bans(BansCode::Duplicate(_))) => seq![
                duplicate_finding(g, spans, max, diag, files),
            ],
            Some(_) => seq![labelled_finding(dense_numbered_style(), g, max, diag, files)],
        }
    }
}

/// What some diagnostics are turned into, in order.
pub open spec fn diags_findings(
    g: KrateGraph,
    spans: KrateSpans,
    feature_depth: u32,
    diags: Seq<Diag>,
    files: Files,
) -> Seq<Finding>
    decreases diags.len(),
{
    if diags.len() == 0 {
        Seq::empty()
    } else {
        diags_findings(g, spans, feature_depth, diags.drop_last(), files) + diag_findings(
            g,
            spans,
            feature_depth,
            diags.last(),
            files,
        )
    }
}

/// What a rule is made of.
#[derive(Clone, Copy, Debug)]
pub struct RuleData {
    pub code: DiagnosticCode,
    pub severity: Severity,
    pub description: &'static str,
}

/// The rule of a code.
pub open spec fn rule_of(code: DiagnosticCode, severity: Severity) -> RuleData {
    RuleData { code, severity, description: code.code().description }
}

/// `rules` with `rule` in its place, unless there is one of the same code.
pub open spec fn with_rule(rules: Seq<RuleData>, rule: RuleData) -> Seq<RuleData>
    decreases rules.len(),
{
    if rules.len() == 0 {
        seq![rule]
    } else if rules.last().code.before(rule.code) {
        rules.push(rule)
    } else if rules.last().code.same(rule.code) {
        rules
    } else {
        with_rule(rules.drop_last(), rule).push(rules.last())
    }
}

/// `rules` with a rule for each of the findings. The first finding of a code
/// decides how severe the rule is.
pub open spec fn with_rules(rules: Seq<RuleData>, findings: Seq<Finding>) -> Seq<RuleData>
    decreases findings.len(),
{
    if findings.len() == 0 {
        rules
    } else {
        with_rule(
            with_rules(rules, findings.drop_last()),
            rule_of(findings.last().code, findings.last().severity),
        )
    }
}

/// Collects diagnostics and converts them to SARIF format
pub struct SarifCollector<'a> {
    diagnostics: Vec<DiagnosticData>,
    rules: Vec<RuleData>,
    grapher: InclusionGrapher<'a>,
    feature_depth: u32,
    krate_spans: &'a KrateSpans,
}

/// What a `SarifCollector` has collected.
pub struct Collected {
    pub findings: Seq<Finding>,
    pub rules: Seq<RuleData>,
}

impl<'a> View for SarifCollector<'a> {
    type V = Collected;

    closed spec fn view(&self) -> Collected {
        Collected { findings: findings_of(self.diagnostics@), rules: self.rules@ }
    }
}

/// Whether a log says what was collected: in one run, the rules and the results
/// in order.
pub open spec fn is_log(log: SarifLog, collected: Collected) -> bool {
    &&& log.runs.len() == 1
    &&& log.runs@[0].tool.driver.version is None
    &&& log.runs@[0].tool.driver.rules.len() == collected.rules.len()
    &&& forall|i: int|
        0 <= i < collected.rules.len() ==> is_rule(
            #[trigger] log.runs@[0].tool.driver.rules@[i],
            collected.rules[i],
        )
    &&& log.runs@[0].results.len() == collected.findings.len()
    &&& forall|i: int|
        0 <= i < collected.findings.len() ==> is_result(
            #[trigger] log.runs@[0].results@[i],
            collected.findings[i],
        )
}

/// Whether a severity is one that calls for action.
pub open spec fn is_actionable(severity: Severity) -> bool {
    severity != Severity::Note && severity != Severity::Help
}

/// Whether no finding is only a note or a help.
pub open spec fn all_actionable(findings: Seq<Finding>) -> bool {
    forall|i: int| 0 <= i < findings.len() ==> is_actionable((#[trigger] findings[i]).severity)
}

/// Whether every location is valid.
pub open spec fn valid_locations(locations: Seq<Location>) -> bool {
    forall|i: int| 0 <= i < locations.len() ==> (#[trigger] locations[i]).wf()
}

/// Whether every location of the data is valid.
pub open spec fn valid_data(data: Seq<DiagnosticData>) -> bool {
    forall|i: int| 0 <= i < data.len() ==> valid_locations((#[trigger] data[i]).locations@)
}

impl<'a> SarifCollector<'a> {
    /// The crates of the project.
    pub closed spec fn krates(self) -> KrateGraph {
        *self.grapher.krates
    }

    /// The manifests of the project.
    pub closed spec fn spans(self) -> KrateSpans {
        *self.krate_spans
    }

    /// How deep features are followed.
    pub closed spec fn feature_limit(self) -> u32 {
        self.feature_depth
    }

    /// The crates and the locations are valid, the findings are actionable, and the
    /// rules are those of the findings.
    pub closed spec fn wf(self) -> bool {
        &&& self.grapher.krates.wf()
        &&& valid_data(self.diagnostics@)
        &&& all_actionable(findings_of(self.diagnostics@))
        &&& self.rules@ == with_rules(Seq::empty(), findings_of(self.diagnostics@))
    }

    pub fn new(
        krates: &'a KrateGraph,
        feature_depth: Option<u32>,
        krate_spans: &'a KrateSpans,
    ) -> (collector: Self)
        requires
            krates.wf(),
        ensures
            collector.wf(),
            collector.krates() == *krates,
            collector.spans() == *krate_spans,
            collector.feature_limit() == (match feature_depth {
                Some(n) => n,
                None => 1,
            }),
            collector@.findings == Seq::<Finding>::empty(),
            collector@.rules == Seq::<RuleData>::empty(),
    {
        let collector = Self {
            diagnostics: Vec::new(),
            rules: Vec::new(),
            grapher: InclusionGrapher::new(krates),
            feature_depth: match feature_depth {
                Some(n) => n,
                None => 1,
            },
            krate_spans,
        };
        assert(findings_of(collector.diagnostics@) =~= Seq::empty());
        collector
    }

    /// Calculates the maximum feature depth based on whether features are enabled
    fn max_feature_depth(&self, with_features: bool) -> (n: usize)
        ensures
            n == depth(self.feature_depth, with_features),
    {
        depth_of(self.feature_depth, with_features)
    }

    /// Ensures a rule is registered for the given diagnostic code
    fn ensure_rule(&mut self, code: DiagnosticCode, severity: Severity)
        ensures
            final(self).rules@ == with_rule(old(self).rules@, rule_of(code, severity)),
            rules_ascend(old(self).rules@) ==> {
                &&& rules_ascend(final(self).rules@)
                &&& has_rule(final(self).rules@, code)
                &&& has_rule(old(self).rules@, code) ==> final(self).rules@ == old(self).rules@
                &&& !has_rule(old(self).rules@, code) ==> final(self).rules@.to_multiset() == old(
                    self,
                ).rules@.to_multiset().insert(rule_of(code, severity))
            },
            final(self).diagnostics == old(self).diagnostics,
            final(self).grapher == old(self).grapher,
            final(self).feature_depth == old(self).feature_depth,
            final(self).krate_spans == old(self).krate_spans,
    {
        let rule = RuleData { code, severity, description: code.description() };
        let ghost rules = self.rules@;
        proof {
            if rules_ascend(rules) {
                codes_are_registered_once(rules, code, severity, severity);
            }
        }
        let mut i = self.rules.len();
        assert(rules.take(i as int) =~= rules);
        assert(with_rule(rules, rule) =~= with_rule(rules.take(i as int), rule) + rules.skip(
            i as int,
        ));
        while i > 0
            invariant
                i <= self.rules.len(),
                *self == *old(self),
                rules == self.rules@,
                rule == rule_of(code, severity),
                with_rule(rules, rule) == with_rule(rules.take(i as int), rule) + rules.skip(
                    i as int,
                ),
            ensures
                i <= self.rules.len(),
                *self == *old(self),
                rules == self.rules@,
                i > 0 ==> rules[i - 1].code.before(code),
                with_rule(rules, rule) == with_rule(rules.take(i as int), rule) + rules.skip(
                    i as int,
                ),
            decreases i,
        {
            let last = self.rules[i - 1].code;
            let ghost part = rules.take(i as int);
            proof {
                assert(part.last() == rules[i - 1]);
                code_order_is_total(last, code);
            }
            if last.comes_before(code) {
                break ;
            }
            if !code.comes_before(last) {
                assert(part + rules.skip(i as int) =~= rules);
                return ;
            }
            proof {
                assert(part.drop_last() =~= rules.take(i - 1));
                assert(with_rule(part, rule) + rules.skip(i as int) =~= with_rule(
                    rules.take(i - 1),
                    rule,
                ) + rules.skip(i - 1));
            }
            i -= 1;
        }
        let ghost part = rules.take(i as int);
        proof {
            if i > 0 {
                assert(part.last() == rules[i - 1]);
            }
            assert(with_rule(part, rule) =~= part.push(rule));
        }
        self.rules.insert(i, rule);
        assert(self.rules@ =~= part.push(rule) + rules.skip(i as int));
    }

    /// What a diagnostic is turned into.
    fn process(&self, diag: Diag, files: &Files) -> (data: Vec<DiagnosticData>)
        requires
            self.grapher.krates.wf(),
        ensures
            findings_of(data@) == diag_findings(
                *self.grapher.krates,
                *self.krate_spans,
                self.feature_depth,
                diag,
                *files,
            ),
            files.wf() ==> valid_data(data@),
            all_actionable(findings_of(data@)),
    {
        // Only what is actionable is reported.
        match diag.diag.severity {
            Severity::Note | Severity::Help => {
                return Vec::new();
            },
            _ => {},
        }
        match diag.code {
            None => Vec::new(),
            Some(DiagnosticCode::Advisory(_)) => self.process_advisory(diag, files),
            Some(DiagnosticCode::License(_)) => self.process_license(diag, files),
            Some(DiagnosticCode::Bans(code)) => self.process_ban(diag, files, code),
            Some(_) => self.process_other(diag, files),
        }
    }

    /// Adds the findings of some diagnostics.
    pub fn add_diagnostics(&mut self, pack: Pack, files: &Files)
        requires
            old(self).wf(),
            files.wf(),
        ensures
            final(self).wf(),
            final(self).krates() == old(self).krates(),
            final(self).spans() == old(self).spans(),
            final(self).feature_limit() == old(self).feature_limit(),
            final(self)@.findings == old(self)@.findings + diags_findings(
                old(self).krates(),
                old(self).spans(),
                old(self).feature_limit(),
                pack.diags@,
                *files,
            ),
            final(self)@.rules == with_rules(Seq::empty(), final(self)@.findings),
    {
        let diags = pack.diags;
        let ghost g = *self.grapher.krates;
        let ghost spans = *self.krate_spans;
        let ghost limit = self.feature_depth;
        let ghost before = findings_of(self.diagnostics@);
        assert(before =~= before + diags_findings(g, spans, limit, diags@.take(0), *files));
        for diag in it: diags
            invariant
                it.seq() == diags@,
                self.wf(),
                files.wf(),
                g == *self.grapher.krates,
                spans == *self.krate_spans,
                limit == self.feature_depth,
                findings_of(self.diagnostics@) == before + diags_findings(
                    g,
                    spans,
                    limit,
                    diags@.take(it.index() as int),
                    *files,
                ),
        {
            let ghost i = it.index() as int;
            assert(diags@.take(i + 1).drop_last() =~= diags@.take(i));
            assert(diags@.take(i + 1).last() == diag);
            let data = self.process(diag, files);
            let ghost found = findings_of(data@);
            let ghost so_far = findings_of(self.diagnostics@);
            self.add_data(data);
            assert(so_far + found =~= before + diags_findings(
                g,
                spans,
                limit,
                diags@.take(i + 1),
                *files,
            ));
        }
        assert(diags@.take(diags@.len() as int) =~= diags@);
    }

    /// Adds data, with the rules that it refers to.
    fn add_data(&mut self, data: Vec<DiagnosticData>)
        requires
            old(self).wf(),
            valid_data(data@),
            all_actionable(findings_of(data@)),
        ensures
            final(self).wf(),
            final(self).grapher == old(self).grapher,
            final(self).feature_depth == old(self).feature_depth,
            final(self).krate_spans == old(self).krate_spans,
            findings_of(final(self).diagnostics@) == findings_of(old(self).diagnostics@)
                + findings_of(data@),
    {
        let ghost found = findings_of(data@);
        let ghost rules = self.rules@;
        let mut i: usize = 0;
        while i < data.len()
            invariant
                i <= data.len(),
                found == findings_of(data@),
                self.rules@ == with_rules(rules, found.take(i as int)),
                self.diagnostics == old(self).diagnostics,
                self.grapher == old(self).grapher,
                self.feature_depth == old(self).feature_depth,
                self.krate_spans == old(self).krate_spans,
            decreases data.len() - i,
        {
            assert(found.take(i + 1).drop_last() =~= found.take(i as int));
            assert(found.take(i + 1).last() == data@[i as int]@);
            self.ensure_rule(data[i].code, data[i].severity);
            i += 1;
        }
        assert(found.take(i as int) =~= found);
        let mut data = data;
        proof {
            lemma_rules_in_order(Seq::empty(), findings_of(self.diagnostics@), found);
        }
        self.diagnostics.append(&mut data);
        assert(findings_of(self.diagnostics@) =~= findings_of(old(self).diagnostics@) + found);
    }

    /// What a valid collector has collected is actionable, and its rules are those
    /// of its findings.
    pub proof fn rules_follow_findings(self)
        requires
            self.wf(),
        ensures
            self@.rules == with_rules(Seq::empty(), self@.findings),
            all_actionable(self@.findings),
    {
    }

    /// Makes the log of what was collected.
    pub fn generate_sarif(self) -> (log: SarifLog)
        requires
            self.wf(),
        ensures
            is_log(log, self@),
    {
        let rule_list = self.rules;
        let mut rules: Vec<Rule> = Vec::new();
        for rule in it: rule_list
            invariant
                it.seq() == rule_list@,
                rules.len() == it.index(),
                forall|j: int| 0 <= j < rules.len() ==> is_rule(#[trigger] rules@[j], rule_list@[j]),
        {
            rules.push(make_rule(rule));
        }
        let diagnostics = self.diagnostics;
        let mut results: Vec<SarifResult> = Vec::new();
        for diag in it: diagnostics
            invariant
                it.seq() == diagnostics@,
                valid_data(diagnostics@),
                results.len() == it.index(),
                forall|j: int|
                    0 <= j < results.len() ==> is_result(
                        #[trigger] results@[j],
                        diagnostics@[j]@,
                    ),
        {
            assert(diag == diagnostics@[it.index() as int]);
            results.push(make_result(diag));
        }
        let mut runs: Vec<Run> = Vec::new();
        runs.push(Run { tool: Tool { driver: Driver { rules, version: None } }, results });
        SarifLog { runs }
    }

    /// Extracts a deduplication key from a location.
    fn location_key(&self, loc: &Location) -> (key: (String, usize, usize))
        ensures
            key.0@ == loc@.uri,
            key.1 == loc@.byte_offset,
            key.2 == loc@.byte_length,
    {
        (
            loc.physical_location.artifact_location.uri.clone(),
            loc.physical_location.region.byte_offset,
            loc.physical_location.region.byte_length,
        )
    }

    /// Whether one of the locations is the same part of the same file as another one.
    fn has_location(&self, locations: &Vec<Location>, loc: &Location) -> (r: bool)
        ensures
            r == has_part(places_of(locations@), loc@),
    {
        let key = self.location_key(loc);
        let ghost places = places_of(locations@);
        let mut i: usize = 0;
        while i < locations.len()
            invariant
                i <= locations.len(),
                places == places_of(locations@),
                key.0@ == loc@.uri,
                key.1 == loc@.byte_offset,
                key.2 == loc@.byte_length,
                forall|j: int| 0 <= j < i ==> !same_part(#[trigger] places[j], loc@),
            decreases locations.len() - i,
        {
            let other = self.location_key(&locations[i]);
            assert(places[i as int] == locations@[i as int]@);
            if text_eq(other.0.as_str(), key.0.as_str()) && other.1 == key.1 && other.2 == key.2 {
                assert(same_part(places[i as int], loc@));
                return true;
            }
            i += 1;
        }
        false
    }

    /// Finds the location of a dependency declaration in a root crate's manifest.
    /// If the dependency is workspace-controlled, returns the workspace location.
    fn find_dependency_location(
        &self,
        root_kid: &Kid,
        dep_name: &str,
        dep_version: &Version,
        krate_spans: &KrateSpans,
        files: &Files,
    ) -> (location: Option<Location>)
        ensures
            location == (match dependency_mark(*krate_spans, *root_kid, dep_name@, *dep_version) {
                Some(mark) => files.location_of(mark),
                None => None,
            }),
            files.wf() ==> (location matches Some(l) ==> l.wf()),
    {
        match find_declaration(krate_spans, root_kid, dep_name, dep_version) {
            Some(label) => files.sarif_location(&label),
            None => None,
        }
    }

    /// Finds root workspace crates that depend on the vulnerable crate(s) by processing
    /// dependency paths collected from reverse dependency graphs.
    fn find_root_locations(&self, paths: &[DependencyPath], files: &Files) -> (locations: Vec<
        Location,
    >)
        ensures
            places_of(locations@) == root_places(*self.krate_spans, *files, path_values(paths@)),
            files.wf() ==> valid_locations(locations@),
    {
        let mut locations: Vec<Location> = Vec::new();
        let ghost values = path_values(paths@);
        let mut i: usize = 0;
        assert(places_of(locations@) =~= root_places(*self.krate_spans, *files, values.take(0)));
        while i < paths.len()
            invariant
                i <= paths@.len(),
                values == path_values(paths@),
                places_of(locations@) == root_places(
                    *self.krate_spans,
                    *files,
                    values.take(i as int),
                ),
                files.wf() ==> valid_locations(locations@),
            decreases paths@.len() - i,
        {
            let path = &paths[i];
            assert(values.take(i + 1).drop_last() =~= values.take(i as int));
            assert(values.take(i + 1).last() == path@);
            // The first crate is the direct dependency of the root crate. There is
            // none where the root crate is the vulnerable one.
            if path.crates.len() > 0 {
                let dep = &path.crates[0];
                if let Some(loc) = self.find_dependency_location(
                    &path.root_kid,
                    dep.0.as_str(),
                    &dep.1,
                    self.krate_spans,
                    files,
                ) {
                    if !self.has_location(&locations, &loc) {
                        let ghost before = places_of(locations@);
                        let ghost place = loc@;
                        locations.push(loc);
                        assert(places_of(locations@) =~= before.push(place));
                    }
                }
            }
            i += 1;
        }
        assert(values.take(i as int) =~= values);
        locations
    }

    /// Creates a dummy location for advisories when no actual location can be determined.
    /// This ensures that each result of an advisory has a location.
    fn create_dummy_location() -> (location: Location)
        ensures
            location@ == unknown_place("Cargo.toml"@),
            location.wf(),
    {
        create_dummy_location("Cargo.toml")
    }

    fn process_advisory(&self, diag: Diag, files: &Files) -> (data: Vec<DiagnosticData>)
        requires
            self.grapher.krates.wf(),
            diag.code is Some,
        ensures
            findings_of(data@) == advisory_findings(
                *self.grapher.krates,
                *self.krate_spans,
                depth(self.feature_depth, diag.with_features),
                diag,
                *files,
            ),
            files.wf() ==> valid_data(data@),
    {
        let max_feature_depth = self.max_feature_depth(diag.with_features);
        let (graphs, all_paths) = build_graphs(
            &self.grapher,
            &diag.graph_nodes,
            max_feature_depth,
        );
        // The lock file that advisories point to is left out of reports, so the
        // locations are those where the project depends on the crates.
        let locations = self.find_root_locations(all_paths.as_slice(), files);
        let style = AdvisoryStyle {
            before_title: "\n",
            after_title: "\n",
            description: "## Description\n",
            after_description: "\n\n",
            unaffected: "## Unaffected\n",
            after_unaffected: "\n",
            patched: "## Patched\n",
            affected: "## Affected\n",
            arches: "### Arches\n",
            systems: "### Operating Systems\n",
        };
        let graph_style = GraphStyle {
            before: "## Dependency Graph\n\n```\n",
            after: "\n```\n",
        };
        let message = write_advisory_message(style, graph_style, &diag, &graphs);
        data_at(&diag, message, locations, Self::create_dummy_location())
    }

    fn process_license(&self, diag: Diag, files: &Files) -> (data: Vec<DiagnosticData>)
        requires
            self.grapher.krates.wf(),
            diag.code is Some,
        ensures
            findings_of(data@) == seq![
                license_finding(
                    *self.grapher.krates,
                    depth(self.feature_depth, diag.with_features),
                    diag,
                    *files,
                ),
            ],
            files.wf() ==> valid_data(data@),
    {
        let max_feature_depth = self.max_feature_depth(diag.with_features);
        let mut data: Vec<DiagnosticData> = Vec::new();
        data.push(license_data(&self.grapher, max_feature_depth, diag, files));
        data
    }

    fn process_other(&self, diag: Diag, files: &Files) -> (data: Vec<DiagnosticData>)
        requires
            self.grapher.krates.wf(),
            diag.code is Some,
        ensures
            findings_of(data@) == seq![
                labelled_finding(
                    dense_numbered_style(),
                    *self.grapher.krates,
                    depth(self.feature_depth, diag.with_features),
                    diag,
                    *files,
                ),
            ],
            files.wf() ==> valid_data(data@),
    {
        let style = NumberedStyle {
            before_number: "## Dependency Graph ",
            after_number: "\n\n",
            graph: GraphStyle { before: "```\n", after: "\n```\n" },
        };
        let max_feature_depth = self.max_feature_depth(diag.with_features);
        let mut data: Vec<DiagnosticData> = Vec::new();
        data.push(label_data(style, &self.grapher, max_feature_depth, diag, files));
        data
    }

    fn process_ban(&self, diag: Diag, files: &Files, code: BansCode) -> (data: Vec<DiagnosticData>)
        requires
            self.grapher.krates.wf(),
            diag.code is Some,
        ensures
            findings_of(data@) == (match code {
                BansCode::Duplicate(_) => seq![
                    duplicate_finding(
                        *self.grapher.krates,
                        *self.krate_spans,
                        depth(self.feature_depth, diag.with_features),
                        diag,
                        *files,
                    ),
                ],
                BansCode::Other(_) => seq![
                    labelled_finding(
                        dense_numbered_style(),
                        *self.grapher.krates,
                        depth(self.feature_depth, diag.with_features),
                        diag,
                        *files,
                    ),
                ],
            }),
            files.wf() ==> valid_data(data@),
    {
        match code {
            BansCode::Duplicate(_) => self.process_ban_duplicate(diag, files),
            BansCode::Other(_) => self.process_other(diag, files),
        }
    }

    fn process_ban_duplicate(&self, diag: Diag, files: &Files) -> (data: Vec<DiagnosticData>)
        requires
            self.grapher.krates.wf(),
            diag.code is Some,
        ensures
            findings_of(data@) == seq![
                duplicate_finding(
                    *self.grapher.krates,
                    *self.krate_spans,
                    depth(self.feature_depth, diag.with_features),
                    diag,
                    *files,
                ),
            ],
            files.wf() ==> valid_data(data@),
    {
        let code = diag.code.unwrap();
        let max_feature_depth = self.max_feature_depth(diag.with_features);
        let ghost g = *self.grapher.krates;
        let ghost max = max_feature_depth as nat;
        let ghost message = diag.diag.message@;
        let style = NumberedStyle {
            before_number: "## Dependency Graph ",
            after_number: "\n\n",
            graph: GraphStyle { before: "```\n", after: "\n```\n" },
        };
        let nodes = &diag.graph_nodes;
        let mut all_paths: Vec<DependencyPath> = Vec::new();
        let mut md = diag.diag.message.clone();
        let mut i: usize = 0;
        assert(path_values(all_paths@) =~= graph_paths(graphs_of(g, nodes@.take(0), max)));
        while i < nodes.len()
            invariant
                i <= nodes.len(),
                self.grapher.krates.wf(),
                g == *self.grapher.krates,
                max == max_feature_depth,
                md@ == numbered_graphs(style, message, g, nodes@.take(i as int), max),
                path_values(all_paths@) == graph_paths(graphs_of(g, nodes@.take(i as int), max)),
            decreases nodes.len() - i,
        {
            proof {
                let before = graphs_of(g, nodes@.take(i as int), max);
                assert(nodes@.take(i + 1).drop_last() =~= nodes@.take(i as int));
                let root = node_graph(g, nodes@[i as int], max);
                assert(root is Some ==> before.push(root.unwrap()).drop_last() =~= before);
            }
            if let Ok(graph) = self.grapher.build_graph(&nodes[i], max_feature_depth) {
                add_paths(&mut all_paths, &graph);
                push_numbered(&mut md, style, (i + 1) as u64, &graph);
            }
            i += 1;
        }
        assert(nodes@.take(i as int) =~= nodes@);
        let roots = retain_project_paths(all_paths);
        let locations = self.find_root_locations(roots.as_slice(), files);
        let krates = kids_of_nodes(&diag.graph_nodes);
        let severity = diag.diag.severity;
        let message = Message::with_markdown(diag.diag.message, Some(md));
        let mut data: Vec<DiagnosticData> = Vec::new();
        data.push(DiagnosticData { code, severity, krates, message, locations, extra: diag.extra });
        data
    }
}

/// Rules are added for one list of findings after the other.
proof fn lemma_rules_in_order(rules: Seq<RuleData>, a: Seq<Finding>, b: Seq<Finding>)
    ensures
        with_rules(rules, a + b) == with_rules(with_rules(rules, a), b),
    decreases b.len(),
{
    if b.len() == 0 {
        assert(a + b =~= a);
    } else {
        assert((a + b).drop_last() =~= a + b.drop_last());
        lemma_rules_in_order(rules, a, b.drop_last());
    }
}

/// Keeps the paths that start at a crate of the project.
fn retain_project_paths(paths: Vec<DependencyPath>) -> (kept: Vec<DependencyPath>)
    ensures
        path_values(kept@) == project_paths(path_values(paths@)),
{
    let mut kept: Vec<DependencyPath> = Vec::new();
    let ghost values = path_values(paths@);
    let ghost keep = |path: Path| path.is_project_crate;
    assert(path_values(kept@) =~= values.take(0).filter(keep)) by {
        reveal(Seq::filter);
    }
    for path in it: paths
        invariant
            it.seq() == paths@,
            values == path_values(paths@),
            keep == (|path: Path| path.is_project_crate),
            path_values(kept@) == values.take(it.index() as int).filter(keep),
    {
        proof {
            let i = it.index() as int;
            assert(values.take(i + 1).drop_last() =~= values.take(i));
            assert(values.take(i + 1).last() == path@);
            reveal(Seq::filter);
        }
        if path.is_project_crate {
            let ghost before = path_values(kept@);
            let ghost value = path@;
            kept.push(path);
            assert(path_values(kept@) =~= before.push(value));
        }
    }
    assert(values.take(paths@.len() as int) =~= values);
    kept
}

} // verus!
