//! Diagnostics and what they refer to.

pub mod advisory;
pub mod files;
pub mod graph_laws;
pub mod grapher;
pub mod json;
pub mod json_laws;
pub mod paths;
pub mod route_laws;
pub mod shape_laws;
pub mod spans;
pub mod text_laws;
pub mod tree_text;

use crate::diag::advisory::Advisory;
use crate::krate_graph::Kid;
use crate::text::{
    order_text, text_order, text_order_equal_is_same, text_order_is_antisymmetric,
    text_order_is_transitive, Order,
};
use std::sync::Arc;
use vstd::prelude::*;

verus! {

/// The node that a graph is rooted at: a crate, or a feature of a crate.
#[derive(Debug)]
pub struct GraphNode {
    pub kid: Kid,
    pub feature: Option<String>,
}

impl GraphNode {
    /// The characters of the name of the feature.
    pub open spec fn feature_text(self) -> Option<Seq<char>> {
        match self.feature {
            Some(name) => Some(name@),
            None => None,
        }
    }
}

/// How severe a diagnostic is.
#[derive(Clone, Copy, PartialEq, Eq, Structural, Debug)]
pub enum Severity {
    Bug,
    Error,
    Warning,
    Note,
    Help,
}

/// A code of one of the checks.
#[derive(Clone, Copy, Debug)]
pub struct Code {
    /// The place of the code among the codes of its check.
    pub rank: u32,
    /// The text of the code, with its check.
    pub qualified: &'static str,
    pub description: &'static str,
}

/// A code of the check for banned crates.
#[derive(Clone, Copy, Debug)]
pub enum BansCode {
    Duplicate(Code),
    Other(Code),
}

/// The code of a diagnostic. Codes are ordered by the check, in the order of the
/// variants, then by their rank, then by their text.
#[derive(Clone, Copy, Debug)]
pub enum DiagnosticCode {
    Advisory(Code),
    Bans(BansCode),
    License(Code),
    Source(Code),
    General(Code),
}

impl DiagnosticCode {
    /// The code within its check.
    pub open spec fn code(self) -> Code {
        match self {
            DiagnosticCode::Advisory(code) => code,
            DiagnosticCode::Bans(BansCode::Duplicate(code)) => code,
            DiagnosticCode::Bans(BansCode::Other(code)) => code,
            DiagnosticCode::License(code) => code,
            DiagnosticCode::Source(code) => code,
            DiagnosticCode::General(code) => code,
        }
    }

    /// The place of the check among the checks.
    pub open spec fn check(self) -> int {
        match self {
            DiagnosticCode::Advisory(_) => 0,
            DiagnosticCode::Bans(_) => 1,
            DiagnosticCode::License(_) => 2,
            DiagnosticCode::Source(_) => 3,
            DiagnosticCode::General(_) => 4,
        }
    }

    /// Whether this code comes before another one.
    pub open spec fn before(self, other: DiagnosticCode) -> bool {
        if self.check() != other.check() {
            self.check() < other.check()
        } else if self.code().rank != other.code().rank {
            self.code().rank < other.code().rank
        } else {
            text_order(self.code().qualified@, other.code().qualified@) == Order::Less
        }
    }

    /// Whether this is the same code as another one.
    pub open spec fn same(self, other: DiagnosticCode) -> bool {
        &&& self.check() == other.check()
        &&& self.code().rank == other.code().rank
        &&& self.code().qualified@ == other.code().qualified@
    }

    /// The code within its check.
    pub fn get(self) -> (code: Code)
        ensures
            code == self.code(),
    {
        match self {
            DiagnosticCode::Advisory(code) => code,
            DiagnosticCode::Bans(BansCode::Duplicate(code)) => code,
            DiagnosticCode::Bans(BansCode::Other(code)) => code,
            DiagnosticCode::License(code) => code,
            DiagnosticCode::Source(code) => code,
            DiagnosticCode::General(code) => code,
        }
    }

    fn check_index(self) -> (i: u8)
        ensures
            i == self.check(),
    {
        match self {
            DiagnosticCode::Advisory(_) => 0,
            DiagnosticCode::Bans(_) => 1,
            DiagnosticCode::License(_) => 2,
            DiagnosticCode::Source(_) => 3,
            DiagnosticCode::General(_) => 4,
        }
    }

    /// Whether this code comes before another one.
    pub fn comes_before(self, other: DiagnosticCode) -> (r: bool)
        ensures
            r == self.before(other),
    {
        let a = self.check_index();
        let b = other.check_index();
        if a != b {
            return a < b;
        }
        let c = self.get();
        let d = other.get();
        if c.rank != d.rank {
            return c.rank < d.rank;
        }
        order_text(c.qualified, d.qualified) == Order::Less
    }

    /// The text of the code, with its check.
    pub fn qualified_str(self) -> (s: String)
        ensures
            s@ == self.code().qualified@,
    {
        self.get().qualified.to_owned()
    }

    /// What the code stands for.
    pub fn description(self) -> (s: &'static str)
        ensures
            s == self.code().description,
    {
        self.get().description
    }
}

/// Of two codes, either they are the same or exactly one comes before the other.
pub proof fn code_order_is_total(a: DiagnosticCode, b: DiagnosticCode)
    ensures
        a.same(b) <==> !a.before(b) && !b.before(a),
        a.before(b) ==> !b.before(a),
{
    text_order_equal_is_same(a.code().qualified@, b.code().qualified@);
    text_order_is_antisymmetric(a.code().qualified@, b.code().qualified@);
}

/// What comes before what comes before a code comes before it.
pub proof fn code_order_is_transitive(a: DiagnosticCode, b: DiagnosticCode, c: DiagnosticCode)
    requires
        a.before(b),
        b.before(c),
    ensures
        a.before(c),
{
    if a.check() == b.check() && b.check() == c.check() && a.code().rank == b.code().rank
        && b.code().rank == c.code().rank {
        text_order_is_transitive(a.code().qualified@, b.code().qualified@, c.code().qualified@);
    }
}

/// Whether a label marks what a diagnostic is about, or what it has to do with.
#[derive(Clone, Copy, PartialEq, Eq, Structural, Debug)]
pub enum LabelStyle {
    Primary,
    Secondary,
}

/// The bytes from `start` up to `end`.
#[derive(Clone, Copy, PartialEq, Eq, Structural, Debug)]
pub struct Span {
    pub start: usize,
    pub end: usize,
}

/// A span of a file, with a message.
#[derive(Debug)]
pub struct Label {
    pub style: LabelStyle,
    pub file_id: usize,
    pub range: Span,
    pub message: String,
}

/// The values in a `Label`.
pub struct Mark {
    pub style: LabelStyle,
    pub file_id: usize,
    pub range: Span,
    pub message: Seq<char>,
}

impl View for Label {
    type V = Mark;

    open spec fn view(&self) -> Mark {
        Mark {
            style: self.style,
            file_id: self.file_id,
            range: self.range,
            message: self.message@,
        }
    }
}

/// A mark without a message on what a diagnostic is about.
pub open spec fn primary_mark(file_id: usize, range: Span) -> Mark {
    Mark { style: LabelStyle::Primary, file_id, range, message: Seq::empty() }
}

impl Label {
    /// A label without a message on what a diagnostic is about.
    pub fn primary(file_id: usize, range: Span) -> (label: Label)
        ensures
            label@ == primary_mark(file_id, range),
    {
        Label { style: LabelStyle::Primary, file_id, range, message: String::new() }
    }

    /// Whether two labels say the same of the same span.
    pub fn is_same(&self, other: &Label) -> (r: bool)
        ensures
            r == (self@ == other@),
    {
        self.style == other.style && self.file_id == other.file_id && self.range == other.range
            && self.message == other.message
    }
}

impl Clone for Label {
    fn clone(&self) -> (label: Label)
        ensures
            label == *self,
    {
        Label {
            style: self.style,
            file_id: self.file_id,
            range: self.range,
            message: self.message.clone(),
        }
    }
}

/// A message about spans of files.
#[derive(Debug)]
pub struct Diagnostic {
    pub severity: Severity,
    pub code: Option<String>,
    pub message: String,
    pub labels: Vec<Label>,
    pub notes: Vec<String>,
}

/// What a diagnostic carries besides its message.
#[derive(Debug)]
pub enum Extra {
    Advisory(Arc<Advisory>),
}

impl Extra {
    /// The name under which the value is reported.
    pub fn key(&self) -> (s: &'static str)
        ensures
            s@ == "advisory"@,
    {
        match self {
            Extra::Advisory(_) => "advisory",
        }
    }
}

impl Clone for Extra {
    fn clone(&self) -> (extra: Extra)
        ensures
            extra == *self,
    {
        match self {
            Extra::Advisory(advisory) => Extra::Advisory(advisory.clone()),
        }
    }
}

/// A diagnostic of a check.
#[derive(Debug)]
pub struct Diag {
    pub diag: Diagnostic,
    pub graph_nodes: Vec<GraphNode>,
    pub code: Option<DiagnosticCode>,
    pub extra: Option<Extra>,
    pub with_features: bool,
}

/// The diagnostics of a check.
#[derive(Debug)]
pub struct Pack {
    pub diags: Vec<Diag>,
}

} // verus!
