//! Where the manifests of a project declare its dependencies.

use crate::diag::Span;
use crate::krate_graph::{Kid, Krate};
use vstd::prelude::*;

verus! {

/// A dependency that a manifest declares, and what it is resolved to.
#[derive(Debug)]
pub struct ManifestDep {
    pub krate: Krate,
    pub key_span: Span,
    pub value_span: Span,
    /// The value of the `workspace` key, where the declaration has one.
    pub workspace: Option<bool>,
}

/// The manifest of a crate of the project.
#[derive(Debug)]
pub struct Manifest {
    pub kid: Kid,
    pub id: usize,
    pub deps: Vec<ManifestDep>,
}

/// Where the workspace declares a dependency.
#[derive(Debug)]
pub struct WorkspaceSpan {
    pub kid: Kid,
    pub key: Span,
    pub value: Span,
}

/// The manifests of a project.
#[derive(Debug)]
pub struct KrateSpans {
    pub manifests: Vec<Manifest>,
    pub workspace_spans: Vec<WorkspaceSpan>,
    /// The file of the manifest of the workspace.
    pub workspace_id: Option<usize>,
}

/// The place of the first of `manifests` from `from` on that is the one of `kid`.
pub open spec fn manifest_at(manifests: Seq<Manifest>, kid: Kid, from: int) -> Option<int>
    decreases manifests.len() - from,
{
    if from < 0 || from >= manifests.len() {
        None
    } else if manifests[from].kid.same(kid) {
        Some(from)
    } else {
        manifest_at(manifests, kid, from + 1)
    }
}

/// The place of the first of `spans` from `from` on that is the one of `kid`.
pub open spec fn workspace_span_at(spans: Seq<WorkspaceSpan>, kid: Kid, from: int) -> Option<int>
    decreases spans.len() - from,
{
    if from < 0 || from >= spans.len() {
        None
    } else if spans[from].kid.same(kid) {
        Some(from)
    } else {
        workspace_span_at(spans, kid, from + 1)
    }
}

impl KrateSpans {
    /// The manifest of a crate.
    pub open spec fn manifest_of(self, kid: Kid) -> Option<Manifest> {
        match manifest_at(self.manifests@, kid, 0) {
            Some(i) => Some(self.manifests@[i]),
            None => None,
        }
    }

    /// Where the workspace declares a crate.
    pub open spec fn workspace_span_of(self, kid: Kid) -> Option<WorkspaceSpan> {
        match workspace_span_at(self.workspace_spans@, kid, 0) {
            Some(i) => Some(self.workspace_spans@[i]),
            None => None,
        }
    }

    /// The manifest of a crate.
    pub fn manifest(&self, kid: &Kid) -> (manifest: Option<&Manifest>)
        ensures
            self.manifest_of(*kid) == (match manifest {
                Some(m) => Some(*m),
                None => None,
            }),
    {
        let mut i: usize = 0;
        while i < self.manifests.len()
            invariant
                i <= self.manifests.len(),
                manifest_at(self.manifests@, *kid, 0) == manifest_at(
                    self.manifests@,
                    *kid,
                    i as int,
                ),
            decreases self.manifests.len() - i,
        {
            if self.manifests[i].kid == *kid {
                return Some(&self.manifests[i]);
            }
            i += 1;
        }
        None
    }

    /// Where the workspace declares a crate.
    pub fn workspace_span(&self, kid: &Kid) -> (span: Option<&WorkspaceSpan>)
        ensures
            self.workspace_span_of(*kid) == (match span {
                Some(s) => Some(*s),
                None => None,
            }),
    {
        let mut i: usize = 0;
        while i < self.workspace_spans.len()
            invariant
                i <= self.workspace_spans.len(),
                workspace_span_at(self.workspace_spans@, *kid, 0) == workspace_span_at(
                    self.workspace_spans@,
                    *kid,
                    i as int,
                ),
            decreases self.workspace_spans.len() - i,
        {
            if self.workspace_spans[i].kid == *kid {
                return Some(&self.workspace_spans[i]);
            }
            i += 1;
        }
        None
    }
}

} // verus!
