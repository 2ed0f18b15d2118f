//! Security advisories.

use vstd::prelude::*;

verus! {

/// What an advisory is about.
#[derive(Debug)]
pub struct Metadata {
    pub id: String,
    pub url: Option<String>,
    pub title: String,
    pub description: String,
}

/// The versions that an advisory names, each as a requirement.
#[derive(Debug)]
pub struct Versions {
    pub unaffected: Vec<String>,
    pub patched: Vec<String>,
}

/// A function that an advisory names, with the versions it is affected in.
#[derive(Debug)]
pub struct AffectedFunction {
    pub path: String,
    pub versions: Vec<String>,
}

/// What an advisory affects.
#[derive(Debug)]
pub struct Affected {
    pub functions: Vec<AffectedFunction>,
    pub arch: Vec<String>,
    pub os: Vec<String>,
}

/// A security advisory.
#[derive(Debug)]
pub struct Advisory {
    pub metadata: Metadata,
    pub versions: Versions,
    pub affected: Option<Affected>,
}

} // verus!
