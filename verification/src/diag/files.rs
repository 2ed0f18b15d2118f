//! The files that labels refer to.

use crate::diag::{Label, Mark};
use crate::sarif::model::Location;
use vstd::prelude::*;

verus! {

/// The line and the column of a byte of a file, both counted from zero.
#[derive(Clone, Copy, PartialEq, Eq, Structural, Debug)]
pub struct Position {
    pub offset: u32,
    pub line: usize,
    pub column: usize,
}

/// A file, and the positions that are known in it.
#[derive(Debug)]
pub struct SourceFile {
    pub source: String,
    pub positions: Vec<Position>,
}

/// A label, and where it is in the terms of SARIF.
#[derive(Debug)]
pub struct ResolvedLabel {
    pub label: Label,
    pub location: Location,
}

/// The files that labels refer to by their place in the list, and the labels
/// that have a location. A label of a file that is left out of reports has none.
#[derive(Debug)]
pub struct Files {
    pub files: Vec<SourceFile>,
    pub resolved: Vec<ResolvedLabel>,
}

/// The first of `positions` from `from` on that is the one of `offset`.
pub open spec fn position_at(positions: Seq<Position>, offset: u32, from: int) -> Option<Position>
    decreases positions.len() - from,
{
    if from < 0 || from >= positions.len() {
        None
    } else if positions[from].offset == offset {
        Some(positions[from])
    } else {
        position_at(positions, offset, from + 1)
    }
}

/// The location of the first of `resolved` from `from` on whose label is `mark`.
pub open spec fn location_at(resolved: Seq<ResolvedLabel>, mark: Mark, from: int) -> Option<
    Location,
>
    decreases resolved.len() - from,
{
    if from < 0 || from >= resolved.len() {
        None
    } else if resolved[from].label@ == mark {
        Some(resolved[from].location)
    } else {
        location_at(resolved, mark, from + 1)
    }
}

impl Files {
    /// Every location is valid.
    pub open spec fn wf(self) -> bool {
        forall|i: int|
            0 <= i < self.resolved.len() ==> (#[trigger] self.resolved@[i]).location.wf()
    }

    /// The position of a byte of a file.
    pub open spec fn position_of(self, file_id: usize, offset: u32) -> Option<Position> {
        if file_id < self.files.len() {
            position_at(self.files@[file_id as int].positions@, offset, 0)
        } else {
            None
        }
    }

    /// The location of a label.
    pub open spec fn location_of(self, mark: Mark) -> Option<Location> {
        location_at(self.resolved@, mark, 0)
    }

    /// The text of a file.
    pub fn source(&self, file_id: usize) -> (s: &str)
        requires
            file_id < self.files.len(),
        ensures
            s@ == self.files@[file_id as int].source@,
    {
        self.files[file_id].source.as_str()
    }

    /// The position of a byte of a file.
    pub fn location(&self, file_id: usize, offset: u32) -> (position: Option<Position>)
        ensures
            position == self.position_of(file_id, offset),
    {
        if file_id >= self.files.len() {
            return None;
        }
        let positions = &self.files[file_id].positions;
        let mut i: usize = 0;
        while i < positions.len()
            invariant
                i <= positions.len(),
                file_id < self.files.len(),
                positions == self.files@[file_id as int].positions,
                position_at(positions@, offset, 0) == position_at(positions@, offset, i as int),
            decreases positions.len() - i,
        {
            if positions[i].offset == offset {
                return Some(positions[i]);
            }
            i += 1;
        }
        None
    }

    /// The location of a label.
    pub fn sarif_location(&self, label: &Label) -> (location: Option<Location>)
        ensures
            location == self.location_of(label@),
            self.wf() ==> (location matches Some(l) ==> l.wf()),
    {
        let mut i: usize = 0;
        while i < self.resolved.len()
            invariant
                i <= self.resolved.len(),
                self.location_of(label@) == location_at(self.resolved@, label@, i as int),
            decreases self.resolved.len() - i,
        {
            if self.resolved[i].label.is_same(label) {
                return Some(self.resolved[i].location.clone());
            }
            i += 1;
        }
        None
    }
}

} // verus!
