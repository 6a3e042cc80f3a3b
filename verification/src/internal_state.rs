//! The phases that the work on one point passes through.

use std::cmp::Ordering;
use vstd::prelude::*;
use vstd::std_specs::cmp::PartialOrdSpecImpl;

verus! {

/// Where the engine stands. The phases follow one another in the order in
/// which they are listed here.
#[derive(Debug, Clone, Copy, PartialEq, Eq, Structural)]
pub enum InternalState {
    /// Nothing has been done yet: the mesh has not been seeded.
    Initial,
    /// The triangles of the mesh are being tested against the current
    /// point, one at a time; the number is the position of the next one.
    GetBadTrianglesInMesh(usize),
    /// Every triangle has been tested.
    PolygonalHole,
    /// The triangles found are being taken out of the mesh; the flag tells
    /// whether that has been done.
    RemoveBadTrianglesFromMesh(bool),
    /// The hole is about to be filled with new triangles.
    AddTrianglesFromPolygonEdges,
}

impl Default for InternalState {
    fn default() -> (state: InternalState)
        ensures
            state == InternalState::Initial,
    {
        InternalState::Initial
    }
}

impl InternalState {
    /// The position of the phase in the order of the phases. What a phase
    /// carries with it plays no part.
    pub open spec fn ordinal(self) -> nat {
        match self {
            InternalState::Initial => 0,
            InternalState::GetBadTrianglesInMesh(_) => 1,
            InternalState::PolygonalHole => 2,
            InternalState::RemoveBadTrianglesFromMesh(_) => 3,
            InternalState::AddTrianglesFromPolygonEdges => 4,
        }
    }

    pub fn to_usize(&self) -> (position: usize)
        ensures
            position == self.ordinal(),
    {
        match self {
            InternalState::Initial => 0,
            InternalState::GetBadTrianglesInMesh(_) => 1,
            InternalState::PolygonalHole => 2,
            InternalState::RemoveBadTrianglesFromMesh(_) => 3,
            InternalState::AddTrianglesFromPolygonEdges => 4,
        }
    }
}

impl PartialOrd for InternalState {
    fn partial_cmp(&self, other: &Self) -> (order: Option<Ordering>) {
        let mine = self.to_usize();
        let theirs = other.to_usize();
        if mine < theirs {
            Some(Ordering::Less)
        } else if mine == theirs {
            Some(Ordering::Equal)
        } else {
            Some(Ordering::Greater)
        }
    }
}

impl PartialOrdSpecImpl for InternalState {
    open spec fn obeys_partial_cmp_spec() -> bool {
        true
    }

    /// Phases are ordered by their position alone.
    open spec fn partial_cmp_spec(&self, other: &Self) -> Option<Ordering> {
        if self.ordinal() < other.ordinal() {
            Some(Ordering::Less)
        } else if self.ordinal() == other.ordinal() {
            Some(Ordering::Equal)
        } else {
            Some(Ordering::Greater)
        }
    }
}

} // verus!
