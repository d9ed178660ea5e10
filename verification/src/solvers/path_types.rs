use vstd::prelude::*;

verus! {

/// How a search over grid coordinates ended, with the path it found.
#[derive(Debug)]
pub enum PathResult {
    /// Reserved for searches that hand out what they have so far.
    Partial(Vec<(i32, i32)>),
    /// The goal was reached; the path leads from the start to it.
    Complete(Vec<(i32, i32)>),
    /// The search gave up; the path leads to the most promising cell.
    Timeout(Vec<(i32, i32)>),
    /// The frontier ran empty; the path leads to the most promising cell.
    NoPathResolution(Vec<(i32, i32)>),
}

/// How a search ended, without its path.
#[derive(PartialEq, Eq, Structural)]
pub enum Ending {
    Partial,
    Complete,
    Timeout,
    NoPath,
}

impl PathResult {
    /// How the search ended, and the path as a sequence.
    pub open spec fn tag_and_path(self) -> (Ending, Seq<(i32, i32)>) {
        match self {
            PathResult::Partial(path) => (Ending::Partial, path@),
            PathResult::Complete(path) => (Ending::Complete, path@),
            PathResult::Timeout(path) => (Ending::Timeout, path@),
            PathResult::NoPathResolution(path) => (Ending::NoPath, path@),
        }
    }
}

} // verus!
