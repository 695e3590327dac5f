//! Programs and their release histories.

use crate::version::Version;
use vstd::prelude::*;

verus! {

/// A program: its name and its releases, oldest entry first as they were
/// listed.
#[derive(Debug, PartialEq, Eq)]
pub struct Program {
    pub name: String,
    pub release_history: Vec<Version>,
}

/// A program as mathematics.
pub struct ProgramView {
    pub name: Seq<char>,
    pub release_history: Seq<Version>,
}

impl View for Program {
    type V = ProgramView;

    open spec fn view(&self) -> ProgramView {
        ProgramView { name: self.name@, release_history: self.release_history@ }
    }
}

impl DeepView for Program {
    type V = ProgramView;

    open spec fn deep_view(&self) -> ProgramView {
        self@
    }
}

impl Program {
    /// The program with the given name and releases.
    pub fn new(name: String, release_history: Vec<Version>) -> (program: Program)
        ensures
            program@ == (ProgramView { name: name@, release_history: release_history@ }),
    {
        Program { name, release_history }
    }
}

} // verus!
