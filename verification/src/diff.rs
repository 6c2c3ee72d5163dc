//! Choice of diff algorithm for reports.

use vstd::prelude::*;

verus! {

/// The diff algorithms a report can ask for.  Producing the diff itself is
/// left to the surrounding tooling.
#[derive(Copy, Clone, Debug, PartialEq, Eq, Structural)]
pub enum DiffAlgo {
    Myers,
    Patience,
    Lcs,
}

} // verus!
