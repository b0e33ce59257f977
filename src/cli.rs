use vstd::prelude::*;

verus! {

/// A location token on the command line: a column `c0`..`c7`, a freecell
/// `f0`..`f3`, or the foundations.
#[derive(Copy, Clone, Debug, PartialEq, Eq, Structural)]
pub enum LocationArg {
    C0,
    C1,
    C2,
    C3,
    C4,
    C5,
    C6,
    C7,
    F0,
    F1,
    F2,
    F3,
    Foundation,
}

/// One invocation's options, as the argument parser hands them over.
#[derive(Debug)]
pub struct AppArgs {
    /// Discard the saved game and deal a new one.
    pub reset: bool,
    /// Only print the current game.
    pub print: bool,
    /// Only print the statistics.
    pub stats: bool,
    /// Only print the move history.
    pub history: bool,
    /// Undo the last move.
    pub undo: bool,
    /// Seed for a new deal.
    pub seed: Option<u64>,
    /// Zero or two location tokens: where a move starts and where it ends.
    pub positions: Vec<LocationArg>,
}

} // verus!
