//! The ways in which a selection can fail.

use vstd::prelude::*;

verus! {

/// Why no list of devices was produced. Every failure ends the run.
#[derive(Clone, Copy, Debug, PartialEq, Eq, Structural)]
pub enum Failure {
    /// The query tool is not on the search path.
    ToolNotFound,
    /// The query tool was found but could not be run to completion.
    QueryExecutionError,
    /// What the query tool printed is not valid text.
    QueryOutputDecodeError,
    /// No device is eligible.
    NoDevicesAvailable,
    /// More devices were asked for than are eligible.
    InsufficientDevices { requested: usize, available: usize },
}

} // verus!
