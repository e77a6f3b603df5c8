//! The program's command line.
use vstd::prelude::*;

verus! {

/// The arguments the program is started with.
pub struct CliArgs {
    /// Path to a GTFS zip; without it the program cannot open a dataset.
    pub path: Option<String>,
}

} // verus!
