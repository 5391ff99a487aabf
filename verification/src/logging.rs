//! Mapping from command-line verbosity to a log level.

use vstd::prelude::*;

verus! {

/// The name of the most verbose log level enabled by `verbosity` repetitions
/// of the verbose flag.
pub open spec fn spec_max_level(verbosity: u8) -> Seq<char> {
    if verbosity == 0 {
        "warn"@
    } else if verbosity == 1 {
        "info"@
    } else if verbosity == 2 {
        "debug"@
    } else {
        "trace"@
    }
}

/// Returns the name of the most verbose log level that should be emitted.
pub fn max_level(verbosity: u8) -> (level: &'static str)
    ensures
        level@ == spec_max_level(verbosity),
{
    match verbosity {
        0 => "warn",
        1 => "info",
        2 => "debug",
        _ => "trace",
    }
}

} // verus!
