//! Options of the progress display.

use vstd::prelude::*;

verus! {

/// How progress is shown.
pub struct Options {
    /// Show the amount done as a number of bytes.
    pub bytes_units: bool,
}

impl Default for Options {
    /// Amounts are bytes unless said otherwise.
    fn default() -> (options: Options)
        ensures
            options.bytes_units,
    {
        Options { bytes_units: true }
    }
}

} // verus!
