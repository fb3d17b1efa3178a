use vstd::prelude::*;

verus! {

/// Operating mode of a carrier tracking loop. The mode carries no data; it
/// only selects which per-sample update rule the loop applies.
#[derive(Clone, Copy, Debug, PartialEq, Eq, Structural)]
pub enum PLLState {
    /// The oscillator runs at its configured frequency and ignores the input.
    Free,
    /// The loop filter follows the phase error measured against the input.
    Capture,
    /// The oscillator runs with the last phase estimate held fixed.
    Lock,
}

} // verus!
