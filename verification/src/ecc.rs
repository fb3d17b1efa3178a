pub mod bits;
pub mod roundtrip;
pub mod trellis;
pub mod viterbi35;
