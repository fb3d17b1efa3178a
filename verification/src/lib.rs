//! Block-oriented signal processing for software-defined radio, verified
//! with Verus.
//!
//! The heart of the crate is a rate-1/3 convolutional codec (`ecc`): an
//! encoder, a decoder that conceals corrupted codewords, and the proof that
//! decoding an uncorrupted encoding gives back the source. Around it stand
//! small verified building blocks: matrix helpers, the symbol synchronizer,
//! and the mode and kind tags that the floating-point and asynchronous parts
//! of the toolkit are built on.

pub mod ecc;
pub mod loops;
pub mod math;
pub mod modulation;
pub mod modulators;
pub mod objects;
pub mod pipeline;
pub mod radios;
