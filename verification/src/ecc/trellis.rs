use crate::ecc::bits::{bit_at, read_bit};
use vstd::prelude::*;

verus! {

/// The trellis symbol of a codeword `(x0, x1, x2)`: the three bits read as a
/// number, first bit highest.
pub open spec fn symbol(x0: bool, x1: bool, x2: bool) -> u8 {
    ((if x0 { 4int } else { 0int }) + (if x1 { 2int } else { 0int }) + (if x2 {
        1int
    } else {
        0int
    })) as u8
}

/// The trellis symbol that the encoder emits for the source window
/// `(b0, b1, b2)`: the codeword `(b0 ^ b1 ^ b2, b0 ^ b1, b1 ^ b2)`.
pub open spec fn window_symbol(b0: bool, b1: bool, b2: bool) -> u8 {
    symbol(b0 ^ b1 ^ b2, b0 ^ b1, b1 ^ b2)
}

/// The trellis symbol formed by the three stream bits starting at `pos`.
pub open spec fn symbol_at(data: Seq<u8>, pos: int) -> u8 {
    symbol(bit_at(data, pos), bit_at(data, pos + 1), bit_at(data, pos + 2))
}

/// The two symbols that may follow each symbol: entry `[s][b]` is the symbol
/// that follows `s` when the next source bit is `b`.
pub const VALID_TRANSITIONS: [[u8; 2]; 8] = [
    [0, 5],
    [6, 3],
    [1, 4],
    [7, 2],
    [1, 4],
    [7, 2],
    [0, 5],
    [6, 3],
];

/// The symbol that follows `previous` when the next source bit is `bit`.
pub open spec fn successor(previous: u8, bit: bool) -> u8 {
    if previous == 0 || previous == 6 {
        if bit { 5 } else { 0 }
    } else if previous == 1 || previous == 7 {
        if bit { 3 } else { 6 }
    } else if previous == 2 || previous == 4 {
        if bit { 4 } else { 1 }
    } else {
        if bit { 2 } else { 7 }
    }
}

/// Looks up the symbol that follows `previous` for source bit `bit`.
pub fn next_symbol(previous: u8, bit: u8) -> (next: u8)
    requires
        previous < 8,
        bit <= 1,
    ensures
        next == successor(previous, bit == 1),
        next < 8,
{
    VALID_TRANSITIONS[previous as usize][bit as usize]
}

/// The transition table follows from the encoder's taps: sliding the window
/// `(b0, b1, b2)` on by one source bit `b3` leads from the symbol of
/// `(b0, b1, b2)` to the symbol of `(b1, b2, b3)`.
pub proof fn lemma_successor_slides_window(b0: bool, b1: bool, b2: bool, b3: bool)
    ensures
        successor(window_symbol(b0, b1, b2), b3) == window_symbol(b1, b2, b3),
{
}

/// The two successors of a symbol differ, so a received symbol matches at
/// most one of them.
pub proof fn lemma_successors_differ(previous: u8)
    ensures
        successor(previous, false) != successor(previous, true),
        successor(previous, false) < 8,
        successor(previous, true) < 8,
{
}

/// Reads the trellis symbol at bit position `index`.
pub fn read_symbol<const N: usize>(data: &[u8; N], index: u32) -> (value: u8)
    requires
        index + 2 < 8 * N,
        8 * N <= u32::MAX,
    ensures
        value == symbol_at(data@, index as int),
        value < 8,
{
    let x0 = read_bit(data, index);
    let x1 = read_bit(data, index + 1);
    let x2 = read_bit(data, index + 2);
    let value = (x0 << 2) | (x1 << 1) | x2;
    assert(value == 4 * x0 + 2 * x1 + x2) by (bit_vector)
        requires
            value == (x0 << 2) | (x1 << 1) | x2,
            x0 <= 1,
            x1 <= 1,
            x2 <= 1,
    ;
    value
}

} // verus!
