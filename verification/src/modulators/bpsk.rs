use vstd::prelude::*;

verus! {

/// Symbol `k` of a message: its bytes taken in order, each from its
/// high-order bit down.
pub open spec fn symbol_bit(bin: Seq<u8>, k: int) -> u128 {
    ((bin[k / 8] >> ((7 - k % 8) as u8)) & 1) as u128
}

/// Splits a message into its binary symbols, eight for each byte, high-order
/// bit first.
pub fn explode_bits(bin: &[u8]) -> (symbols: Vec<u128>)
    ensures
        symbols@.len() == 8 * bin@.len(),
        forall|k: int| 0 <= k < symbols@.len() ==> symbols@[k] == symbol_bit(bin@, k),
{
    let mut corrected: Vec<u128> = Vec::new();
    let mut i: usize = 0;
    while i < bin.len()
        invariant
            i <= bin@.len(),
            corrected@.len() == 8 * i,
            forall|k: int| 0 <= k < corrected@.len() ==> corrected@[k] == symbol_bit(bin@, k),
        decreases bin@.len() - i,
    {
        let x = bin[i];
        let mut y: u8 = 8;
        while y > 0
            invariant
                i < bin@.len(),
                x == bin@[i as int],
                y <= 8,
                corrected@.len() == 8 * i + (8 - y),
                forall|k: int| 0 <= k < corrected@.len() ==> corrected@[k] == symbol_bit(bin@, k),
            decreases y,
        {
            y -= 1;
            corrected.push(((x >> y) & 1) as u128);
        }
        i += 1;
    }
    corrected
}

} // verus!
