use crate::ecc::bits::{bit_at, lemma_bytes_of_bits_unique, or_bit};
use crate::ecc::trellis::{next_symbol, read_symbol};
use crate::ecc::viterbi35::{
    best_pattern,
    decode_spec,
    decode_step,
    decoded_bit,
    encode_spec,
    lemma_decode_advances,
    lemma_lookahead_errors_bound,
    lookahead_errors,
    pattern_errors,
    read_limit,
    step_count,
    trellis_state,
    window_count,
};
use vstd::prelude::*;

verus! {

/// Encodes `source` at rate 1/3, as `ecc::viterbi35` does.
pub fn viterbi_encode<
    const NUM_BYTES: usize,
    const NUM_BYTES_WITH_PADDING: usize,
    const RETURNED_BYTES: usize,
>(source: [u8; NUM_BYTES]) -> (encoded: [u8; RETURNED_BYTES])
    requires
        NUM_BYTES < NUM_BYTES_WITH_PADDING,
        3 * window_count(NUM_BYTES_WITH_PADDING as nat) <= 8 * RETURNED_BYTES,
        3 * window_count(NUM_BYTES_WITH_PADDING as nat) <= u32::MAX,
    ensures
        encoded@ == encode_spec(
            source@,
            NUM_BYTES_WITH_PADDING as nat,
            RETURNED_BYTES as nat,
        ),
{
    crate::ecc::viterbi35::viterbi_encode::<NUM_BYTES, NUM_BYTES_WITH_PADDING, RETURNED_BYTES>(
        source,
    )
}

/// Scores the 32 five-bit continuations in a table, one after the other,
/// and returns the first one with the fewest mismatches. The search starts
/// from a record of 6, which no continuation can reach: each scores at most
/// one mismatch for each of its five codewords.
fn search_scored<const N: usize>(data: &[u8; N], index: u32, limit: u32, previous: u8) -> (best:
    u8)
    requires
        previous < 8,
        index < limit == read_limit(N as nat),
        8 * N <= u32::MAX,
    ensures
        best == best_pattern(data@, index as int, limit as int, previous, 32),
        best < 32,
{
    let mut paths_array: [u8; 256] = [0u8;256];
    let mut record_lowest: u8 = 6;
    let mut record_lowest_entry: u8 = 0;
    let mut last_value = previous;
    let mut entry: usize = 0;
    while entry < 32
        invariant
            entry <= 32,
            previous < 8,
            last_value == previous,
            index < limit == read_limit(N as nat),
            8 * N <= u32::MAX,
            forall|e: int| entry <= e < 256 ==> paths_array[e] == 0,
            record_lowest_entry < 32,
            record_lowest_entry == best_pattern(
                data@,
                index as int,
                limit as int,
                previous,
                entry as nat,
            ),
            entry == 0 ==> record_lowest == 6,
            entry > 0 ==> record_lowest == pattern_errors(
                data@,
                index as int,
                limit as int,
                previous,
                record_lowest_entry as nat,
            ),
        decreases 32 - entry,
    {
        let mut truncated_entry_no = entry;
        let mut index_offset: u32 = 0;
        while (index_offset < 5) && index + index_offset < limit
            invariant
                entry < 32,
                index_offset <= 5,
                last_value < 8,
                index < limit == read_limit(N as nat),
                8 * N <= u32::MAX,
                paths_array[entry as int] <= index_offset,
                paths_array[entry as int] + lookahead_errors(
                    data@,
                    index as int,
                    limit as int,
                    last_value,
                    truncated_entry_no as nat,
                    index_offset as nat,
                ) == pattern_errors(data@, index as int, limit as int, previous, entry as nat),
                forall|e: int| entry < e < 256 ==> paths_array[e] == 0,
            decreases 5 - index_offset,
        {
            let scanning_index = index + index_offset * 3;
            let true_value = read_symbol(data, scanning_index);
            let current_bit = (truncated_entry_no % 2) as u8;
            let expected_value = next_symbol(last_value, current_bit);
            let is_error = expected_value != true_value;
            if is_error {
                paths_array[entry] = paths_array[entry] + 1;
            }
            last_value = expected_value;
            index_offset += 1;
            let ghost whole = truncated_entry_no;
            truncated_entry_no = truncated_entry_no >> 1;
            assert(truncated_entry_no == whole / 2) by (bit_vector)
                requires
                    truncated_entry_no == whole >> 1,
            ;
        }
        proof {
            lemma_lookahead_errors_bound(
                data@,
                index as int,
                limit as int,
                previous,
                entry as nat,
                0,
            );
        }
        let result = paths_array[entry];
        if result < record_lowest {
            record_lowest = result;
            record_lowest_entry = entry as u8;
        }
        last_value = previous;
        entry += 1;
    }
    record_lowest_entry
}

/// Decodes the codeword at bit position `index` in trellis state
/// `last_value`: the decoded bit and the next state.
fn decode_codeword<const N: usize>(data: &[u8; N], index: u32, limit: u32, last_value: u8) -> (step:
    (bool, u8))
    requires
        last_value < 8,
        18 <= index < limit == read_limit(N as nat),
        8 * N <= u32::MAX,
    ensures
        step == decode_step(data@, index as int, limit as int, last_value),
        step.1 < 8,
{
    let true_value = read_symbol(data, index);
    let zero = next_symbol(last_value, 0) == true_value;
    let mut one = next_symbol(last_value, 1) == true_value;
    let mut last_value = last_value;
    if !(zero || one) {
        let record_lowest_entry = search_scored(data, index, limit, last_value);
        let decided_bit = record_lowest_entry % 2;
        one = decided_bit != 0;
        let previous_value = read_symbol(data, index - 3);
        last_value = next_symbol(previous_value, decided_bit);
    } else {
        last_value = true_value % 8;
    }
    (one, last_value)
}

/// Decodes a rate-1/3 stream, concealing corrupted codewords, as
/// `ecc::viterbi35` does. Only the search for the best continuation is
/// organised differently.
pub fn viterbi_decode<const NUM_BYTES: usize, const RETURNED_BYTES: usize>(
    data: [u8; NUM_BYTES],
) -> (decoded: [u8; RETURNED_BYTES])
    requires
        30 <= 8 * NUM_BYTES <= u32::MAX,
        step_count(read_limit(NUM_BYTES as nat)) <= 8 * RETURNED_BYTES,
    ensures
        decoded@ == decode_spec(data@, RETURNED_BYTES as nat),
{
    let mut final_array = [0u8;RETURNED_BYTES];
    proof {
        assert forall|k: int| 0 <= k < 8 * RETURNED_BYTES implies !bit_at(final_array@, k) by {
            let s = (k % 8) as u8;
            assert(final_array[k / 8] == 0);
            assert((0u8 >> s) & 1 != 1) by (bit_vector);
        }
    }
    let limit: u32 = (NUM_BYTES * 8 - 30) as u32;
    let ghost bits = |k: int|
        0 <= k < step_count(limit as int) && decoded_bit(data@, limit as int, k as nat);
    let mut last_value: u8 = 0;
    let mut index: u32 = 18;
    let mut outdex: u32 = 0;
    while index < limit
        invariant
            limit == read_limit(NUM_BYTES as nat),
            30 <= 8 * NUM_BYTES <= u32::MAX,
            step_count(limit as int) <= 8 * RETURNED_BYTES,
            index == 18 + 3 * outdex,
            outdex <= step_count(limit as int),
            index >= limit ==> outdex == step_count(limit as int),
            last_value < 8,
            last_value == trellis_state(data@, limit as int, outdex as nat),
            bits == |k: int|
                0 <= k < step_count(limit as int) && decoded_bit(data@, limit as int, k as nat),
            forall|k: int|
                0 <= k < 8 * RETURNED_BYTES ==> bit_at(final_array@, k) == (k < outdex && bits(k)),
        decreases step_count(limit as int) - outdex,
    {
        assert(outdex < step_count(limit as int)) by {
            assert(limit - 18 + 2 >= 3 * (outdex + 1));
        }
        assert(index + 3 >= limit ==> outdex + 1 == step_count(limit as int)) by {
            if index + 3 >= limit {
                assert(limit - 18 + 2 < 3 * (outdex + 2));
            }
        }
        let step = decode_codeword(&data, index, limit, last_value);
        proof {
            lemma_decode_advances(data@, limit as int, outdex as nat);
        }
        last_value = step.1;
        let ghost before = final_array@;
        or_bit(&mut final_array, outdex, if step.0 { 1 } else { 0 });
        assert forall|k: int| 0 <= k < 8 * RETURNED_BYTES implies bit_at(final_array@, k) == (k
            < outdex + 1 && bits(k)) by {
            assert(bit_at(before, k) == (k < outdex && bits(k)));
        }
        outdex += 1;
        index += 3;
    }
    proof {
        assert(outdex == step_count(limit as int));
        assert forall|k: int| 0 <= k < 8 * RETURNED_BYTES implies bit_at(final_array@, k) == bits(
            k,
        ) by {}
        lemma_bytes_of_bits_unique(final_array@, bits);
    }
    final_array
}

} // verus!
