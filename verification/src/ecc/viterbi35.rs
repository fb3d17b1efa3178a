use crate::ecc::bits::{bit_at, bytes_of_bits, lemma_bytes_of_bits_unique, or_bit, read_bit};
use crate::ecc::trellis::{
    lemma_successors_differ,
    next_symbol,
    read_symbol,
    successor,
    symbol_at,
};
use vstd::prelude::*;

verus! {

/// Bit `k` of the padded source: one zero byte, then the source bytes, then
/// zeros without end.
pub open spec fn padded_bit(source: Seq<u8>, k: int) -> bool {
    8 <= k < 8 + 8 * source.len() && bit_at(source, k - 8)
}

/// The number of three-bit windows in a padded source of `padded_len` bytes.
pub open spec fn window_count(padded_len: nat) -> int {
    8 * padded_len - 3
}

/// Bit `k` of the encoded stream. Codeword `j` occupies bits `3j`, `3j + 1`
/// and `3j + 2` and is computed from the padded source bits `j`, `j + 1` and
/// `j + 2`; after the last codeword the stream is zero.
pub open spec fn encoded_bit(source: Seq<u8>, padded_len: nat, k: int) -> bool {
    let j = k / 3;
    let b0 = padded_bit(source, j);
    let b1 = padded_bit(source, j + 1);
    let b2 = padded_bit(source, j + 2);
    0 <= k < 3 * window_count(padded_len) && (if k % 3 == 0 {
        b0 ^ b1 ^ b2
    } else if k % 3 == 1 {
        b0 ^ b1
    } else {
        b1 ^ b2
    })
}

/// The encoded stream of `out_len` bytes for `source`, padded to
/// `padded_len` bytes before encoding.
pub open spec fn encode_spec(source: Seq<u8>, padded_len: nat, out_len: nat) -> Seq<u8> {
    bytes_of_bits(out_len, |k: int| encoded_bit(source, padded_len, k))
}

/// Encodes `source` at rate 1/3.
///
/// The source is copied behind one zero byte into a buffer of
/// `NUM_BYTES_WITH_PADDING` bytes. A window of three bits then slides over
/// that buffer one bit at a time, and each window `(b0, b1, b2)` adds the
/// codeword `(b0 ^ b1 ^ b2, b0 ^ b1, b1 ^ b2)` to the output, low-order bit
/// of each byte first.
pub fn viterbi_encode<
    const NUM_BYTES: usize,
    const NUM_BYTES_WITH_PADDING: usize,
    const RETURNED_BYTES: usize,
>(source: [u8; NUM_BYTES]) -> (encoded: [u8; RETURNED_BYTES])
    requires
        NUM_BYTES < NUM_BYTES_WITH_PADDING,
        3 * window_count(NUM_BYTES_WITH_PADDING as nat) <= 8 * RETURNED_BYTES,
        3 * window_count(NUM_BYTES_WITH_PADDING as nat) <= u32::MAX,
    ensures
        encoded@ == encode_spec(
            source@,
            NUM_BYTES_WITH_PADDING as nat,
            RETURNED_BYTES as nat,
        ),
{
    let mut final_array = [0u8;RETURNED_BYTES];
    let mut data = [0u8;NUM_BYTES_WITH_PADDING];
    let mut i: usize = 0;
    while i < NUM_BYTES
        invariant
            i <= NUM_BYTES < NUM_BYTES_WITH_PADDING,
            data[0] == 0,
            forall|t: int| 0 <= t < i ==> data[t + 1] == source[t],
            forall|t: int| i < t < NUM_BYTES_WITH_PADDING ==> data[t] == 0,
        decreases NUM_BYTES - i,
    {
        data[i + 1] = source[i];
        i += 1;
    }
    proof {
        assert forall|k: int| 0 <= k < 8 * NUM_BYTES_WITH_PADDING implies bit_at(data@, k)
            == padded_bit(source@, k) by {
            let t = k / 8;
            if t == 0 || t > NUM_BYTES {
                assert(data[t] == 0);
                let s = (k % 8) as u8;
                assert((0u8 >> s) & 1 != 1) by (bit_vector);
            } else {
                assert(data[(t - 1) + 1] == source[t - 1]);
                assert((k - 8) / 8 == t - 1);
                assert((k - 8) % 8 == k % 8);
            }
        }
        assert forall|k: int| 0 <= k < 8 * RETURNED_BYTES implies !bit_at(final_array@, k) by {
            let s = (k % 8) as u8;
            assert(final_array[k / 8] == 0);
            assert((0u8 >> s) & 1 != 1) by (bit_vector);
        }
    }
    let windows: u32 = (NUM_BYTES_WITH_PADDING as u32 * 8) - 3;
    let mut index: u32 = 0;
    let mut outdex: u32 = 0;
    while index < windows
        invariant
            index <= windows == window_count(NUM_BYTES_WITH_PADDING as nat),
            outdex == 3 * index,
            3 * windows <= 8 * RETURNED_BYTES,
            3 * windows <= u32::MAX,
            forall|k: int|
                0 <= k < 8 * NUM_BYTES_WITH_PADDING ==> bit_at(data@, k) == padded_bit(
                    source@,
                    k,
                ),
            forall|k: int|
                0 <= k < 8 * RETURNED_BYTES ==> bit_at(final_array@, k) == (k < outdex
                    && encoded_bit(source@, NUM_BYTES_WITH_PADDING as nat, k)),
        decreases windows - index,
    {
        let b0 = read_bit(&data, index);
        let b1 = read_bit(&data, index + 1);
        let b2 = read_bit(&data, index + 2);
        assert(b0 ^ b1 ^ b2 <= 1 && b0 ^ b1 <= 1 && b1 ^ b2 <= 1 && (b0 ^ b1 ^ b2 == 1 <==> ((b0
            == 1) ^ (b1 == 1) ^ (b2 == 1))) && (b0 ^ b1 == 1 <==> ((b0 == 1) ^ (b1 == 1))) && (b1
            ^ b2 == 1 <==> ((b1 == 1) ^ (b2 == 1)))) by (bit_vector)
            requires
                b0 <= 1,
                b1 <= 1,
                b2 <= 1,
        ;
        index += 1;
        or_bit(&mut final_array, outdex, b0 ^ b1 ^ b2);
        outdex += 1;
        or_bit(&mut final_array, outdex, b0 ^ b1);
        outdex += 1;
        or_bit(&mut final_array, outdex, b1 ^ b2);
        outdex += 1;
    }
    proof {
        lemma_bytes_of_bits_unique(
            final_array@,
            |k: int| encoded_bit(source@, NUM_BYTES_WITH_PADDING as nat, k),
        );
    }
    final_array
}

/// The bit position at which the decoder stops reading a stream of `len`
/// bytes.
pub open spec fn read_limit(len: nat) -> int {
    8 * len - 30
}

/// The number of codewords the decoder reads: it starts at bit 18 and
/// advances three bits at a time while it is below `limit`.
pub open spec fn step_count(limit: int) -> nat {
    if limit > 18 {
        ((limit - 18 + 2) / 3) as nat
    } else {
        0
    }
}

/// The number of mismatches that the continuation `pattern` scores from
/// lookahead depth `depth` on, when the symbol before that depth is
/// `previous`. The lowest bit of `pattern` is the source bit assumed at
/// this depth. At most five codewords are compared, and the walk ends
/// early once `index + depth` reaches `limit`.
pub open spec fn lookahead_errors(
    data: Seq<u8>,
    index: int,
    limit: int,
    previous: u8,
    pattern: nat,
    depth: nat,
) -> nat
    decreases 5 - depth,
{
    if depth < 5 && index + depth < limit {
        let expected = successor(previous, pattern % 2 == 1);
        let here: nat = if expected != symbol_at(data, index + 3 * depth) {
            1
        } else {
            0
        };
        here + lookahead_errors(data, index, limit, expected, pattern / 2, depth + 1)
    } else {
        0
    }
}

/// The number of mismatches of the whole continuation `pattern`.
pub open spec fn pattern_errors(
    data: Seq<u8>,
    index: int,
    limit: int,
    previous: u8,
    pattern: nat,
) -> nat {
    lookahead_errors(data, index, limit, previous, pattern, 0)
}

/// The best continuation among the patterns below `count`: the one with the
/// fewest mismatches, and of several such the smallest.
pub open spec fn best_pattern(
    data: Seq<u8>,
    index: int,
    limit: int,
    previous: u8,
    count: nat,
) -> nat
    decreases count,
{
    if count <= 1 {
        0
    } else {
        let best = best_pattern(data, index, limit, previous, (count - 1) as nat);
        if pattern_errors(data, index, limit, previous, (count - 1) as nat) < pattern_errors(
            data,
            index,
            limit,
            previous,
            best,
        ) {
            (count - 1) as nat
        } else {
            best
        }
    }
}

/// One decoding step at bit position `index` with trellis state `previous`:
/// the decoded bit and the next trellis state.
///
/// A received symbol that is a successor of `previous` decides the bit and
/// becomes the next state. Any other symbol is a detected corruption: the
/// bit is the lowest bit of the best of the 32 five-bit continuations, and
/// the next state is the successor, for that bit, of the symbol that stands
/// in the stream just before `index`.
pub open spec fn decode_step(data: Seq<u8>, index: int, limit: int, previous: u8) -> (bool, u8) {
    let received = symbol_at(data, index);
    if successor(previous, true) == received {
        (true, received)
    } else if successor(previous, false) == received {
        (false, received)
    } else {
        let bit = best_pattern(data, index, limit, previous, 32) % 2 == 1;
        (bit, successor(symbol_at(data, index - 3), bit))
    }
}

/// The trellis state before step `k`. Decoding starts in state 0.
pub open spec fn trellis_state(data: Seq<u8>, limit: int, k: nat) -> u8
    decreases k,
{
    if k == 0 {
        0
    } else {
        decode_step(
            data,
            18 + 3 * (k - 1),
            limit,
            trellis_state(data, limit, (k - 1) as nat),
        ).1
    }
}

/// The bit that step `k` decodes.
pub open spec fn decoded_bit(data: Seq<u8>, limit: int, k: nat) -> bool {
    decode_step(data, 18 + 3 * (k as int), limit, trellis_state(data, limit, k)).0
}

/// The decoded stream of `out_len` bytes for the encoded stream `data`: bit
/// `k` is the bit decoded at step `k`, and bits past the last step are zero.
pub open spec fn decode_spec(data: Seq<u8>, out_len: nat) -> Seq<u8> {
    let limit = read_limit(data.len());
    bytes_of_bits(out_len, |k: int| 0 <= k < step_count(limit) && decoded_bit(data, limit, k as nat))
}

/// Step `k` decodes its bit from the state before it and leaves the state
/// before step `k + 1`.
pub proof fn lemma_decode_advances(data: Seq<u8>, limit: int, k: nat)
    ensures
        decoded_bit(data, limit, k) == decode_step(
            data,
            18 + 3 * (k as int),
            limit,
            trellis_state(data, limit, k),
        ).0,
        trellis_state(data, limit, k + 1) == decode_step(
            data,
            18 + 3 * (k as int),
            limit,
            trellis_state(data, limit, k),
        ).1,
{
}

/// Trellis symbols and states stay below 8.
pub proof fn lemma_trellis_state_bound(data: Seq<u8>, limit: int, k: nat)
    ensures
        trellis_state(data, limit, k) < 8,
    decreases k,
{
    if k > 0 {
        let previous = trellis_state(data, limit, (k - 1) as nat);
        lemma_trellis_state_bound(data, limit, (k - 1) as nat);
        lemma_successors_differ(previous);
        lemma_successors_differ(symbol_at(data, 18 + 3 * (k - 1) - 3));
    }
}

/// A continuation scores at most one mismatch per lookahead depth.
pub proof fn lemma_lookahead_errors_bound(
    data: Seq<u8>,
    index: int,
    limit: int,
    previous: u8,
    pattern: nat,
    depth: nat,
)
    requires
        depth <= 5,
    ensures
        lookahead_errors(data, index, limit, previous, pattern, depth) <= 5 - depth,
    decreases 5 - depth,
{
    if depth < 5 && index + depth < limit {
        lemma_lookahead_errors_bound(
            data,
            index,
            limit,
            successor(previous, pattern % 2 == 1),
            pattern / 2,
            depth + 1,
        );
    }
}

/// The best continuation is one of those searched, none of them scores
/// fewer mismatches, and every smaller pattern scores more.
pub proof fn lemma_best_pattern_is_first_minimum(
    data: Seq<u8>,
    index: int,
    limit: int,
    previous: u8,
    count: nat,
)
    requires
        count >= 1,
    ensures
        best_pattern(data, index, limit, previous, count) < count,
        forall|p: nat|
            p < count ==> pattern_errors(
                data,
                index,
                limit,
                previous,
                best_pattern(data, index, limit, previous, count),
            ) <= #[trigger] pattern_errors(data, index, limit, previous, p),
        forall|p: nat|
            p < best_pattern(data, index, limit, previous, count) ==> pattern_errors(
                data,
                index,
                limit,
                previous,
                best_pattern(data, index, limit, previous, count),
            ) < #[trigger] pattern_errors(data, index, limit, previous, p),
    decreases count,
{
    if count > 1 {
        lemma_best_pattern_is_first_minimum(data, index, limit, previous, (count - 1) as nat);
    }
}

/// Counts the mismatches of the continuation `pattern` from position
/// `index` on.
fn count_errors<const N: usize>(
    data: &[u8; N],
    index: u32,
    limit: u32,
    previous: u8,
    pattern: usize,
) -> (errors: u8)
    requires
        previous < 8,
        index < limit == read_limit(N as nat),
        8 * N <= u32::MAX,
    ensures
        errors == pattern_errors(data@, index as int, limit as int, previous, pattern as nat),
        errors <= 5,
{
    let mut errors: u8 = 0;
    let mut last_value = previous;
    let mut truncated_entry_no = pattern;
    let mut index_offset: u32 = 0;
    while (index_offset < 5) && index + index_offset < limit
        invariant
            index_offset <= 5,
            last_value < 8,
            index < limit == read_limit(N as nat),
            8 * N <= u32::MAX,
            errors <= index_offset,
            errors + lookahead_errors(
                data@,
                index as int,
                limit as int,
                last_value,
                truncated_entry_no as nat,
                index_offset as nat,
            ) == pattern_errors(data@, index as int, limit as int, previous, pattern as nat),
        decreases 5 - index_offset,
    {
        let scanning_index = index + index_offset * 3;
        let true_value = read_symbol(data, scanning_index);
        let current_bit = (truncated_entry_no % 2) as u8;
        let expected_value = next_symbol(last_value, current_bit);
        if expected_value != true_value {
            errors += 1;
        }
        last_value = expected_value;
        index_offset += 1;
        let ghost whole = truncated_entry_no;
        truncated_entry_no = truncated_entry_no >> 1;
        assert(truncated_entry_no == whole / 2) by (bit_vector)
            requires
                truncated_entry_no == whole >> 1,
        ;
    }
    errors
}

/// Tries the 32 five-bit continuations in ascending order and returns the
/// first one with the fewest mismatches.
fn search_pattern<const N: usize>(data: &[u8; N], index: u32, limit: u32, previous: u8) -> (best:
    u8)
    requires
        previous < 8,
        index < limit == read_limit(N as nat),
        8 * N <= u32::MAX,
    ensures
        best == best_pattern(data@, index as int, limit as int, previous, 32),
        best < 32,
{
    let mut record_lowest: u8 = 8;
    let mut record_lowest_entry: u8 = 0;
    let mut entry: usize = 0;
    while entry < 32
        invariant
            entry <= 32,
            previous < 8,
            index < limit == read_limit(N as nat),
            8 * N <= u32::MAX,
            record_lowest_entry < 32,
            record_lowest_entry == best_pattern(
                data@,
                index as int,
                limit as int,
                previous,
                entry as nat,
            ),
            entry == 0 ==> record_lowest == 8,
            entry > 0 ==> record_lowest == pattern_errors(
                data@,
                index as int,
                limit as int,
                previous,
                record_lowest_entry as nat,
            ),
        decreases 32 - entry,
    {
        let result = count_errors(data, index, limit, previous, entry);
        if result < record_lowest {
            record_lowest = result;
            record_lowest_entry = entry as u8;
        }
        entry += 1;
    }
    record_lowest_entry
}

/// Decodes the codeword at bit position `index` in trellis state
/// `last_value`: the decoded bit and the next state.
fn decode_codeword<const N: usize>(data: &[u8; N], index: u32, limit: u32, last_value: u8) -> (step:
    (bool, u8))
    requires
        last_value < 8,
        18 <= index < limit == read_limit(N as nat),
        8 * N <= u32::MAX,
    ensures
        step == decode_step(data@, index as int, limit as int, last_value),
        step.1 < 8,
{
    let true_value = read_symbol(data, index);
    let zero = next_symbol(last_value, 0) == true_value;
    let one = next_symbol(last_value, 1) == true_value;
    if !(zero || one) {
        let decided_bit = search_pattern(data, index, limit, last_value) % 2;
        let previous_value = read_symbol(data, index - 3);
        (decided_bit != 0, next_symbol(previous_value, decided_bit))
    } else {
        (one, true_value % 8)
    }
}

/// Decodes a rate-1/3 stream, concealing corrupted codewords.
///
/// Reading starts at bit 18 in trellis state 0 and takes one codeword of
/// three bits per step while the position is below `8 * NUM_BYTES - 30`.
/// Each step adds one bit to the output, low-order bit of each byte first.
/// A codeword that cannot follow the current state is resolved by a vote
/// over the next five codewords; no failure is ever reported.
pub fn viterbi_decode<const NUM_BYTES: usize, const RETURNED_BYTES: usize>(
    data: [u8; NUM_BYTES],
) -> (decoded: [u8; RETURNED_BYTES])
    requires
        30 <= 8 * NUM_BYTES <= u32::MAX,
        step_count(read_limit(NUM_BYTES as nat)) <= 8 * RETURNED_BYTES,
    ensures
        decoded@ == decode_spec(data@, RETURNED_BYTES as nat),
{
    let mut final_array = [0u8;RETURNED_BYTES];
    proof {
        assert forall|k: int| 0 <= k < 8 * RETURNED_BYTES implies !bit_at(final_array@, k) by {
            let s = (k % 8) as u8;
            assert(final_array[k / 8] == 0);
            assert((0u8 >> s) & 1 != 1) by (bit_vector);
        }
    }
    let limit: u32 = (NUM_BYTES * 8 - 30) as u32;
    let ghost bits = |k: int|
        0 <= k < step_count(limit as int) && decoded_bit(data@, limit as int, k as nat);
    let mut last_value: u8 = 0;
    let mut index: u32 = 18;
    let mut outdex: u32 = 0;
    while index < limit
        invariant
            limit == read_limit(NUM_BYTES as nat),
            30 <= 8 * NUM_BYTES <= u32::MAX,
            step_count(limit as int) <= 8 * RETURNED_BYTES,
            index == 18 + 3 * outdex,
            outdex <= step_count(limit as int),
            index >= limit ==> outdex == step_count(limit as int),
            last_value < 8,
            last_value == trellis_state(data@, limit as int, outdex as nat),
            bits == |k: int|
                0 <= k < step_count(limit as int) && decoded_bit(data@, limit as int, k as nat),
            forall|k: int|
                0 <= k < 8 * RETURNED_BYTES ==> bit_at(final_array@, k) == (k < outdex && bits(k)),
        decreases step_count(limit as int) - outdex,
    {
        assert(outdex < step_count(limit as int)) by {
            assert(limit - 18 + 2 >= 3 * (outdex + 1));
        }
        assert(index + 3 >= limit ==> outdex + 1 == step_count(limit as int)) by {
            if index + 3 >= limit {
                assert(limit - 18 + 2 < 3 * (outdex + 2));
            }
        }
        let step = decode_codeword(&data, index, limit, last_value);
        proof {
            lemma_decode_advances(data@, limit as int, outdex as nat);
        }
        last_value = step.1;
        let ghost before = final_array@;
        or_bit(&mut final_array, outdex, if step.0 { 1 } else { 0 });
        assert forall|k: int| 0 <= k < 8 * RETURNED_BYTES implies bit_at(final_array@, k) == (k
            < outdex + 1 && bits(k)) by {
            assert(bit_at(before, k) == (k < outdex && bits(k)));
        }
        outdex += 1;
        index += 3;
    }
    proof {
        assert(outdex == step_count(limit as int));
        assert forall|k: int| 0 <= k < 8 * RETURNED_BYTES implies bit_at(final_array@, k) == bits(
            k,
        ) by {}
        lemma_bytes_of_bits_unique(final_array@, bits);
    }
    final_array
}

} // verus!
