use crate::ecc::bits::{bit_at, lemma_bit_at_bytes_of_bits, lemma_bytes_of_bits_unique};
use crate::ecc::trellis::{
    lemma_successor_slides_window,
    lemma_successors_differ,
    symbol_at,
    window_symbol,
};
use crate::ecc::viterbi35::{
    decode_spec,
    decode_step,
    decoded_bit,
    encode_spec,
    encoded_bit,
    lemma_decode_advances,
    padded_bit,
    read_limit,
    step_count,
    trellis_state,
    window_count,
};
use vstd::prelude::*;

verus! {

/// The padded length with which a source of `len` bytes round-trips: one
/// zero byte in front and one behind.
pub open spec fn padded_len(len: nat) -> nat {
    len + 2
}

/// The encoded length with which a source of `len` bytes round-trips: three
/// bytes for each byte of the padded source.
pub open spec fn encoded_len(len: nat) -> nat {
    3 * len + 6
}

/// The symbol of the source window that starts at padded bit `j`.
pub open spec fn source_symbol(source: Seq<u8>, j: int) -> u8 {
    window_symbol(padded_bit(source, j), padded_bit(source, j + 1), padded_bit(source, j + 2))
}

/// Codeword `j` of an encoding is the symbol of source window `j`.
pub proof fn lemma_encoded_symbol(source: Seq<u8>, padded: nat, out_len: nat, j: int)
    requires
        0 <= j < window_count(padded),
        3 * window_count(padded) <= 8 * out_len,
    ensures
        symbol_at(encode_spec(source, padded, out_len), 3 * j) == source_symbol(source, j),
{
    let bits = |k: int| encoded_bit(source, padded, k);
    lemma_bit_at_bytes_of_bits(out_len, bits, 3 * j);
    lemma_bit_at_bytes_of_bits(out_len, bits, 3 * j + 1);
    lemma_bit_at_bytes_of_bits(out_len, bits, 3 * j + 2);
    assert((3 * j) / 3 == j && (3 * j) % 3 == 0);
    assert((3 * j + 1) / 3 == j && (3 * j + 1) % 3 == 1);
    assert((3 * j + 2) / 3 == j && (3 * j + 2) % 3 == 2);
}

/// A step that starts in the encoder's state and reads a codeword of the
/// encoding takes the valid path: step `k` reads codeword `k + 6`, decodes
/// the newest bit of that window, and moves to the symbol of that window.
pub proof fn lemma_decoder_step(source: Seq<u8>, padded: nat, out_len: nat, k: int)
    requires
        0 <= k,
        k + 6 < window_count(padded),
        3 * window_count(padded) <= 8 * out_len,
    ensures
        decode_step(
            encode_spec(source, padded, out_len),
            18 + 3 * k,
            read_limit(out_len),
            source_symbol(source, k + 5),
        ) == (padded_bit(source, k + 8), source_symbol(source, k + 6)),
{
    lemma_encoded_symbol(source, padded, out_len, k + 6);
    assert(18 + 3 * k == 3 * (k + 6));
    lemma_successor_slides_window(
        padded_bit(source, k + 5),
        padded_bit(source, k + 6),
        padded_bit(source, k + 7),
        padded_bit(source, k + 8),
    );
    lemma_successors_differ(source_symbol(source, k + 5));
}

/// On an uncorrupted encoding the decoder follows the encoder for as long as
/// it reads codewords of the encoding: before step `k` its state is the
/// symbol of codeword `k + 5`, and step `k` decodes bit `k + 8` of the
/// padded source, which is bit `k` of the source itself.
pub proof fn lemma_decoder_follows_encoder(source: Seq<u8>, padded: nat, out_len: nat, k: int)
    requires
        0 <= k,
        k + 6 <= window_count(padded),
        3 * window_count(padded) <= 8 * out_len,
    ensures
        trellis_state(encode_spec(source, padded, out_len), read_limit(out_len), k as nat)
            == source_symbol(source, k + 5),
        k + 6 < window_count(padded) ==> decoded_bit(
            encode_spec(source, padded, out_len),
            read_limit(out_len),
            k as nat,
        ) == padded_bit(source, k + 8),
    decreases k,
{
    let stream = encode_spec(source, padded, out_len);
    let limit = read_limit(out_len);
    if k > 0 {
        lemma_decoder_follows_encoder(source, padded, out_len, k - 1);
        lemma_decoder_step(source, padded, out_len, k - 1);
        lemma_decode_advances(stream, limit, (k - 1) as nat);
    }
    if k + 6 < window_count(padded) {
        lemma_decoder_step(source, padded, out_len, k);
        lemma_decode_advances(stream, limit, k as nat);
    }
}

/// Decoding an uncorrupted encoding gives back the source, for every source:
/// with one zero byte of padding on either side and three encoded bytes for
/// each padded byte, `decode(encode(source)) == source`.
pub proof fn lemma_decode_inverts_encode(source: Seq<u8>)
    ensures
        decode_spec(
            encode_spec(source, padded_len(source.len()), encoded_len(source.len())),
            source.len(),
        ) == source,
{
    let padded = padded_len(source.len());
    let out_len = encoded_len(source.len());
    let stream = encode_spec(source, padded, out_len);
    let limit = read_limit(stream.len());
    assert(step_count(limit) == 8 * source.len());
    let bits = |k: int| 0 <= k < step_count(limit) && decoded_bit(stream, limit, k as nat);
    assert forall|k: int| 0 <= k < 8 * source.len() implies bit_at(source, k) == bits(k) by {
        lemma_decoder_follows_encoder(source, padded, out_len, k);
    }
    lemma_bytes_of_bits_unique(source, bits);
}

} // verus!
