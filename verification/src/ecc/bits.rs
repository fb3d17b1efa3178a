use vstd::prelude::*;

verus! {

/// Bit `k` of a byte stream. Bits are numbered from the low-order bit of the
/// first byte upward, so bit `k` lives in byte `k / 8` at position `k % 8`.
pub open spec fn bit_at(s: Seq<u8>, k: int) -> bool {
    (s[k / 8] >> ((k % 8) as u8)) & 1 == 1
}

/// The byte whose bit `j` (low-order first) is `bj`.
pub open spec fn pack_bits(
    b0: bool,
    b1: bool,
    b2: bool,
    b3: bool,
    b4: bool,
    b5: bool,
    b6: bool,
    b7: bool,
) -> u8 {
    (if b0 { 0x01u8 } else { 0u8 }) | (if b1 { 0x02u8 } else { 0u8 })
        | (if b2 { 0x04u8 } else { 0u8 }) | (if b3 { 0x08u8 } else { 0u8 })
        | (if b4 { 0x10u8 } else { 0u8 }) | (if b5 { 0x20u8 } else { 0u8 })
        | (if b6 { 0x40u8 } else { 0u8 }) | (if b7 { 0x80u8 } else { 0u8 })
}

/// The byte stream of `len` bytes whose bit `k` is `bits(k)`.
pub open spec fn bytes_of_bits(len: nat, bits: spec_fn(int) -> bool) -> Seq<u8> {
    Seq::new(
        len,
        |i: int|
            pack_bits(
                bits(8 * i),
                bits(8 * i + 1),
                bits(8 * i + 2),
                bits(8 * i + 3),
                bits(8 * i + 4),
                bits(8 * i + 5),
                bits(8 * i + 6),
                bits(8 * i + 7),
            ),
    )
}

/// Bit `j` of a packed byte is the `j`-th argument.
pub proof fn lemma_pack_bits_bit(
    b0: bool,
    b1: bool,
    b2: bool,
    b3: bool,
    b4: bool,
    b5: bool,
    b6: bool,
    b7: bool,
)
    ensures
        ((pack_bits(b0, b1, b2, b3, b4, b5, b6, b7) >> 0u8) & 1 == 1) == b0,
        ((pack_bits(b0, b1, b2, b3, b4, b5, b6, b7) >> 1u8) & 1 == 1) == b1,
        ((pack_bits(b0, b1, b2, b3, b4, b5, b6, b7) >> 2u8) & 1 == 1) == b2,
        ((pack_bits(b0, b1, b2, b3, b4, b5, b6, b7) >> 3u8) & 1 == 1) == b3,
        ((pack_bits(b0, b1, b2, b3, b4, b5, b6, b7) >> 4u8) & 1 == 1) == b4,
        ((pack_bits(b0, b1, b2, b3, b4, b5, b6, b7) >> 5u8) & 1 == 1) == b5,
        ((pack_bits(b0, b1, b2, b3, b4, b5, b6, b7) >> 6u8) & 1 == 1) == b6,
        ((pack_bits(b0, b1, b2, b3, b4, b5, b6, b7) >> 7u8) & 1 == 1) == b7,
{
    let x0 = if b0 { 0x01u8 } else { 0u8 };
    let x1 = if b1 { 0x02u8 } else { 0u8 };
    let x2 = if b2 { 0x04u8 } else { 0u8 };
    let x3 = if b3 { 0x08u8 } else { 0u8 };
    let x4 = if b4 { 0x10u8 } else { 0u8 };
    let x5 = if b5 { 0x20u8 } else { 0u8 };
    let x6 = if b6 { 0x40u8 } else { 0u8 };
    let x7 = if b7 { 0x80u8 } else { 0u8 };
    let p = x0 | x1 | x2 | x3 | x4 | x5 | x6 | x7;
    assert(((p >> 0u8) & 1 == 1) == (x0 == 0x01u8) && ((p >> 1u8) & 1 == 1) == (x1 == 0x02u8)
        && ((p >> 2u8) & 1 == 1) == (x2 == 0x04u8) && ((p >> 3u8) & 1 == 1) == (x3 == 0x08u8)
        && ((p >> 4u8) & 1 == 1) == (x4 == 0x10u8) && ((p >> 5u8) & 1 == 1) == (x5 == 0x20u8)
        && ((p >> 6u8) & 1 == 1) == (x6 == 0x40u8) && ((p >> 7u8) & 1 == 1) == (x7 == 0x80u8))
        by (bit_vector)
        requires
            p == x0 | x1 | x2 | x3 | x4 | x5 | x6 | x7,
            x0 == 0x01u8 || x0 == 0u8,
            x1 == 0x02u8 || x1 == 0u8,
            x2 == 0x04u8 || x2 == 0u8,
            x3 == 0x08u8 || x3 == 0u8,
            x4 == 0x10u8 || x4 == 0u8,
            x5 == 0x20u8 || x5 == 0u8,
            x6 == 0x40u8 || x6 == 0u8,
            x7 == 0x80u8 || x7 == 0u8,
    ;
}

/// A byte is the packing of its own eight bits.
pub proof fn lemma_pack_bits_of_byte(x: u8)
    ensures
        pack_bits(
            (x >> 0u8) & 1 == 1,
            (x >> 1u8) & 1 == 1,
            (x >> 2u8) & 1 == 1,
            (x >> 3u8) & 1 == 1,
            (x >> 4u8) & 1 == 1,
            (x >> 5u8) & 1 == 1,
            (x >> 6u8) & 1 == 1,
            (x >> 7u8) & 1 == 1,
        ) == x,
{
    let x0 = if (x >> 0u8) & 1 == 1 { 0x01u8 } else { 0u8 };
    let x1 = if (x >> 1u8) & 1 == 1 { 0x02u8 } else { 0u8 };
    let x2 = if (x >> 2u8) & 1 == 1 { 0x04u8 } else { 0u8 };
    let x3 = if (x >> 3u8) & 1 == 1 { 0x08u8 } else { 0u8 };
    let x4 = if (x >> 4u8) & 1 == 1 { 0x10u8 } else { 0u8 };
    let x5 = if (x >> 5u8) & 1 == 1 { 0x20u8 } else { 0u8 };
    let x6 = if (x >> 6u8) & 1 == 1 { 0x40u8 } else { 0u8 };
    let x7 = if (x >> 7u8) & 1 == 1 { 0x80u8 } else { 0u8 };
    assert(x0 == x & 0x01 && x1 == x & 0x02 && x2 == x & 0x04 && x3 == x & 0x08 && x4 == x & 0x10
        && x5 == x & 0x20 && x6 == x & 0x40 && x7 == x & 0x80) by (bit_vector)
        requires
            x0 == if (x >> 0u8) & 1 == 1 { 0x01u8 } else { 0u8 },
            x1 == if (x >> 1u8) & 1 == 1 { 0x02u8 } else { 0u8 },
            x2 == if (x >> 2u8) & 1 == 1 { 0x04u8 } else { 0u8 },
            x3 == if (x >> 3u8) & 1 == 1 { 0x08u8 } else { 0u8 },
            x4 == if (x >> 4u8) & 1 == 1 { 0x10u8 } else { 0u8 },
            x5 == if (x >> 5u8) & 1 == 1 { 0x20u8 } else { 0u8 },
            x6 == if (x >> 6u8) & 1 == 1 { 0x40u8 } else { 0u8 },
            x7 == if (x >> 7u8) & 1 == 1 { 0x80u8 } else { 0u8 },
    ;
    assert((x & 0x01) | (x & 0x02) | (x & 0x04) | (x & 0x08) | (x & 0x10) | (x & 0x20) | (x & 0x40)
        | (x & 0x80) == x) by (bit_vector);
}

/// Reading bit `k` back from a stream built by `bytes_of_bits` gives `bits(k)`.
pub proof fn lemma_bit_at_bytes_of_bits(len: nat, bits: spec_fn(int) -> bool, k: int)
    requires
        0 <= k < 8 * len,
    ensures
        bit_at(bytes_of_bits(len, bits), k) == bits(k),
{
    let i = k / 8;
    let j = k % 8;
    lemma_pack_bits_bit(
        bits(8 * i),
        bits(8 * i + 1),
        bits(8 * i + 2),
        bits(8 * i + 3),
        bits(8 * i + 4),
        bits(8 * i + 5),
        bits(8 * i + 6),
        bits(8 * i + 7),
    );
    assert(k == 8 * i + j);
}

/// A stream is determined by its bits: if bit `k` of `s` is `bits(k)` for
/// every position, then `s` is the stream built from `bits`.
pub proof fn lemma_bytes_of_bits_unique(s: Seq<u8>, bits: spec_fn(int) -> bool)
    requires
        forall|k: int| 0 <= k < 8 * s.len() ==> bit_at(s, k) == bits(k),
    ensures
        s == bytes_of_bits(s.len(), bits),
{
    let t = bytes_of_bits(s.len(), bits);
    assert forall|i: int| 0 <= i < s.len() implies s[i] == t[i] by {
        lemma_pack_bits_of_byte(s[i]);
        assert(bit_at(s, 8 * i) == bits(8 * i));
        assert(bit_at(s, 8 * i + 1) == bits(8 * i + 1));
        assert(bit_at(s, 8 * i + 2) == bits(8 * i + 2));
        assert(bit_at(s, 8 * i + 3) == bits(8 * i + 3));
        assert(bit_at(s, 8 * i + 4) == bits(8 * i + 4));
        assert(bit_at(s, 8 * i + 5) == bits(8 * i + 5));
        assert(bit_at(s, 8 * i + 6) == bits(8 * i + 6));
        assert(bit_at(s, 8 * i + 7) == bits(8 * i + 7));
    }
    assert(s =~= t);
}

/// Reads bit `index` of `data` as 0 or 1.
pub fn read_bit<const N: usize>(data: &[u8; N], index: u32) -> (bit: u8)
    requires
        index < 8 * N,
    ensures
        bit == (if bit_at(data@, index as int) { 1u8 } else { 0u8 }),
{
    let byte = data[(index / 8) as usize];
    let shift = (index % 8) as u8;
    let bit = (byte >> shift) & 1;
    assert(bit == 0 || bit == 1) by (bit_vector)
        requires
            bit == (byte >> shift) & 1,
    ;
    bit
}

/// OR-ing a 0/1 value into position `s` of a byte sets that bit when the
/// value is 1 and leaves every other bit as it was.
pub proof fn lemma_or_bit(x: u8, v: u8, s: u8, j: u8)
    by (bit_vector)
    requires
        v <= 1,
        s < 8,
        j < 8,
    ensures
        ((x | (v << s)) >> j) & 1 == 1 <==> ((x >> j) & 1 == 1 || (j == s && v == 1)),
{
}

/// ORs `bit` (0 or 1) into position `index` of `data`.
pub fn or_bit<const N: usize>(data: &mut [u8; N], index: u32, bit: u8)
    requires
        index < 8 * N,
        bit <= 1,
    ensures
        forall|k: int|
            0 <= k < 8 * N ==> bit_at(final(data)@, k) == (bit_at(old(data)@, k) || (k == index
                && bit == 1)),
{
    let at = (index / 8) as usize;
    let shift = (index % 8) as u8;
    let before = data[at];
    data[at] = before | (bit << shift);
    proof {
        assert forall|k: int| 0 <= k < 8 * N implies bit_at(data@, k) == (bit_at(old(data)@, k)
            || (k == index && bit == 1)) by {
            if k / 8 == at as int {
                lemma_or_bit(before, bit, shift, (k % 8) as u8);
            }
        }
    }
}

} // verus!
