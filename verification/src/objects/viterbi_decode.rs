use crate::ecc::viterbi35::{decode_spec, read_limit, step_count, viterbi_decode};
use vstd::prelude::*;

verus! {

/// The size of the bucket that collects the encoded bytes for a block of
/// `num_bytes_base` decoded bytes.
pub fn find_encoded(num_bytes_base: usize) -> (encoded: usize)
    requires
        num_bytes_base * 3 <= usize::MAX,
    ensures
        encoded == num_bytes_base * 3,
{
    num_bytes_base * 3
}

/// Collects encoded bytes one at a time and decodes the bucket once enough
/// of them have arrived.
#[derive(Clone, Copy)]
pub struct ViterbiDecoder<const NUM_BYTES: usize, const NUM_ENCODED_BYTES: usize> {
    pub bucket_array: [u8; NUM_ENCODED_BYTES],
    pub array_index: usize,
}

impl<const NUM_BYTES: usize, const NUM_ENCODED_BYTES: usize> ViterbiDecoder<
    NUM_BYTES,
    NUM_ENCODED_BYTES,
> {
    /// Whether a bucket of `NUM_ENCODED_BYTES` bytes can be decoded into
    /// `NUM_BYTES` bytes.
    pub open spec fn sizes_fit() -> bool {
        &&& 30 <= 8 * NUM_ENCODED_BYTES <= u32::MAX
        &&& step_count(read_limit(NUM_ENCODED_BYTES as nat)) <= 8 * NUM_BYTES
    }

    /// An empty decoder: a zeroed bucket, filled from its first byte on.
    pub fn new() -> (decoder: Self)
        ensures
            decoder.array_index == 0,
            forall|i: int| 0 <= i < NUM_ENCODED_BYTES ==> decoder.bucket_array[i] == 0,
    {
        let bucket_array: [u8; NUM_ENCODED_BYTES] = [0u8;NUM_ENCODED_BYTES];
        let array_index: usize = 0;
        ViterbiDecoder { bucket_array, array_index }
    }

    /// Takes one encoded byte into the bucket. From the moment that
    /// `NUM_BYTES` bytes have arrived, every call also decodes the whole
    /// bucket as it then stands and hands the decoded block out.
    pub fn process(&mut self, byte: u8) -> (decoded: Option<[u8; NUM_BYTES]>)
        requires
            Self::sizes_fit(),
            old(self).array_index < NUM_ENCODED_BYTES,
        ensures
            final(self).array_index == old(self).array_index + 1,
            final(self).bucket_array@ == old(self).bucket_array@.update(
                old(self).array_index as int,
                byte,
            ),
            final(self).array_index < NUM_BYTES ==> decoded is None,
            final(self).array_index >= NUM_BYTES ==> decoded is Some && decoded->0@ == decode_spec(
                final(self).bucket_array@,
                NUM_BYTES as nat,
            ),
    {
        self.bucket_array[self.array_index] = byte;
        self.array_index += 1;
        if self.array_index >= NUM_BYTES {
            Some(viterbi_decode::<NUM_ENCODED_BYTES, NUM_BYTES>(self.bucket_array))
        } else {
            None
        }
    }
}

} // verus!
