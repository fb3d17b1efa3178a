use superdsp::ecc::viterbi35;
use superdsp::radios::viterbi38;

const SOURCE: [u8; 16] = [
    75, 0x01, 0x21, 0x23, 0x43, 0x45, 0x65, 0x67, 0x87, 0x89, 0xA9, 0xAB, 0xCB, 0xCD, 0xED, 0xEF,
];

#[test]
fn round_trip_without_corruption() {
    let encoded = viterbi35::viterbi_encode::<16, 18, 54>(SOURCE);
    assert_eq!(viterbi35::viterbi_decode::<54, 16>(encoded), SOURCE);
}

#[test]
fn round_trip_of_every_single_byte() {
    for value in 0..=255u8 {
        let encoded = viterbi35::viterbi_encode::<1, 3, 9>([value]);
        assert_eq!(viterbi35::viterbi_decode::<9, 1>(encoded), [value]);
    }
}

#[test]
fn round_trip_of_all_byte_values_in_one_block() {
    let mut source = [0u8; 256];
    for i in 0..256 {
        source[i] = i as u8;
    }
    let encoded = viterbi35::viterbi_encode::<256, 258, 774>(source);
    assert_eq!(viterbi35::viterbi_decode::<774, 256>(encoded), source);
}

#[test]
fn round_trip_of_the_empty_source() {
    let encoded = viterbi35::viterbi_encode::<0, 2, 6>([]);
    assert_eq!(encoded, [0, 0, 0, 0, 0, 0]);
    assert_eq!(viterbi35::viterbi_decode::<6, 0>(encoded), []);
}

#[test]
fn encode_one_byte() {
    assert_eq!(
        viterbi35::viterbi_encode::<1, 3, 9>([0xA5]),
        [0, 0, 244, 254, 122, 127, 0, 0, 0]
    );
}

#[test]
fn encode_two_bytes() {
    assert_eq!(
        viterbi35::viterbi_encode::<2, 4, 12>([0x3C, 0x5A]),
        [0, 0, 0, 85, 194, 161, 183, 232, 15, 0, 0, 0]
    );
}

#[test]
fn encode_starts_with_the_padding_byte() {
    let encoded = viterbi35::viterbi_encode::<3, 5, 15>([0x0, 0b01010101, 0xFF]);
    assert_eq!(encoded, [0, 0, 0, 0, 0, 244, 190, 239, 91, 73, 146, 112, 0, 0, 0]);
}

#[test]
fn encode_with_one_byte_of_padding_only() {
    let encoded = viterbi35::viterbi_encode::<16, 17, 51>(SOURCE);
    assert_eq!(
        encoded,
        [
            0, 0, 84, 244, 215, 251, 3, 0, 244, 3, 250, 85, 28, 250, 85, 28, 208, 251, 254, 208,
            251, 254, 42, 90, 225, 42, 90, 225, 128, 138, 235, 135, 138, 235, 125, 43, 244, 125,
            43, 244, 87, 133, 22, 87, 133, 22, 173, 36, 9, 45, 0
        ]
    );
}

#[test]
fn encode_leaves_a_longer_output_zero_behind_the_last_codeword() {
    let exact = viterbi35::viterbi_encode::<1, 3, 9>([0xA5]);
    let longer = viterbi35::viterbi_encode::<1, 3, 12>([0xA5]);
    assert_eq!(longer[..9], exact);
    assert_eq!(longer[9..], [0, 0, 0]);
}

#[test]
fn decode_conceals_one_flipped_bit() {
    let clean = [0, 0, 0, 85, 194, 161, 183, 232, 15, 0, 0, 0];
    let mut corrupted = clean;
    corrupted[4] ^= 0x10;
    assert_eq!(corrupted[4], 210);
    assert_eq!(viterbi35::viterbi_decode::<12, 2>(corrupted), [0x3C, 0x5A]);
    assert_eq!(viterbi35::viterbi_decode::<12, 2>(clean), [0x3C, 0x5A]);
}

#[test]
fn decode_conceals_flips_in_every_other_byte() {
    let corrupted = [1, 0, 4, 0, 16, 244, 254, 239, 90, 73, 150, 112, 16, 0, 64];
    assert_eq!(viterbi35::viterbi_decode::<15, 3>(corrupted), [0x0, 0b01010101, 0xFF]);
}

#[test]
fn decode_never_fails_on_streams_that_are_no_encoding() {
    assert_eq!(viterbi35::viterbi_decode::<9, 1>([0xFF; 9]), [85]);
    assert_eq!(viterbi35::viterbi_decode::<9, 1>([0x55; 9]), [3]);
    assert_eq!(
        viterbi35::viterbi_decode::<12, 2>([
            0x12, 0x34, 0x56, 0x78, 0x9A, 0xBC, 0xDE, 0xF0, 0x0F, 0x1E, 0x2D, 0x3C
        ]),
        [255, 69]
    );
}

#[test]
fn decode_of_a_stream_too_short_for_one_codeword_is_zero() {
    assert_eq!(viterbi35::viterbi_decode::<4, 1>([0xFF; 4]), [0]);
}

#[test]
fn decode_of_a_short_stream_fills_the_low_bits_only() {
    assert_eq!(viterbi35::viterbi_decode::<7, 1>([0xFF; 7]), [5]);
}

#[test]
fn decode_leaves_a_longer_output_zero_behind_the_last_bit() {
    let encoded = viterbi35::viterbi_encode::<1, 3, 9>([0xA5]);
    assert_eq!(viterbi35::viterbi_decode::<9, 3>(encoded), [0xA5, 0, 0]);
}

#[test]
fn both_modules_encode_alike() {
    assert_eq!(
        viterbi38::viterbi_encode::<16, 18, 54>(SOURCE),
        viterbi35::viterbi_encode::<16, 18, 54>(SOURCE)
    );
    assert_eq!(
        viterbi38::viterbi_encode::<1, 3, 9>([0xA5]),
        [0, 0, 244, 254, 122, 127, 0, 0, 0]
    );
}

#[test]
fn both_modules_decode_alike() {
    let encoded = viterbi38::viterbi_encode::<16, 18, 54>(SOURCE);
    let mut corrupted = encoded;
    for i in 0..=14 {
        if i % 2 == 0 {
            corrupted[i] = encoded[i] ^ (0x01 << (i % 8));
        }
    }
    assert_eq!(viterbi38::viterbi_decode::<54, 16>(corrupted), SOURCE);
    assert_eq!(viterbi38::viterbi_decode::<54, 16>(encoded), SOURCE);
    let garbage = [0x12, 0x34, 0x56, 0x78, 0x9A, 0xBC, 0xDE, 0xF0, 0x0F, 0x1E, 0x2D, 0x3C];
    assert_eq!(
        viterbi38::viterbi_decode::<12, 2>(garbage),
        viterbi35::viterbi_decode::<12, 2>(garbage)
    );
    assert_eq!(viterbi38::viterbi_decode::<12, 2>(garbage), [255, 69]);
}

#[test]
fn corruption_of_every_encoded_byte_is_concealed() {
    let mut source = [0u8; 256];
    for i in 0..256 {
        source[i] = i as u8;
    }
    let encoded = viterbi38::viterbi_encode::<256, 258, 774>(source);
    let mut corrupted = encoded;
    for i in 0..774 {
        corrupted[i] = encoded[i] ^ (0x40 << (i % 8));
    }
    assert_ne!(corrupted, encoded);
    assert_eq!(
        viterbi38::viterbi_decode::<774, 256>(corrupted),
        viterbi38::viterbi_decode::<774, 256>(encoded)
    );
}

#[test]
fn one_byte_of_padding_loses_the_last_byte() {
    let encoded = viterbi35::viterbi_encode::<16, 17, 51>(SOURCE);
    assert_eq!(
        viterbi35::viterbi_decode::<51, 16>(encoded),
        [75, 1, 33, 35, 67, 69, 101, 103, 135, 137, 169, 171, 203, 205, 237, 0]
    );
}

#[test]
fn an_encoding_one_byte_short_loses_the_last_two_bits() {
    let encoded = viterbi35::viterbi_encode::<16, 18, 53>(SOURCE);
    assert_eq!(
        viterbi35::viterbi_decode::<53, 16>(encoded),
        [75, 1, 33, 35, 67, 69, 101, 103, 135, 137, 169, 171, 203, 205, 237, 0x2F]
    );
}

#[test]
fn decode_reads_past_a_short_encoding_as_corruption() {
    let encoded = viterbi35::viterbi_encode::<1, 2, 9>([0xFF]);
    assert_eq!(encoded, [0, 0, 84, 73, 18, 0, 0, 0, 0]);
    assert_eq!(viterbi35::viterbi_decode::<9, 1>(encoded), [127]);
}
