use superdsp::ecc::bits::{or_bit, read_bit};
use superdsp::ecc::trellis::{next_symbol, read_symbol, VALID_TRANSITIONS};

#[test]
fn read_bit_counts_from_the_low_bit_of_each_byte() {
    let data = [0b0000_0001u8, 0b1000_0000, 0b0001_0000];
    assert_eq!(read_bit(&data, 0), 1);
    assert_eq!(read_bit(&data, 1), 0);
    assert_eq!(read_bit(&data, 7), 0);
    assert_eq!(read_bit(&data, 8), 0);
    assert_eq!(read_bit(&data, 15), 1);
    assert_eq!(read_bit(&data, 20), 1);
    assert_eq!(read_bit(&data, 23), 0);
}

#[test]
fn or_bit_sets_one_bit_and_keeps_the_rest() {
    let mut data = [0u8, 0x0F];
    or_bit(&mut data, 3, 1);
    assert_eq!(data, [0x08, 0x0F]);
    or_bit(&mut data, 15, 1);
    assert_eq!(data, [0x08, 0x8F]);
    or_bit(&mut data, 8, 1);
    assert_eq!(data, [0x08, 0x8F]);
}

#[test]
fn or_bit_of_zero_changes_nothing() {
    let mut data = [0xA5u8, 0x5A];
    or_bit(&mut data, 1, 0);
    or_bit(&mut data, 0, 0);
    or_bit(&mut data, 9, 0);
    assert_eq!(data, [0xA5, 0x5A]);
}

#[test]
fn read_symbol_takes_the_first_bit_as_the_highest() {
    let data = [0b0000_0001u8, 0b0000_0011];
    assert_eq!(read_symbol(&data, 0), 4);
    assert_eq!(read_symbol(&data, 6), 1);
    assert_eq!(read_symbol(&data, 7), 3);
    assert_eq!(read_symbol(&data, 8), 6);
    assert_eq!(read_symbol(&data, 13), 0);
}

#[test]
fn next_symbol_follows_the_table() {
    let table = [[0, 5], [6, 3], [1, 4], [7, 2], [1, 4], [7, 2], [0, 5], [6, 3]];
    assert_eq!(VALID_TRANSITIONS, table);
    for previous in 0..8u8 {
        for bit in 0..2u8 {
            assert_eq!(next_symbol(previous, bit), table[previous as usize][bit as usize]);
        }
    }
}

#[test]
fn next_symbol_slides_the_window_of_the_encoder() {
    let symbol = |b0: u8, b1: u8, b2: u8| ((b0 ^ b1 ^ b2) << 2) | ((b0 ^ b1) << 1) | (b1 ^ b2);
    for window in 0..16u8 {
        let (b0, b1, b2, b3) = (window & 1, (window >> 1) & 1, (window >> 2) & 1, window >> 3);
        assert_eq!(next_symbol(symbol(b0, b1, b2), b3), symbol(b1, b2, b3));
    }
}
