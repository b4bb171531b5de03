use modes_decode::checksum::{
    compute_crc, extract_parity, modes_checksum, modes_checksum_table, MODES_GENERATOR_LOW,
};
use modes_decode::frame::{msg_to_bytes, vec_to_u128};

/// Parity of the data bits computed independently, by long division of the
/// message polynomial (parity field zeroed) over GF(2).
fn reference_crc(bytes: &[u8], bits: usize) -> u32 {
    let mut acc: u128 = 0;
    for k in 0..(bits / 8) {
        acc = (acc << 8) | bytes[k] as u128;
    }
    acc &= !0xffffffu128;
    let generator: u128 = 0x1fff409;
    for i in (24..bits).rev() {
        if acc & (1u128 << i) != 0 {
            acc ^= generator << (i - 24);
        }
    }
    acc as u32
}

fn hex_frame(s: &str) -> Vec<u8> {
    msg_to_bytes(s)
}

#[test]
fn golden_frame_checksum_valid() {
    let frame = hex_frame("8D4840D6202CC371C32CE0576098");
    assert_eq!(frame.len(), 14);
    let crc = modes_checksum(&frame, 112);
    let parity = extract_parity(&frame, 112);
    assert_eq!(crc, parity);
}

#[test]
fn checksum_matches_polynomial_division() {
    let frame = hex_frame("8D4840D6202CC371C32CE0576098");
    assert_eq!(modes_checksum(&frame, 112), reference_crc(&frame, 112));
    let pair_even = hex_frame("8D40621D58C382D690C8AC2863A7");
    assert_eq!(modes_checksum(&pair_even, 112), reference_crc(&pair_even, 112));
    let pair_odd = hex_frame("8D40621D58C386435CC412692AD6");
    assert_eq!(modes_checksum(&pair_odd, 112), reference_crc(&pair_odd, 112));
}

#[test]
fn short_frame_checksum_valid() {
    // A 56-bit all-call frame assembled with the parity its data asks for.
    let mut frame = vec![0x5d, 0x48, 0x40, 0xd6, 0, 0, 0];
    let crc = reference_crc(&frame, 56);
    frame[4] = (crc >> 16) as u8;
    frame[5] = (crc >> 8) as u8;
    frame[6] = crc as u8;
    assert_eq!(modes_checksum(&frame, 56), reference_crc(&frame, 56));
    assert_eq!(modes_checksum(&frame, 56), extract_parity(&frame, 56));
}

#[test]
fn table_has_zero_parity_tail() {
    let table = modes_checksum_table();
    assert_eq!(table.len(), 112);
    for j in 88..112 {
        assert_eq!(table[j], 0);
    }
    // The last data position contributes the generator's low bits.
    assert_eq!(table[87], 0xfff409);
    for j in 0..88 {
        assert_ne!(table[j], 0);
    }
}

#[test]
fn compute_crc_agrees_with_table_checksum() {
    let frame = hex_frame("8D4840D6202CC371C32CE0576098");
    let mut zeroed = frame.clone();
    zeroed[11] = 0;
    zeroed[12] = 0;
    zeroed[13] = 0;
    let packed = vec_to_u128(&zeroed);
    let generator = 0x1000000u128 | MODES_GENERATOR_LOW as u128;
    assert_eq!(compute_crc(packed, generator), modes_checksum(&frame, 112));
}

#[test]
fn vec_to_u128_packs_big_endian() {
    assert_eq!(vec_to_u128(&vec![]), 0);
    assert_eq!(vec_to_u128(&vec![0x12]), 0x12);
    assert_eq!(vec_to_u128(&vec![0x12, 0x34, 0x56]), 0x123456);
}
