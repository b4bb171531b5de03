use modes_decode::fields::{
    decode_ac12_field, decode_ac13_field, decode_callsign, decode_cpr_fields, decode_heading,
    decode_identity_field, decode_velocity_components, ground_speed, isqrt,
    strip_callsign_padding,
};
use modes_decode::frame::msg_to_bytes;
use modes_decode::AltitudeUnit;

#[test]
fn callsign_of_golden_frame() {
    let frame = msg_to_bytes("8D4840D6202CC371C32CE0576098");
    let flight = decode_callsign(&frame);
    assert_eq!(flight, b"KLM1023_".to_vec());
    let text = strip_callsign_padding(&flight);
    assert_eq!(text, b"KLM1023".to_vec());
}

#[test]
fn callsign_charset_low_indices() {
    // Indices 1, 2, 3, ... spell the alphabet from 'A'.
    // Pack indices 1..=8 into the six-bit fields of bytes 5..=10.
    let idx: [u8; 8] = [1, 2, 3, 4, 5, 6, 7, 8];
    let mut frame = vec![0u8; 14];
    frame[5] = (idx[0] << 2) | (idx[1] >> 4);
    frame[6] = ((idx[1] & 15) << 4) | (idx[2] >> 2);
    frame[7] = ((idx[2] & 3) << 6) | idx[3];
    frame[8] = (idx[4] << 2) | (idx[5] >> 4);
    frame[9] = ((idx[5] & 15) << 4) | (idx[6] >> 2);
    frame[10] = ((idx[6] & 3) << 6) | idx[7];
    let flight = decode_callsign(&frame);
    assert_eq!(flight, b"ABCDEFGH".to_vec());
}

#[test]
fn squawk_1200() {
    // A=1 from bit 3 of byte 2, B=2 from bit 3 of byte 3.
    let frame = vec![0x28, 0x00, 0x08, 0x08, 0, 0, 0];
    assert_eq!(decode_identity_field(&frame), 1200);
}

#[test]
fn squawk_7500() {
    // A=7: bits 7 of byte 3, 1 of byte 2, 3 of byte 2; B=5: bits 1 and 5 of byte 3.
    let frame = vec![0x28, 0x00, 0x0a, 0x82 | 0x20, 0, 0, 0];
    assert_eq!(decode_identity_field(&frame), 7500);
}

#[test]
fn ac13_altitude_q_bit() {
    // N = 0b00011001100 = 204 -> 204*25 - 1000 = 4100 feet.
    // Bits of N: msg[2]&31 high five, then byte 3 fragments.
    let n: u32 = 204;
    let m2 = ((n >> 6) & 31) as u8;
    let b5 = ((n >> 5) & 1) as u8;
    let b4 = ((n >> 4) & 1) as u8;
    let low = (n & 15) as u8;
    let frame = vec![0x20, 0, m2, (b5 << 7) | (b4 << 5) | low | 0x10, 0, 0, 0];
    let mut unit = AltitudeUnit::Meters;
    let alt = decode_ac13_field(&frame, &mut unit);
    assert_eq!(alt, 4100);
    assert_eq!(unit, AltitudeUnit::Feet);
}

#[test]
fn ac13_meters_flag() {
    let frame = vec![0x20, 0, 0, 0x40, 0, 0, 0];
    let mut unit = AltitudeUnit::Feet;
    let alt = decode_ac13_field(&frame, &mut unit);
    assert_eq!(alt, 0);
    assert_eq!(unit, AltitudeUnit::Meters);
}

#[test]
fn ac12_altitude() {
    // N = 1000 -> 24000 feet. Byte 5 holds Q at bit 0 and N's top seven
    // bits above it; byte 6's high nibble holds N's low four bits.
    let n: u32 = 1000;
    let frame = vec![
        0x8d,
        0,
        0,
        0,
        0,
        (((n >> 4) as u8) << 1) | 1,
        ((n & 15) as u8) << 4,
    ];
    let mut unit = AltitudeUnit::Meters;
    let alt = decode_ac12_field(&frame, &mut unit);
    assert_eq!(alt, 24000);
    assert_eq!(unit, AltitudeUnit::Feet);
}

#[test]
fn velocity_components_and_speed() {
    // ew = 300 east, ns = 400 north: ground speed 500.
    let ew: u16 = 300;
    let ns: u16 = 400;
    let mut frame = vec![0u8; 14];
    frame[5] = ((ew >> 8) as u8) & 3;
    frame[6] = ew as u8;
    frame[7] = ((ns >> 3) as u8) & 0x7f;
    frame[8] = ((ns & 7) as u8) << 5;
    let v = decode_velocity_components(&frame);
    assert_eq!(v, (0, 300, 0, 400));
    assert_eq!(ground_speed(v.1, v.3), 500);
}

#[test]
fn isqrt_rounds_down() {
    assert_eq!(isqrt(0), 0);
    assert_eq!(isqrt(1), 1);
    assert_eq!(isqrt(24), 4);
    assert_eq!(isqrt(25), 5);
    assert_eq!(isqrt(26), 5);
    assert_eq!(isqrt(u32::MAX), 65535);
}

#[test]
fn heading_scaled_by_360_over_128() {
    // Raw heading 64 with the valid bit set: 180 degrees.
    let mut frame = vec![0u8; 14];
    frame[5] = 4 | (64u8 >> 5);
    frame[6] = (64u8 & 31) << 3;
    let (valid, heading) = decode_heading(&frame);
    assert!(valid);
    assert_eq!(heading, 180);
    // Raw 100: floor(100 * 360 / 128) = 281.
    let mut frame = vec![0u8; 14];
    frame[5] = 100u8 >> 5;
    frame[6] = (100u8 & 31) << 3;
    let (valid, heading) = decode_heading(&frame);
    assert!(!valid);
    assert_eq!(heading, 281);
}

#[test]
fn cpr_fields_of_position_pair() {
    let even = msg_to_bytes("8D40621D58C382D690C8AC2863A7");
    let (fflag, lat, lon) = decode_cpr_fields(&even);
    assert!(!fflag);
    assert_eq!(lat, 93000);
    assert_eq!(lon, 51372);
    let odd = msg_to_bytes("8D40621D58C386435CC412692AD6");
    let (fflag, lat, lon) = decode_cpr_fields(&odd);
    assert!(fflag);
    assert_eq!(lat, 74158);
    assert_eq!(lon, 50194);
}
