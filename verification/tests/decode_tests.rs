use modes_decode::cache::{add_recently_seen_icaoaddr, icaoaddress_was_recently_seen, new_icao_cache};
use modes_decode::checksum::modes_checksum;
use modes_decode::frame::{get_downlink_code, modes_message_len_by_id, msg_to_bytes};
use modes_decode::{decode, Corrected, DecodeError};

fn to_hex(bytes: &[u8]) -> String {
    let mut s = String::new();
    for b in bytes {
        s.push_str(&format!("{:02X}", b));
    }
    s
}

#[test]
fn hex_decoding_strips_noise() {
    assert_eq!(msg_to_bytes("*8D4840D6;"), vec![0x8d, 0x48, 0x40, 0xd6]);
    assert_eq!(msg_to_bytes("8d4840d6"), vec![0x8d, 0x48, 0x40, 0xd6]);
    assert_eq!(msg_to_bytes(""), Vec::<u8>::new());
    // An odd digit count is malformed and yields nothing.
    assert_eq!(msg_to_bytes("8D4"), Vec::<u8>::new());
}

#[test]
fn downlink_code_and_length() {
    let frame = msg_to_bytes("8D4840D6202CC371C32CE0576098");
    assert_eq!(get_downlink_code(&frame), 17);
    assert_eq!(modes_message_len_by_id(17), 112);
    assert_eq!(modes_message_len_by_id(11), 56);
    assert_eq!(modes_message_len_by_id(16), 112);
    assert_eq!(modes_message_len_by_id(4), 56);
}

#[test]
fn decode_malformed_lines() {
    let mut cache = new_icao_cache();
    assert_eq!(
        decode("8D4", 0, &mut cache, false),
        Err(DecodeError::MalformedFrame)
    );
    assert_eq!(decode("", 0, &mut cache, false), Err(DecodeError::MalformedFrame));
    // Too few bytes for a long format.
    assert_eq!(
        decode("8D4840D6", 0, &mut cache, false),
        Err(DecodeError::MalformedFrame)
    );
}

#[test]
fn decode_callsign_frame() {
    let mut cache = new_icao_cache();
    let m = decode("8D4840D6202CC371C32CE0576098", 42, &mut cache, false).expect("valid frame");
    assert_eq!(m.msgtype, 17);
    assert_eq!(m.msgbits, 112);
    assert!(m.crcok);
    assert_eq!(m.corrected, Corrected::Untouched);
    assert_eq!((m.aa1, m.aa2, m.aa3), (0x48, 0x40, 0xd6));
    assert_eq!(m.metype, 4);
    assert_eq!(m.flight, b"KLM1023_".to_vec());
    // The address was recorded as recently seen.
    assert!(icaoaddress_was_recently_seen(0x4840d6, &cache, 42));
}

#[test]
fn decode_position_frame_fields() {
    let mut cache = new_icao_cache();
    let m = decode("8D40621D58C382D690C8AC2863A7", 0, &mut cache, false).expect("valid frame");
    assert_eq!(m.metype, 11);
    assert!(!m.fflag);
    assert_eq!(m.raw_latitude, 93000);
    assert_eq!(m.raw_longitude, 51372);
}

#[test]
fn decode_corrects_single_bit_and_reports_it() {
    // Positions past the downlink-format field: a flip inside the first
    // five bits changes which format the frame is parsed as.
    let original = msg_to_bytes("8D4840D6202CC371C32CE0576098");
    for j in [5usize, 7, 45, 111] {
        let mut corrupted = original.clone();
        corrupted[j / 8] ^= 1u8 << (7 - j % 8);
        let mut cache = new_icao_cache();
        let m = decode(&to_hex(&corrupted), 0, &mut cache, false).expect("correctable frame");
        assert_eq!(m.corrected, Corrected::OneBit(j as u8));
        assert!(m.crcok);
        assert_eq!(m.msg, original);
        assert_eq!(m.flight, b"KLM1023_".to_vec());
    }
}

#[test]
fn decode_two_bit_correction_is_gated() {
    let original = msg_to_bytes("8D4840D6202CC371C32CE0576098");
    let mut corrupted = original.clone();
    corrupted[1] ^= 0x01;
    corrupted[2] ^= 0x80;
    let line = to_hex(&corrupted);
    let mut cache = new_icao_cache();
    assert_eq!(
        decode(&line, 0, &mut cache, false),
        Err(DecodeError::ChecksumFailed)
    );
    let m = decode(&line, 0, &mut cache, true).expect("two-bit correctable frame");
    assert_eq!(m.corrected, Corrected::TwoBits(15, 16));
    assert_eq!(m.msg, original);
}

#[test]
fn decode_rejects_uncorrectable_checksum() {
    // A military extended frame has no correction path.
    let mut frame = vec![0x98u8; 14];
    frame[11] = 0;
    frame[12] = 0;
    frame[13] = 0;
    let crc = modes_checksum(&frame, 112);
    frame[13] = (crc as u8) ^ 0xff;
    frame[12] = (crc >> 8) as u8;
    frame[11] = (crc >> 16) as u8;
    let mut cache = new_icao_cache();
    assert_eq!(
        decode(&to_hex(&frame), 0, &mut cache, true),
        Err(DecodeError::ChecksumFailed)
    );
    // With the correct parity the same frame is accepted.
    frame[13] = crc as u8;
    let m = decode(&to_hex(&frame), 0, &mut cache, true).expect("valid frame");
    assert!(m.crcok);
    assert_eq!(m.msgtype, 19);
}

#[test]
fn decode_ap_frame_requires_confirmed_address() {
    let addr: u32 = 0x3c6544;
    // A surveillance-altitude frame: format 4, 13-bit altitude, address
    // XOR-ed into the parity.
    let mut frame = vec![0x20, 0x00, 0x01, 0x30, 0, 0, 0];
    let crc = modes_checksum(&frame, 56);
    frame[4] = ((crc >> 16) as u8) ^ ((addr >> 16) as u8);
    frame[5] = ((crc >> 8) as u8) ^ ((addr >> 8) as u8);
    frame[6] = (crc as u8) ^ (addr as u8);
    let line = to_hex(&frame);

    let mut cache = new_icao_cache();
    assert_eq!(
        decode(&line, 100, &mut cache, false),
        Err(DecodeError::AddressUnconfirmed)
    );

    add_recently_seen_icaoaddr(addr, &mut cache, 95);
    let m = decode(&line, 100, &mut cache, false).expect("confirmed frame");
    assert!(m.crcok);
    assert_eq!((m.aa1, m.aa2, m.aa3), (0x3c, 0x65, 0x44));
    // Bytes 2 and 3 are 0x01, 0x30: M clear, Q set, N = 80, so the
    // altitude is 80*25 - 1000 feet.
    assert_eq!(m.altitude, 1000);

    // One second past the time-to-live the sighting no longer counts.
    let mut cache = new_icao_cache();
    add_recently_seen_icaoaddr(addr, &mut cache, 95);
    assert_eq!(
        decode(&line, 95 + 61, &mut cache, false),
        Err(DecodeError::AddressUnconfirmed)
    );
}

#[test]
fn decode_velocity_frame() {
    // Format 17, type 19, subtype 1: ew 300, ns 400.
    let mut frame = vec![0u8; 14];
    frame[0] = 0x8d;
    frame[1] = 0x48;
    frame[2] = 0x40;
    frame[3] = 0xd6;
    frame[4] = (19 << 3) | 1;
    frame[5] = (300u16 >> 8) as u8 & 3;
    frame[6] = 300u16 as u8;
    frame[7] = ((400u16 >> 3) as u8) & 0x7f;
    frame[8] = ((400u16 & 7) as u8) << 5;
    let crc = modes_checksum(&frame, 112);
    frame[11] = (crc >> 16) as u8;
    frame[12] = (crc >> 8) as u8;
    frame[13] = crc as u8;
    let mut cache = new_icao_cache();
    let m = decode(&to_hex(&frame), 0, &mut cache, false).expect("valid frame");
    assert_eq!(m.metype, 19);
    assert_eq!(m.mesub, 1);
    assert_eq!(m.ew_velocity, 300);
    assert_eq!(m.ns_velocity, 400);
    assert_eq!(m.velocity, 500);
}

#[test]
fn decode_identity_frame() {
    // Format 5 carries the squawk; its address rides in the parity field.
    let addr: u32 = 0x3c6544;
    let mut frame = vec![0x28, 0x00, 0x08, 0x08, 0, 0, 0];
    let crc = modes_checksum(&frame, 56);
    frame[4] = ((crc >> 16) as u8) ^ ((addr >> 16) as u8);
    frame[5] = ((crc >> 8) as u8) ^ ((addr >> 8) as u8);
    frame[6] = (crc as u8) ^ (addr as u8);
    let mut cache = new_icao_cache();
    add_recently_seen_icaoaddr(addr, &mut cache, 10);
    let m = decode(&to_hex(&frame), 10, &mut cache, false).expect("confirmed frame");
    assert_eq!(m.identity, 1200);
}
