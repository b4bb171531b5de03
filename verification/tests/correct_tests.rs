use modes_decode::cache::{
    add_recently_seen_icaoaddr, icaoaddress_was_recently_seen, icaocache_hash_address,
    new_icao_cache, MODES_ICAO_CACHE_TTL,
};
use modes_decode::checksum::{extract_parity, modes_checksum};
use modes_decode::correct::{brute_force_ap, fix_single_bit_errors, fix_two_bits_errors};
use modes_decode::frame::msg_to_bytes;
use modes_decode::{AltitudeUnit, Corrected, DecodedMessage};

fn golden() -> Vec<u8> {
    msg_to_bytes("8D4840D6202CC371C32CE0576098")
}

fn flip(frame: &mut Vec<u8>, j: usize) {
    frame[j / 8] ^= 1u8 << (7 - j % 8);
}

#[test]
fn single_bit_round_trip_every_position() {
    let original = golden();
    for j in 0..112 {
        let mut corrupted = original.clone();
        flip(&mut corrupted, j);
        assert_ne!(
            modes_checksum(&corrupted, 112),
            extract_parity(&corrupted, 112),
            "flip at {} went undetected",
            j
        );
        let fixed = fix_single_bit_errors(&mut corrupted, 112);
        assert_eq!(fixed, j as i8, "wrong position reported for flip at {}", j);
        assert_eq!(corrupted, original, "frame not restored for flip at {}", j);
    }
}

#[test]
fn single_bit_fix_reports_failure() {
    // A frame whose parity disagrees in many bits has no single-bit repair.
    let mut corrupted = golden();
    corrupted[11] ^= 0x55;
    corrupted[12] ^= 0x55;
    corrupted[13] ^= 0x55;
    let before = corrupted.clone();
    let fixed = fix_single_bit_errors(&mut corrupted, 112);
    assert_eq!(fixed, -1);
    assert_eq!(corrupted, before);
}

#[test]
fn two_bit_round_trip() {
    let original = golden();
    for &(j, i) in &[(0usize, 1usize), (5, 77), (30, 31), (87, 111)] {
        let mut corrupted = original.clone();
        flip(&mut corrupted, j);
        flip(&mut corrupted, i);
        let fixed = fix_two_bits_errors(&mut corrupted, 112);
        assert_eq!(fixed, (j | (i << 8)) as i32);
        assert_eq!(corrupted, original, "frame not restored for pair ({}, {})", j, i);
    }
}

#[test]
fn cache_answers_fresh_and_forgets_stale() {
    let mut cache = new_icao_cache();
    let addr = 0x4840d6;
    let t = 1000;
    add_recently_seen_icaoaddr(addr, &mut cache, t);
    assert!(icaoaddress_was_recently_seen(addr, &cache, t));
    assert!(icaoaddress_was_recently_seen(addr, &cache, t + MODES_ICAO_CACHE_TTL));
    assert!(!icaoaddress_was_recently_seen(addr, &cache, t + MODES_ICAO_CACHE_TTL + 1));
    assert!(!icaoaddress_was_recently_seen(0x111111, &cache, t));
}

#[test]
fn cache_collision_overwrites() {
    let target = 0x4840d6;
    let slot = icaocache_hash_address(target);
    // Find another address that lands in the same slot.
    let mut other = 0;
    for a in 1..0x1000000u32 {
        if a != target && icaocache_hash_address(a) == slot {
            other = a;
            break;
        }
    }
    assert_ne!(other, 0);
    let mut cache = new_icao_cache();
    add_recently_seen_icaoaddr(target, &mut cache, 50);
    add_recently_seen_icaoaddr(other, &mut cache, 50);
    assert!(icaoaddress_was_recently_seen(other, &cache, 50));
    assert!(!icaoaddress_was_recently_seen(target, &cache, 50));
}

fn blank_message(msgtype: u8, msgbits: usize) -> DecodedMessage {
    DecodedMessage {
        msg: Vec::new(),
        msgtype,
        msgbits,
        crcok: false,
        corrected: Corrected::Untouched,
        aa1: 0,
        aa2: 0,
        aa3: 0,
        metype: 0,
        mesub: 0,
        fflag: false,
        raw_latitude: 0,
        raw_longitude: 0,
        altitude: 0,
        unit: AltitudeUnit::Feet,
        identity: 0,
        flight: Vec::new(),
        ew_dir: 0,
        ew_velocity: 0,
        ns_dir: 0,
        ns_velocity: 0,
        velocity: 0,
        heading: 0,
        heading_is_valid: false,
    }
}

#[test]
fn brute_force_ap_needs_recent_sighting() {
    // A surveillance-altitude frame carries its address XOR-ed into the
    // parity field.
    let addr: u32 = 0x3c6544;
    let mut frame = vec![0x20, 0x00, 0x01, 0x30, 0, 0, 0];
    let crc = modes_checksum(&frame, 56);
    frame[4] = ((crc >> 16) as u8) ^ ((addr >> 16) as u8);
    frame[5] = ((crc >> 8) as u8) ^ ((addr >> 8) as u8);
    frame[6] = (crc as u8) ^ (addr as u8);

    let mut cache = new_icao_cache();
    let mut mm = blank_message(4, 56);
    assert!(!brute_force_ap(&frame, &mut mm, &cache, 500));

    add_recently_seen_icaoaddr(addr, &mut cache, 499);
    let mut mm = blank_message(4, 56);
    assert!(brute_force_ap(&frame, &mut mm, &cache, 500));
    assert_eq!(mm.aa1, 0x3c);
    assert_eq!(mm.aa2, 0x65);
    assert_eq!(mm.aa3, 0x44);
}

#[test]
fn brute_force_ap_ignores_other_formats() {
    let frame = golden();
    let mut cache = new_icao_cache();
    add_recently_seen_icaoaddr(0x4840d6, &mut cache, 10);
    let mut mm = blank_message(17, 112);
    assert!(!brute_force_ap(&frame, &mut mm, &cache, 10));
}
