//! Decoder for Mode S / ADS-B surveillance frames.
//!
//! The library decodes hex-encoded binary frames: it computes the linear
//! block-code checksum, recovers implicit transmitter addresses, corrects
//! single- and double-bit transmission errors by brute force, keeps a
//! time-bounded cache of recently seen addresses, extracts the typed fields
//! (altitude, squawk, callsign, velocity), and resolves unambiguous global
//! positions from paired even/odd compact position reports.

pub mod cache;
pub mod checksum;
pub mod correct;
pub mod cpr;
pub mod fields;
pub mod frame;

use vstd::prelude::*;

verus! {

/// Number of bits in a long Mode S frame.
pub const MODES_LONG_MSG_BITS: usize = 112;

/// Number of bits in a short Mode S frame.
pub const MODES_SHORT_MSG_BITS: usize = 56;

/// Why a line produced no decoded message. Every variant is recoverable:
/// the line is dropped and the stream goes on.
#[derive(Clone, Copy, Debug, PartialEq, Eq, Structural)]
pub enum DecodeError {
    /// The cleaned hex text had an odd digit count, or too few bytes for
    /// its downlink format.
    MalformedFrame,
    /// The checksum comparison failed and no correction path applied or
    /// succeeded.
    ChecksumFailed,
    /// The address recovered from the parity field was not recently seen,
    /// so the message cannot be trusted.
    AddressUnconfirmed,
    /// No unambiguous global position could be resolved from the stored
    /// even/odd frame pair.
    CprUnresolved,
}

/// Unit of a decoded altitude value.
#[derive(Clone, Copy, Debug, PartialEq, Eq, Structural)]
pub enum AltitudeUnit {
    Feet,
    Meters,
}

/// Which bit positions error correction flipped to repair the frame.
#[derive(Clone, Copy, Debug, PartialEq, Eq, Structural)]
pub enum Corrected {
    Untouched,
    OneBit(u8),
    TwoBits(u8, u8),
}

/// One decoded frame, fully populated by the decode pipeline and then
/// handed off; the decoder does not retain it.
#[derive(Debug, PartialEq, Eq)]
pub struct DecodedMessage {
    /// Frame bytes, after any bit-flip correction.
    pub msg: Vec<u8>,
    /// Downlink format code, the top five bits of byte 0.
    pub msgtype: u8,
    /// Frame length in bits, 56 or 112.
    pub msgbits: usize,
    /// Whether the frame passed (or was corrected to pass) its checksum, or
    /// its implicitly encoded address was confirmed.
    pub crcok: bool,
    /// Which bits correction flipped, for diagnostics.
    pub corrected: Corrected,
    /// ICAO address, most significant byte.
    pub aa1: u8,
    /// ICAO address, middle byte.
    pub aa2: u8,
    /// ICAO address, least significant byte.
    pub aa3: u8,
    /// Extended-squitter message type.
    pub metype: u8,
    /// Extended-squitter message subtype.
    pub mesub: u8,
    /// Odd/even parity flag of a position report.
    pub fflag: bool,
    /// 17-bit latitude zone count of a position report.
    pub raw_latitude: u32,
    /// 17-bit longitude zone count of a position report.
    pub raw_longitude: u32,
    /// Decoded altitude, when the frame carries one.
    pub altitude: i32,
    /// Unit of `altitude`.
    pub unit: AltitudeUnit,
    /// Decoded 4-digit squawk code.
    pub identity: u32,
    /// Callsign, eight charset symbols, padding not yet trimmed.
    pub flight: Vec<u8>,
    /// East-west velocity direction bit.
    pub ew_dir: u8,
    /// East-west velocity magnitude.
    pub ew_velocity: u16,
    /// North-south velocity direction bit.
    pub ns_dir: u8,
    /// North-south velocity magnitude.
    pub ns_velocity: u16,
    /// Ground speed, the rounded-down length of the velocity vector.
    pub velocity: u32,
    /// Track in degrees, rounded down, when the frame carries one.
    pub heading: u16,
    /// Whether the heading field of the frame was marked valid.
    pub heading_is_valid: bool,
}

impl DecodedMessage {
    /// The 24-bit ICAO address assembled from its three bytes.
    pub open spec fn spec_address(&self) -> u32 {
        ((self.aa1 as u32) << 16) | ((self.aa2 as u32) << 8) | (self.aa3 as u32)
    }

    /// Assembles the 24-bit ICAO address from its three bytes.
    pub fn address(&self) -> (addr: u32)
        ensures
            addr == self.spec_address(),
    {
        ((self.aa1 as u32) << 16) | ((self.aa2 as u32) << 8) | (self.aa3 as u32)
    }
}

/// The frame bytes spelled by a received line.
pub open spec fn spec_line_bytes(line: Seq<char>) -> Seq<u8> {
    frame::spec_msg_to_bytes(line)
}

/// Whether a line spells a frame at all: an even digit count and at least
/// as many bytes as its downlink format asks for.
pub open spec fn spec_frame_ok(line: Seq<char>) -> bool {
    let bytes = spec_line_bytes(line);
    bytes.len() >= 1 && bytes.len() >= frame::spec_message_len(frame::spec_downlink_code(bytes))
        / 8
}

/// Whether the decoder drops a well-formed frame for its checksum: a frame
/// of a directly checked format whose comparison fails and which no
/// enabled correction path can repair. Address/parity formats are never
/// dropped here; their parity hides the address instead.
pub open spec fn spec_checksum_rejected(
    bytes: Seq<u8>,
    df: u8,
    bits: int,
    two_bit_fix: bool,
) -> bool {
    if df == 11 || df == 17 {
        &&& !checksum::valid_frame(bytes, bits)
        &&& !correct::spec_single_fixable(bytes, bits)
        &&& !(df == 17 && two_bit_fix && correct::spec_pair_fixable(bytes, bits))
    } else if correct::is_ap_format(df) {
        false
    } else {
        !checksum::valid_frame(bytes, bits)
    }
}

/// Decodes one received line through the full pipeline: hex decoding,
/// length detection, checksum comparison, bit-flip correction (one bit for
/// formats 11 and 17; two bits for format 17 when `two_bit_fix` allows the
/// stricter fallback), implicit-address recovery against the recency
/// cache, and the per-format field decoders. A format-11 or -17 message
/// that checks out records its address in the cache at time `now`.
pub fn decode(
    line: &str,
    now: u32,
    icao_cache: &mut Vec<u32>,
    two_bit_fix: bool,
) -> (r: Result<DecodedMessage, DecodeError>)
    requires
        old(icao_cache)@.len() == 2 * cache::MODES_ICAO_CACHE_LEN,
    ensures
        final(icao_cache)@.len() == old(icao_cache)@.len(),
        (r == Err::<DecodedMessage, DecodeError>(DecodeError::MalformedFrame)) == !spec_frame_ok(
            line@,
        ),
        ({
            let bytes = spec_line_bytes(line@);
            let df = frame::spec_downlink_code(bytes);
            let bits = frame::spec_message_len(df) as int;
            &&& (r == Err::<DecodedMessage, DecodeError>(DecodeError::ChecksumFailed)) == (
            spec_frame_ok(line@) && spec_checksum_rejected(bytes, df, bits, two_bit_fix))
            &&& (r == Err::<DecodedMessage, DecodeError>(DecodeError::AddressUnconfirmed)) == (
            spec_frame_ok(line@) && correct::is_ap_format(df) && !cache::spec_cache_lookup(
                old(icao_cache)@,
                correct::spec_ap_address(bytes, bits),
                now,
            ))
            &&& spec_frame_ok(line@) && !correct::is_ap_format(df) && checksum::valid_frame(
                bytes,
                bits,
            ) ==> (r matches Ok(m) && m.crcok && m.corrected == Corrected::Untouched && m.msg@
                == bytes)
            &&& r is Err ==> final(icao_cache)@ == old(icao_cache)@
            &&& r matches Ok(m) ==> {
                &&& spec_frame_ok(line@)
                &&& m.msgtype == df
                &&& m.msgbits == frame::spec_message_len(df)
                &&& m.crcok
                &&& m.msg@.len() == bytes.len()
                &&& m.corrected == Corrected::Untouched ==> m.msg@ == bytes
                &&& m.corrected matches Corrected::OneBit(j) ==> m.msg@ == correct::flip_bit(
                    bytes,
                    j as int,
                ) && checksum::valid_frame(m.msg@, bits) && (df == 11 || df == 17)
                &&& m.corrected matches Corrected::TwoBits(j, i) ==> m.msg@ == correct::flip_bit(
                    correct::flip_bit(bytes, j as int),
                    i as int,
                ) && checksum::valid_frame(m.msg@, bits) && df == 17 && two_bit_fix
                &&& (df == 11 || df == 17) ==> m.aa1 == m.msg@[1] && m.aa2 == m.msg@[2] && m.aa3
                    == m.msg@[3] && final(icao_cache)@ == cache::spec_cache_insert(
                    old(icao_cache)@,
                    m.spec_address(),
                    now,
                )
                &&& !(df == 11 || df == 17) ==> final(icao_cache)@ == old(icao_cache)@
                &&& correct::is_ap_format(df) ==> m.corrected == Corrected::Untouched && m.msg@
                    == bytes && m.spec_address() == correct::spec_ap_address(bytes, bits)
                &&& (df == 0 || df == 4 || df == 16 || df == 20) ==> m.altitude
                    == fields::spec_ac13_altitude(m.msg@) && m.unit == (if fields::spec_ac13_m_bit(
                    m.msg@,
                ) {
                    AltitudeUnit::Meters
                } else {
                    AltitudeUnit::Feet
                })
                &&& (df == 5 || df == 21) ==> m.identity == fields::spec_squawk(m.msg@)
                &&& df == 17 ==> {
                    &&& m.metype == m.msg@[4] >> 3
                    &&& m.mesub == m.msg@[4] & 7
                    &&& 1 <= m.metype <= 4 ==> m.flight@ == fields::spec_callsign(m.msg@)
                    &&& 9 <= m.metype <= 18 ==> m.altitude == fields::spec_ac12_altitude(m.msg@)
                        && m.unit == AltitudeUnit::Feet && m.fflag == fields::spec_cpr_fflag(m.msg@)
                        && m.raw_latitude
                        == fields::spec_cpr_lat(m.msg@) && m.raw_longitude == fields::spec_cpr_lon(
                        m.msg@,
                    ) && m.raw_latitude < 131072 && m.raw_longitude < 131072
                    &&& m.metype == 19 && (m.mesub == 1 || m.mesub == 2) ==> m.ew_dir
                        == fields::spec_ew_dir(m.msg@) && m.ew_velocity == fields::spec_ew_velocity(
                        m.msg@,
                    ) && m.ns_dir == fields::spec_ns_dir(m.msg@) && m.ns_velocity
                        == fields::spec_ns_velocity(m.msg@) && m.velocity * m.velocity
                        <= m.ew_velocity * m.ew_velocity + m.ns_velocity * m.ns_velocity < (
                    m.velocity + 1) * (m.velocity + 1)
                    &&& m.metype == 19 && (m.mesub == 3 || m.mesub == 4) ==> m.heading_is_valid
                        == fields::spec_heading_valid(m.msg@) && m.heading
                        == fields::spec_heading_raw(m.msg@) as u32 * 360 / 128
                }
            }
        }),
{
    let msg = frame::msg_to_bytes(line);
    if msg.len() < 1 {
        return Err(DecodeError::MalformedFrame);
    }
    let df = frame::get_downlink_code(&msg);
    let bits = frame::modes_message_len_by_id(df);
    if msg.len() < bits / 8 {
        return Err(DecodeError::MalformedFrame);
    }
    let mut msg = msg;
    let ghost bytes0 = msg@;
    let crc_computed = checksum::modes_checksum(&msg, bits);
    let parity = checksum::extract_parity(&msg, bits);
    let mut crcok = crc_computed == parity;
    let mut corrected = Corrected::Untouched;
    if !crcok && (df == 11 || df == 17) {
        let f = correct::fix_single_bit_errors(&mut msg, bits);
        if f >= 0 {
            proof {
                assert(correct::single_fix_at(bytes0, bits as int, f as int));
                assert(correct::spec_single_fixable(bytes0, bits as int));
            }
            crcok = true;
            corrected = Corrected::OneBit(f as u8);
        } else {
            proof {
                assert(forall|j: int|
                    0 <= j < bits ==> !correct::single_fix_at(bytes0, bits as int, j));
                assert(!correct::spec_single_fixable(bytes0, bits as int));
            }
            if two_bit_fix && df == 17 {
                let f2 = correct::fix_two_bits_errors(&mut msg, bits);
                if f2 >= 0 {
                    proof {
                        assert(correct::pair_fix_at(
                            bytes0,
                            bits as int,
                            f2 as int % 256,
                            f2 as int / 256,
                        ));
                        assert(correct::spec_pair_fixable(bytes0, bits as int));
                    }
                    crcok = true;
                    let jj = (f2 % 256) as u8;
                    let ii = (f2 / 256) as u8;
                    corrected = Corrected::TwoBits(jj, ii);
                } else {
                    proof {
                        assert(forall|j: int, i: int|
                            0 <= j < i < bits ==> !correct::pair_fix_at(bytes0, bits as int, j, i));
                        assert(!correct::spec_pair_fixable(bytes0, bits as int));
                    }
                }
            }
        }
    }
    let mut mm = DecodedMessage {
        msg: Vec::new(),
        msgtype: df,
        msgbits: bits,
        crcok,
        corrected,
        aa1: 0,
        aa2: 0,
        aa3: 0,
        metype: 0,
        mesub: 0,
        fflag: false,
        raw_latitude: 0,
        raw_longitude: 0,
        altitude: 0,
        unit: AltitudeUnit::Feet,
        identity: 0,
        flight: Vec::new(),
        ew_dir: 0,
        ew_velocity: 0,
        ns_dir: 0,
        ns_velocity: 0,
        velocity: 0,
        heading: 0,
        heading_is_valid: false,
    };
    if df == 11 || df == 17 {
        if !crcok {
            return Err(DecodeError::ChecksumFailed);
        }
        mm.aa1 = msg[1];
        mm.aa2 = msg[2];
        mm.aa3 = msg[3];
        let addr = mm.address();
        cache::add_recently_seen_icaoaddr(addr, icao_cache, now);
    } else if df == 0 || df == 4 || df == 5 || df == 16 || df == 20 || df == 21 || df == 24 {
        let confirmed = correct::brute_force_ap(&msg, &mut mm, icao_cache, now);
        if !confirmed {
            return Err(DecodeError::AddressUnconfirmed);
        }
        mm.crcok = true;
        proof {
            checksum::lemma_checksum_upto_bound(bytes0, bits as int, bits as int);
            let b2 = bytes0[bits as int / 8 - 3];
            let b1 = bytes0[bits as int / 8 - 2];
            let b0 = bytes0[bits as int / 8 - 1];
            assert(((b2 as u32) << 16) | ((b1 as u32) << 8) | (b0 as u32) < 0x1000000)
                by (bit_vector);
            let c = checksum::spec_checksum(bytes0, bits as int);
            let p = checksum::extracted_parity(bytes0, bits as int);
            assert(c < 0x1000000 && p < 0x1000000 ==> p ^ c < 0x1000000) by (bit_vector);
            let x = correct::spec_ap_address(bytes0, bits as int);
            assert(x < 0x1000000 ==> (((((x >> 16) & 0xff) as u8) as u32) << 16) | (((((x >> 8)
                & 0xff) as u8) as u32) << 8) | (((x & 0xff) as u8) as u32) == x) by (bit_vector);
        }
    } else {
        if !crcok {
            return Err(DecodeError::ChecksumFailed);
        }
    }
    if df == 0 || df == 4 || df == 16 || df == 20 {
        let mut unit = AltitudeUnit::Feet;
        mm.altitude = fields::decode_ac13_field(&msg, &mut unit);
        mm.unit = unit;
    } else if df == 5 || df == 21 {
        mm.identity = fields::decode_identity_field(&msg);
    }
    if df == 17 {
        mm.metype = msg[4] >> 3;
        mm.mesub = msg[4] & 7;
        if 1 <= mm.metype && mm.metype <= 4 {
            mm.flight = fields::decode_callsign(&msg);
        } else if 9 <= mm.metype && mm.metype <= 18 {
            let mut unit = AltitudeUnit::Feet;
            mm.altitude = fields::decode_ac12_field(&msg, &mut unit);
            mm.unit = unit;
            let cpr = fields::decode_cpr_fields(&msg);
            mm.fflag = cpr.0;
            mm.raw_latitude = cpr.1;
            mm.raw_longitude = cpr.2;
        } else if mm.metype == 19 {
            if mm.mesub == 1 || mm.mesub == 2 {
                let v = fields::decode_velocity_components(&msg);
                mm.ew_dir = v.0;
                mm.ew_velocity = v.1;
                mm.ns_dir = v.2;
                mm.ns_velocity = v.3;
                mm.velocity = fields::ground_speed(v.1, v.3);
            } else if mm.mesub == 3 || mm.mesub == 4 {
                let h = fields::decode_heading(&msg);
                mm.heading_is_valid = h.0;
                mm.heading = h.1;
            }
        }
    }
    mm.msg = msg;
    Ok(mm)
}

} // verus!
