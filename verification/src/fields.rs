//! Field decoders: pure functions from a validated frame to its typed
//! fields — altitude, squawk identity, callsign and velocity — each a
//! reassembly of non-contiguous bit groups of the frame.

use vstd::prelude::*;
use crate::AltitudeUnit;

verus! {

/// Metric-unit flag of a 13-bit altitude field.
pub open spec fn spec_ac13_m_bit(msg: Seq<u8>) -> bool {
    msg[3] & 0x40 != 0
}

/// 25-foot-quantization flag of a 13-bit altitude field.
pub open spec fn spec_ac13_q_bit(msg: Seq<u8>) -> bool {
    msg[3] & 0x10 != 0
}

/// The 11-bit count of a 13-bit altitude field, reassembled from bytes 2
/// and 3 with the M and Q bits skipped.
pub open spec fn spec_ac13_n(msg: Seq<u8>) -> u32 {
    (((msg[2] & 31) as u32) << 6) | (((msg[3] & 0x80) as u32) >> 2) | (((msg[3]
        & 0x20) as u32) >> 1) | ((msg[3] & 15) as u32)
}

/// The decoded value of a 13-bit altitude field, in feet: out-of-scope
/// encodings (metric, or not 25-foot-quantized) yield zero.
pub open spec fn spec_ac13_altitude(msg: Seq<u8>) -> int {
    if !spec_ac13_m_bit(msg) && spec_ac13_q_bit(msg) {
        spec_ac13_n(msg) * 25 - 1000
    } else {
        0
    }
}

/// Decodes the 13-bit altitude field of a surveillance or Comm-B frame.
/// With the M bit clear and the Q bit set the altitude is `N*25 - 1000`
/// feet; with both clear the encoding is out of scope and zero is returned;
/// with the M bit set the unit is meters and the value is not decoded.
pub fn decode_ac13_field(message: &Vec<u8>, unit: &mut AltitudeUnit) -> (alt: i32)
    requires
        message@.len() >= 4,
    ensures
        !spec_ac13_m_bit(message@) ==> *final(unit) == AltitudeUnit::Feet,
        spec_ac13_m_bit(message@) ==> *final(unit) == AltitudeUnit::Meters,
        !spec_ac13_m_bit(message@) && spec_ac13_q_bit(message@) ==> alt == spec_ac13_n(message@)
            * 25 - 1000,
        !(!spec_ac13_m_bit(message@) && spec_ac13_q_bit(message@)) ==> alt == 0,
{
    let m_bit = message[3] & 0x40;
    let q_bit = message[3] & 0x10;
    if m_bit == 0 {
        *unit = AltitudeUnit::Feet;
        if q_bit != 0 {
            let n: u32 = (((message[2] & 31) as u32) << 6) | (((message[3] & 0x80) as u32) >> 2) | ((
            (message[3] & 0x20) as u32) >> 1) | ((message[3] & 15) as u32);
            proof {
                let b2 = message@[2];
                let b3 = message@[3];
                assert((((b2 & 31) as u32) << 6) | (((b3 & 0x80) as u32) >> 2) | (((b3
                    & 0x20) as u32) >> 1) | ((b3 & 15) as u32) < 2048) by (bit_vector);
            }
            return (n * 25) as i32 - 1000;
        }
    } else {
        *unit = AltitudeUnit::Meters;
    }
    0
}

/// 25-foot-quantization flag of a 12-bit altitude field.
pub open spec fn spec_ac12_q_bit(msg: Seq<u8>) -> bool {
    msg[5] & 1 != 0
}

/// The 11-bit count of a 12-bit altitude field, reassembled from bytes 5
/// and 6 with the Q bit skipped.
pub open spec fn spec_ac12_n(msg: Seq<u8>) -> u32 {
    (((msg[5] >> 1) as u32) << 4) | (((msg[6] & 0xf0) as u32) >> 4)
}

/// The decoded value of a 12-bit altitude field, in feet: an encoding
/// without the Q bit yields zero.
pub open spec fn spec_ac12_altitude(msg: Seq<u8>) -> int {
    if spec_ac12_q_bit(msg) {
        spec_ac12_n(msg) * 25 - 1000
    } else {
        0
    }
}

/// Decodes the 12-bit altitude field of an extended squitter frame. With
/// the Q bit set the altitude is `N*25 - 1000` feet; otherwise the encoding
/// is out of scope and zero is returned.
pub fn decode_ac12_field(message: &Vec<u8>, unit: &mut AltitudeUnit) -> (alt: i32)
    requires
        message@.len() >= 7,
    ensures
        spec_ac12_q_bit(message@) ==> *final(unit) == AltitudeUnit::Feet && alt == spec_ac12_n(
            message@,
        ) * 25 - 1000,
        !spec_ac12_q_bit(message@) ==> alt == 0 && *final(unit) == *old(unit),
{
    let q_bit = message[5] & 1;
    if q_bit != 0 {
        *unit = AltitudeUnit::Feet;
        let n: u32 = (((message[5] >> 1) as u32) << 4) | (((message[6] & 0xf0) as u32) >> 4);
        proof {
            let b5 = message@[5];
            let b6 = message@[6];
            assert((((b5 >> 1) as u32) << 4) | (((b6 & 0xf0) as u32) >> 4) < 2048) by (bit_vector);
        }
        (n * 25) as i32 - 1000
    } else {
        0
    }
}

/// First 3-bit group of the identity field.
pub open spec fn spec_squawk_a(msg: Seq<u8>) -> u32 {
    ((((msg[3] & 0x80) >> 5) | (msg[2] & 0x02) | ((msg[2] & 0x08) >> 3)) as u32)
}

/// Second 3-bit group of the identity field.
pub open spec fn spec_squawk_b(msg: Seq<u8>) -> u32 {
    ((((msg[3] & 0x02) << 1) | ((msg[3] & 0x08) >> 2) | ((msg[3] & 0x20) >> 5)) as u32)
}

/// Third 3-bit group of the identity field.
pub open spec fn spec_squawk_c(msg: Seq<u8>) -> u32 {
    ((((msg[2] & 0x01) << 2) | ((msg[2] & 0x04) >> 1) | ((msg[2] & 0x10) >> 4)) as u32)
}

/// Fourth 3-bit group of the identity field.
pub open spec fn spec_squawk_d(msg: Seq<u8>) -> u32 {
    ((((msg[3] & 0x01) << 2) | ((msg[3] & 0x04) >> 1) | ((msg[3] & 0x10) >> 4)) as u32)
}

/// The 4-digit squawk code of an identity frame.
pub open spec fn spec_squawk(msg: Seq<u8>) -> u32 {
    (spec_squawk_a(msg) * 1000 + spec_squawk_b(msg) * 100 + spec_squawk_c(msg) * 10
        + spec_squawk_d(msg)) as u32
}

/// Decodes the identity field: four 3-bit groups interleaved over bytes 2
/// and 3, combined into the 4-digit squawk code.
pub fn decode_identity_field(message: &Vec<u8>) -> (squawk: u32)
    requires
        message@.len() >= 4,
    ensures
        squawk == spec_squawk(message@),
        squawk <= 7777,
{
    let b2 = message[2];
    let b3 = message[3];
    let a: u32 = (((b3 & 0x80) >> 5) | (b2 & 0x02) | ((b2 & 0x08) >> 3)) as u32;
    let b: u32 = (((b3 & 0x02) << 1) | ((b3 & 0x08) >> 2) | ((b3 & 0x20) >> 5)) as u32;
    let c: u32 = (((b2 & 0x01) << 2) | ((b2 & 0x04) >> 1) | ((b2 & 0x10) >> 4)) as u32;
    let d: u32 = (((b3 & 0x01) << 2) | ((b3 & 0x04) >> 1) | ((b3 & 0x10) >> 4)) as u32;
    proof {
        let v2 = message@[2];
        let v3 = message@[3];
        assert((((v3 & 0x80) >> 5) | (v2 & 0x02) | ((v2 & 0x08) >> 3)) <= 7) by (bit_vector);
        assert((((v3 & 0x02) << 1) | ((v3 & 0x08) >> 2) | ((v3 & 0x20) >> 5)) <= 7) by (bit_vector);
        assert((((v2 & 0x01) << 2) | ((v2 & 0x04) >> 1) | ((v2 & 0x10) >> 4)) <= 7) by (bit_vector);
        assert((((v3 & 0x01) << 2) | ((v3 & 0x04) >> 1) | ((v3 & 0x10) >> 4)) <= 7) by (bit_vector);
    }
    a * 1000 + b * 100 + c * 10 + d
}

/// The callsign charset: index 0 and every unassigned index draw `#`, 1-26
/// draw the letters, 32 draws `_`, and 48-57 draw the digits.
pub open spec fn ais_char(i: u8) -> u8 {
    if 1 <= i && i <= 26 {
        (64 + i) as u8
    } else if 48 <= i && i <= 57 {
        i
    } else if i == 32 {
        95
    } else {
        35
    }
}

/// Looks up one callsign symbol in the charset.
pub fn ais_char_exec(i: u8) -> (c: u8)
    ensures
        c == ais_char(i),
{
    if 1 <= i && i <= 26 {
        64 + i
    } else if 48 <= i && i <= 57 {
        i
    } else if i == 32 {
        95
    } else {
        35
    }
}

/// The eight 6-bit charset indices of a callsign frame, two adjacent bytes
/// contributing to each.
pub open spec fn spec_callsign_index(msg: Seq<u8>, k: int) -> u8 {
    if k == 0 {
        msg[5] >> 2
    } else if k == 1 {
        ((msg[5] & 3) << 4) | (msg[6] >> 4)
    } else if k == 2 {
        ((msg[6] & 15) << 2) | (msg[7] >> 6)
    } else if k == 3 {
        msg[7] & 63
    } else if k == 4 {
        msg[8] >> 2
    } else if k == 5 {
        ((msg[8] & 3) << 4) | (msg[9] >> 4)
    } else if k == 6 {
        ((msg[9] & 15) << 2) | (msg[10] >> 6)
    } else {
        msg[10] & 63
    }
}

/// The eight callsign symbols of an identification frame, padding included.
pub open spec fn spec_callsign(msg: Seq<u8>) -> Seq<u8> {
    Seq::new(8, |k: int| ais_char(spec_callsign_index(msg, k)))
}

/// Decodes the eight-character callsign of an identification frame: each
/// character is a 6-bit index into the charset, reassembled from two
/// adjacent bytes. Padding symbols are kept; the consumer strips them.
pub fn decode_callsign(message: &Vec<u8>) -> (flight: Vec<u8>)
    requires
        message@.len() >= 11,
    ensures
        flight@ == spec_callsign(message@),
        flight@.len() == 8,
{
    let mut flight: Vec<u8> = Vec::new();
    flight.push(ais_char_exec(message[5] >> 2));
    flight.push(ais_char_exec(((message[5] & 3) << 4) | (message[6] >> 4)));
    flight.push(ais_char_exec(((message[6] & 15) << 2) | (message[7] >> 6)));
    flight.push(ais_char_exec(message[7] & 63));
    flight.push(ais_char_exec(message[8] >> 2));
    flight.push(ais_char_exec(((message[8] & 3) << 4) | (message[9] >> 4)));
    flight.push(ais_char_exec(((message[9] & 15) << 2) | (message[10] >> 6)));
    flight.push(ais_char_exec(message[10] & 63));
    proof {
        assert(flight@ =~= spec_callsign(message@));
    }
    flight
}

/// Whether a callsign byte is padding rather than content: the unassigned
/// charset symbol, the separator, space or NUL.
pub open spec fn is_callsign_padding(c: u8) -> bool {
    c == 35 || c == 95 || c == 32 || c == 0
}

/// The callsign with every padding symbol removed.
pub open spec fn spec_stripped_callsign(s: Seq<u8>) -> Seq<u8>
    decreases s.len(),
{
    if s.len() == 0 {
        Seq::empty()
    } else if is_callsign_padding(s[0]) {
        spec_stripped_callsign(s.drop_first())
    } else {
        seq![s[0]] + spec_stripped_callsign(s.drop_first())
    }
}

proof fn lemma_stripped_callsign_push(s: Seq<u8>, x: u8)
    ensures
        spec_stripped_callsign(s.push(x)) == spec_stripped_callsign(s) + (if is_callsign_padding(x) {
            Seq::<u8>::empty()
        } else {
            seq![x]
        }),
    decreases s.len(),
{
    let sx = s.push(x);
    if s.len() == 0 {
        assert(sx.drop_first() =~= Seq::<u8>::empty());
        assert(spec_stripped_callsign(Seq::<u8>::empty()) =~= Seq::<u8>::empty());
        if is_callsign_padding(x) {
            assert(spec_stripped_callsign(sx) =~= spec_stripped_callsign(s)
                + Seq::<u8>::empty());
        } else {
            assert(spec_stripped_callsign(sx) =~= spec_stripped_callsign(s) + seq![x]);
        }
    } else {
        lemma_stripped_callsign_push(s.drop_first(), x);
        assert(sx.drop_first() =~= s.drop_first().push(x));
        assert(sx[0] == s[0]);
        if is_callsign_padding(x) {
            assert(spec_stripped_callsign(sx) =~= spec_stripped_callsign(s)
                + Seq::<u8>::empty());
        } else {
            assert(spec_stripped_callsign(sx) =~= spec_stripped_callsign(s) + seq![x]);
        }
    }
}

/// Strips the padding symbols out of a decoded callsign, keeping the
/// content characters in order.
pub fn strip_callsign_padding(flight: &Vec<u8>) -> (text: Vec<u8>)
    ensures
        text@ == spec_stripped_callsign(flight@),
{
    let mut text: Vec<u8> = Vec::new();
    let mut i: usize = 0;
    while i < flight.len()
        invariant
            i <= flight@.len(),
            text@ == spec_stripped_callsign(flight@.take(i as int)),
        decreases flight@.len() - i,
    {
        let c = flight[i];
        proof {
            lemma_stripped_callsign_push(flight@.take(i as int), flight@[i as int]);
            assert(flight@.take(i as int + 1) =~= flight@.take(i as int).push(flight@[i as int]));
        }
        if !(c == 35 || c == 95 || c == 32 || c == 0) {
            text.push(c);
        }
        i += 1;
    }
    proof {
        assert(flight@.take(flight@.len() as int) =~= flight@);
    }
    text
}

/// Rounded-down square root: the greatest integer whose square does not
/// exceed `n`.
pub fn isqrt(n: u32) -> (r: u32)
    ensures
        r * r <= n < (r + 1) * (r + 1),
{
    let mut r: u32 = 0;
    loop
        invariant_except_break
            r * r <= n,
            r <= 65535,
        ensures
            r * r <= n < (r + 1) * (r + 1),
        decreases 65536 - r,
    {
        proof {
            assert(((r as u64) + 1) * ((r as u64) + 1) < 0x200000000) by (nonlinear_arith)
                requires
                    r <= 65535,
            ;
        }
        let next = ((r as u64) + 1) * ((r as u64) + 1);
        if next > n as u64 {
            break;
        }
        proof {
            assert(((r as u64) + 1) * ((r as u64) + 1) <= n ==> r + 1 <= 65535) by (
            nonlinear_arith)
                requires
                    n < 0x100000000,
                    r <= 65535,
            ;
        }
        r = r + 1;
    }
    r
}

/// East-west direction bit of a velocity frame.
pub open spec fn spec_ew_dir(msg: Seq<u8>) -> u8 {
    (msg[5] & 4) >> 2
}

/// East-west 10-bit velocity magnitude of a velocity frame.
pub open spec fn spec_ew_velocity(msg: Seq<u8>) -> u16 {
    ((((msg[5] & 3) as u16) << 8) | (msg[6] as u16))
}

/// North-south direction bit of a velocity frame.
pub open spec fn spec_ns_dir(msg: Seq<u8>) -> u8 {
    (msg[7] & 0x80) >> 7
}

/// North-south 10-bit velocity magnitude of a velocity frame.
pub open spec fn spec_ns_velocity(msg: Seq<u8>) -> u16 {
    ((((msg[7] & 0x7f) as u16) << 3) | (((msg[8] & 0xe0) as u16) >> 5))
}

/// Decodes the two signed velocity components of a ground-velocity frame:
/// a direction bit and a 10-bit magnitude each, east-west and north-south.
pub fn decode_velocity_components(message: &Vec<u8>) -> (v: (u8, u16, u8, u16))
    requires
        message@.len() >= 9,
    ensures
        v.0 == spec_ew_dir(message@),
        v.1 == spec_ew_velocity(message@),
        v.2 == spec_ns_dir(message@),
        v.3 == spec_ns_velocity(message@),
        v.1 < 1024 && v.3 < 1024,
{
    let ew_dir = (message[5] & 4) >> 2;
    let ew_velocity = (((message[5] & 3) as u16) << 8) | (message[6] as u16);
    let ns_dir = (message[7] & 0x80) >> 7;
    let ns_velocity = (((message[7] & 0x7f) as u16) << 3) | (((message[8] & 0xe0) as u16) >> 5);
    proof {
        let b5 = message@[5];
        let b6 = message@[6];
        let b7 = message@[7];
        let b8 = message@[8];
        assert(((((b5 & 3) as u16) << 8) | (b6 as u16)) < 1024) by (bit_vector);
        assert(((((b7 & 0x7f) as u16) << 3) | (((b8 & 0xe0) as u16) >> 5)) < 1024) by (bit_vector);
    }
    (ew_dir, ew_velocity, ns_dir, ns_velocity)
}

/// Computes the ground speed from the two velocity magnitudes: the
/// rounded-down length of the velocity vector.
pub fn ground_speed(ew_velocity: u16, ns_velocity: u16) -> (speed: u32)
    requires
        ew_velocity < 1024,
        ns_velocity < 1024,
    ensures
        speed * speed <= ew_velocity * ew_velocity + ns_velocity * ns_velocity < (speed + 1) * (
        speed + 1),
{
    let ew = ew_velocity as u32;
    let ns = ns_velocity as u32;
    proof {
        assert(ew < 1024 && ns < 1024 ==> ew * ew + ns * ns < 0x80000000) by (nonlinear_arith);
    }
    isqrt(ew * ew + ns * ns)
}

/// Heading-valid bit of a heading frame.
pub open spec fn spec_heading_valid(msg: Seq<u8>) -> bool {
    msg[5] & 4 != 0
}

/// Raw 7-bit heading of a heading frame.
pub open spec fn spec_heading_raw(msg: Seq<u8>) -> u8 {
    ((msg[5] & 3) << 5) | (msg[6] >> 3)
}

/// Decodes the heading of an airspeed frame: a 7-bit value scaled by
/// 360/128 and rounded down to whole degrees, with its validity bit.
pub fn decode_heading(message: &Vec<u8>) -> (h: (bool, u16))
    requires
        message@.len() >= 7,
    ensures
        h.0 == spec_heading_valid(message@),
        h.1 == spec_heading_raw(message@) as u32 * 360 / 128,
        h.1 < 360,
{
    let valid = message[5] & 4 != 0;
    let raw: u8 = ((message[5] & 3) << 5) | (message[6] >> 3);
    proof {
        let b5 = message@[5];
        let b6 = message@[6];
        assert((((b5 & 3) << 5) | (b6 >> 3)) < 128) by (bit_vector);
    }
    let heading: u16 = ((raw as u32) * 360 / 128) as u16;
    (valid, heading)
}

/// Odd/even parity flag of a position frame.
pub open spec fn spec_cpr_fflag(msg: Seq<u8>) -> bool {
    msg[6] & 4 != 0
}

/// 17-bit latitude zone count of a position frame.
pub open spec fn spec_cpr_lat(msg: Seq<u8>) -> u32 {
    (((msg[6] & 3) as u32) << 15) | ((msg[7] as u32) << 7) | ((msg[8] as u32) >> 1)
}

/// 17-bit longitude zone count of a position frame.
pub open spec fn spec_cpr_lon(msg: Seq<u8>) -> u32 {
    (((msg[8] & 1) as u32) << 16) | ((msg[9] as u32) << 8) | (msg[10] as u32)
}

/// Extracts the raw compact position report of an airborne-position frame:
/// the parity flag and the two 17-bit zone counts, each spread over bytes 6
/// to 10.
pub fn decode_cpr_fields(message: &Vec<u8>) -> (r: (bool, u32, u32))
    requires
        message@.len() >= 11,
    ensures
        r.0 == spec_cpr_fflag(message@),
        r.1 == spec_cpr_lat(message@),
        r.2 == spec_cpr_lon(message@),
        r.1 < 0x20000 && r.2 < 0x20000,
{
    let fflag = message[6] & 4 != 0;
    let raw_latitude = (((message[6] & 3) as u32) << 15) | ((message[7] as u32) << 7) | ((
    message[8] as u32) >> 1);
    let raw_longitude = (((message[8] & 1) as u32) << 16) | ((message[9] as u32) << 8) | (
    message[10] as u32);
    proof {
        let b6 = message@[6];
        let b7 = message@[7];
        let b8 = message@[8];
        let b9 = message@[9];
        let b10 = message@[10];
        assert(((((b6 & 3) as u32) << 15) | ((b7 as u32) << 7) | ((b8 as u32) >> 1)) < 0x20000)
            by (bit_vector);
        assert(((((b8 & 1) as u32) << 16) | ((b9 as u32) << 8) | (b10 as u32)) < 0x20000)
            by (bit_vector);
    }
    (fflag, raw_latitude, raw_longitude)
}

} // verus!
