//! Error correction: implicit-address recovery and brute-force bit-flip
//! repair.
//!
//! Formats 0, 4, 5, 16, 20, 21 and 24 do not transmit the sender's address;
//! they XOR it into the parity field instead. Recovery XORs the computed
//! checksum back out of the trailing bytes and accepts the candidate address
//! only if the recency cache has seen it, trading completeness for a low
//! false-attribution rate.
//!
//! For formats that transmit the checksum directly, a failed comparison can
//! be repaired by flipping one bit (or, as a fallback, two bits) and
//! retrying: the code is linear, so a flip toggles the checksum by a fixed
//! per-position contribution, and an exhaustive scan finds the first
//! position whose flip makes frame and parity agree.

use crate::cache::spec_cache_lookup;
use crate::checksum::extract_parity;
use crate::checksum::extracted_parity;
use crate::checksum::modes_checksum;
use crate::checksum::spec_checksum;
use crate::checksum::valid_frame;
use crate::DecodedMessage;
use vstd::prelude::*;

verus! {

/// The frame with bit `j` flipped; bits are counted from the most
/// significant bit of byte 0.
pub open spec fn flip_bit(msg: Seq<u8>, j: int) -> Seq<u8> {
    msg.update(j / 8, msg[j / 8] ^ (1u8 << ((7 - j % 8) as u8)))
}

/// Whether flipping bit `j` alone turns the frame into a checksum-valid one.
pub open spec fn single_fix_at(msg: Seq<u8>, bits: int, j: int) -> bool {
    valid_frame(flip_bit(msg, j), bits)
}

/// Whether flipping bits `j` and `i` turns the frame into a checksum-valid
/// one.
pub open spec fn pair_fix_at(msg: Seq<u8>, bits: int, j: int, i: int) -> bool {
    valid_frame(flip_bit(flip_bit(msg, j), i), bits)
}

/// Whether some single bit flip turns the frame into a checksum-valid one.
pub open spec fn spec_single_fixable(msg: Seq<u8>, bits: int) -> bool {
    exists|j: int| 0 <= j < bits && single_fix_at(msg, bits, j)
}

/// Whether some pair of bit flips turns the frame into a checksum-valid
/// one.
pub open spec fn spec_pair_fixable(msg: Seq<u8>, bits: int) -> bool {
    exists|j: int, i: int| 0 <= j < i < bits && pair_fix_at(msg, bits, j, i)
}

/// Flipping the same bit twice restores the frame.
pub proof fn lemma_flip_involution(msg: Seq<u8>, j: int)
    requires
        0 <= j,
        j / 8 < msg.len(),
    ensures
        flip_bit(flip_bit(msg, j), j) == msg,
{
    let m = msg[j / 8];
    let mask = 1u8 << ((7 - j % 8) as u8);
    assert((m ^ mask) ^ mask == m) by (bit_vector);
    assert(flip_bit(flip_bit(msg, j), j) =~= msg);
}

/// Flips bit `j` of the frame in place.
fn flip_bit_exec(message: &mut Vec<u8>, j: usize)
    requires
        j / 8 < old(message)@.len(),
    ensures
        final(message)@ == flip_bit(old(message)@, j as int),
        final(message)@.len() == old(message)@.len(),
{
    let byte = j / 8;
    let mask: u8 = 1u8 << ((7 - j % 8) as u8);
    let v = message[byte] ^ mask;
    message.set(byte, v);
}

/// Tries to repair a frame that fails its checksum by flipping one bit.
/// Scanning positions in order, the first flip under which the recomputed
/// checksum matches the frame's own parity bytes is kept, and its position
/// returned; if no position works the frame is left unchanged and -1
/// returned.
pub fn fix_single_bit_errors(message: &mut Vec<u8>, bits: usize) -> (fixed: i8)
    requires
        bits == 56 || bits == 112,
        old(message)@.len() >= bits / 8,
    ensures
        final(message)@.len() == old(message)@.len(),
        fixed >= -1,
        fixed == -1 ==> final(message)@ == old(message)@ && forall|j: int|
            0 <= j < bits ==> !single_fix_at(old(message)@, bits as int, j),
        fixed >= 0 ==> 0 <= fixed < bits && final(message)@ == flip_bit(
            old(message)@,
            fixed as int,
        ) && valid_frame(final(message)@, bits as int) && forall|j: int|
            0 <= j < fixed ==> !single_fix_at(old(message)@, bits as int, j),
{
    let mut j: usize = 0;
    while j < bits
        invariant
            bits == 56 || bits == 112,
            message@ == old(message)@,
            message@.len() >= bits / 8,
            j <= bits,
            forall|j2: int| 0 <= j2 < j ==> !single_fix_at(old(message)@, bits as int, j2),
        decreases bits - j,
    {
        flip_bit_exec(message, j);
        let crc1 = extract_parity(message, bits);
        let crc2 = modes_checksum(message, bits);
        if crc1 == crc2 {
            return j as i8;
        }
        flip_bit_exec(message, j);
        proof {
            lemma_flip_involution(old(message)@, j as int);
        }
        j += 1;
    }
    -1
}

/// Tries to repair a frame by flipping two distinct bits, scanning ordered
/// pairs `(j, i)` with `j < i` lexicographically. The first pair under which
/// the recomputed checksum matches the frame's parity bytes is kept, and the
/// two positions returned packed as `j + 256*i`; if no pair works the frame
/// is left unchanged and -1 returned.
pub fn fix_two_bits_errors(message: &mut Vec<u8>, bits: usize) -> (fixed: i32)
    requires
        bits == 56 || bits == 112,
        old(message)@.len() >= bits / 8,
    ensures
        final(message)@.len() == old(message)@.len(),
        fixed >= -1,
        fixed == -1 ==> final(message)@ == old(message)@ && forall|j: int, i: int|
            0 <= j < i < bits ==> !pair_fix_at(old(message)@, bits as int, j, i),
        fixed >= 0 ==> ({
            let jj = fixed as int % 256;
            let ii = fixed as int / 256;
            &&& 0 <= jj < ii < bits
            &&& final(message)@ == flip_bit(flip_bit(old(message)@, jj), ii)
            &&& valid_frame(final(message)@, bits as int)
            &&& forall|j2: int, i2: int|
                0 <= j2 < i2 < bits && (j2 < jj || (j2 == jj && i2 < ii)) ==> !pair_fix_at(
                    old(message)@,
                    bits as int,
                    j2,
                    i2,
                )
        }),
{
    let mut j: usize = 0;
    while j < bits
        invariant
            bits == 56 || bits == 112,
            message@ == old(message)@,
            message@.len() >= bits / 8,
            j <= bits,
            forall|j2: int, i2: int|
                0 <= j2 < j && j2 < i2 < bits ==> !pair_fix_at(old(message)@, bits as int, j2, i2),
        decreases bits - j,
    {
        flip_bit_exec(message, j);
        let mut i: usize = j + 1;
        while i < bits
            invariant
                bits == 56 || bits == 112,
                j < i,
                i <= bits,
                old(message)@.len() >= bits / 8,
                message@ == flip_bit(old(message)@, j as int),
                message@.len() == old(message)@.len(),
                forall|j2: int, i2: int|
                    0 <= j2 < j && j2 < i2 < bits ==> !pair_fix_at(
                        old(message)@,
                        bits as int,
                        j2,
                        i2,
                    ),
                forall|i2: int|
                    j < i2 < i ==> !pair_fix_at(old(message)@, bits as int, j as int, i2),
            decreases bits - i,
        {
            flip_bit_exec(message, i);
            let crc1 = extract_parity(message, bits);
            let crc2 = modes_checksum(message, bits);
            if crc1 == crc2 {
                let packed = j | (i << 8);
                proof {
                    let ju = j;
                    let iu = i;
                    assert(ju < 112 && iu < 112 ==> (ju | (iu << 8)) == ju + iu * 256)
                        by (bit_vector);
                }
                return packed as i32;
            }
            flip_bit_exec(message, i);
            proof {
                lemma_flip_involution(flip_bit(old(message)@, j as int), i as int);
            }
            i += 1;
        }
        flip_bit_exec(message, j);
        proof {
            lemma_flip_involution(old(message)@, j as int);
        }
        j += 1;
    }
    -1
}

/// How flipping one bit of the frame shows up in the checksum comparison:
/// a data-bit flip toggles the computed checksum by the bit's table
/// contribution, a parity-bit flip toggles the stored parity value by one
/// bit.
pub open spec fn spec_flip_syndrome(bits: int, j: int) -> u32 {
    if j < bits - 24 {
        crate::checksum::table_entry(j + crate::checksum::checksum_offset(bits))
    } else {
        1u32 << ((bits - 1 - j) as u32)
    }
}

proof fn lemma_flip_bit_reads(msg: Seq<u8>, j: int, j2: int)
    requires
        0 <= j,
        j / 8 < msg.len(),
        0 <= j2,
        j2 / 8 < msg.len(),
    ensures
        crate::checksum::frame_bit(flip_bit(msg, j), j2) == (if j2 == j {
            !crate::checksum::frame_bit(msg, j2)
        } else {
            crate::checksum::frame_bit(msg, j2)
        }),
{
    let b = msg[j / 8];
    let s = (7 - j % 8) as u8;
    let s2 = (7 - j2 % 8) as u8;
    if j2 == j {
        assert(s < 8 ==> ((((b ^ (1u8 << s)) & (1u8 << s)) != 0) == !((b & (1u8 << s)) != 0)))
            by (bit_vector);
    } else if j2 / 8 == j / 8 {
        vstd::arithmetic::div_mod::lemma_fundamental_div_mod(j, 8);
        vstd::arithmetic::div_mod::lemma_fundamental_div_mod(j2, 8);
        assert(j % 8 != j2 % 8);
        assert(s < 8 && s2 < 8 && s != s2 ==> ((((b ^ (1u8 << s)) & (1u8 << s2)) != 0) == ((b & (
        1u8 << s2)) != 0))) by (bit_vector);
    } else {
        assert(flip_bit(msg, j)[j2 / 8] == msg[j2 / 8]);
    }
}

proof fn lemma_checksum_flip(msg: Seq<u8>, bits: int, j: int, n: int)
    requires
        bits == 56 || bits == 112,
        msg.len() >= bits / 8,
        0 <= j < bits,
        0 <= n <= bits,
    ensures
        crate::checksum::checksum_upto(flip_bit(msg, j), bits, n) == (if j < n {
            crate::checksum::checksum_upto(msg, bits, n) ^ crate::checksum::table_entry(
                j + crate::checksum::checksum_offset(bits),
            )
        } else {
            crate::checksum::checksum_upto(msg, bits, n)
        }),
    decreases n,
{
    if n > 0 {
        lemma_checksum_flip(msg, bits, j, n - 1);
        assert((n - 1) / 8 < bits / 8 && j / 8 < bits / 8) by {
            vstd::arithmetic::div_mod::lemma_fundamental_div_mod(n - 1, 8);
            vstd::arithmetic::div_mod::lemma_fundamental_div_mod(j, 8);
            vstd::arithmetic::div_mod::lemma_fundamental_div_mod(bits, 8);
        }
        lemma_flip_bit_reads(msg, j, n - 1);
        let a = crate::checksum::checksum_upto(msg, bits, n - 1);
        let t = crate::checksum::table_entry(j + crate::checksum::checksum_offset(bits));
        let u = crate::checksum::table_entry(n - 1 + crate::checksum::checksum_offset(bits));
        if n - 1 == j {
            if crate::checksum::frame_bit(msg, j) {
                assert((a ^ u) ^ u == a ^ 0u32) by (bit_vector);
            }
            assert(a ^ 0u32 == a) by (bit_vector);
        } else if j < n - 1 {
            assert(((a ^ t) ^ u) == ((a ^ u) ^ t)) by (bit_vector);
            assert(((a ^ t) ^ 0u32) == ((a ^ 0u32) ^ t)) by (bit_vector);
        }
    }
}

proof fn lemma_parity_flip(msg: Seq<u8>, bits: int, j: int)
    requires
        bits == 56 || bits == 112,
        msg.len() >= bits / 8,
        0 <= j < bits,
    ensures
        extracted_parity(flip_bit(msg, j), bits) == (if j >= bits - 24 {
            extracted_parity(msg, bits) ^ (1u32 << ((bits - 1 - j) as u32))
        } else {
            extracted_parity(msg, bits)
        }),
{
    let ll = bits / 8;
    let k = j / 8;
    let s = (7 - j % 8) as u8;
    vstd::arithmetic::div_mod::lemma_fundamental_div_mod(j, 8);
    let m2 = msg[ll - 3];
    let m1 = msg[ll - 2];
    let m0 = msg[ll - 1];
    if j < bits - 24 {
        assert(k < ll - 3);
    } else {
        assert(k == ll - 3 || k == ll - 2 || k == ll - 1);
        if k == ll - 3 {
            assert(bits - 1 - j == 16 + s);
            assert(s < 8 ==> (((((m2 ^ (1u8 << s)) as u32) << 16) | ((m1 as u32) << 8) | (
            m0 as u32)) == ((((m2 as u32) << 16) | ((m1 as u32) << 8) | (m0 as u32)) ^ (1u32 << ((
            16 + s) as u32))))) by (bit_vector);
        } else if k == ll - 2 {
            assert(bits - 1 - j == 8 + s);
            assert(s < 8 ==> ((((m2 as u32) << 16) | (((m1 ^ (1u8 << s)) as u32) << 8) | (
            m0 as u32)) == ((((m2 as u32) << 16) | ((m1 as u32) << 8) | (m0 as u32)) ^ (1u32 << ((8
                + s) as u32))))) by (bit_vector);
        } else {
            assert(bits - 1 - j == s);
            assert(s < 8 ==> ((((m2 as u32) << 16) | ((m1 as u32) << 8) | ((m0 ^ (1u8
                << s)) as u32)) == ((((m2 as u32) << 16) | ((m1 as u32) << 8) | (m0 as u32)) ^ (
            1u32 << (s as u32))))) by (bit_vector);
        }
    }
}

proof fn lemma_flip_validity(msg: Seq<u8>, bits: int, j: int)
    requires
        bits == 56 || bits == 112,
        msg.len() >= bits / 8,
        0 <= j < bits,
    ensures
        valid_frame(flip_bit(msg, j), bits) == (spec_checksum(msg, bits) ^ extracted_parity(
            msg,
            bits,
        ) == spec_flip_syndrome(bits, j)),
{
    lemma_checksum_flip(msg, bits, j, bits);
    lemma_parity_flip(msg, bits, j);
    let cs = spec_checksum(msg, bits);
    let ep = extracted_parity(msg, bits);
    let t = crate::checksum::table_entry(j + crate::checksum::checksum_offset(bits));
    if j < bits - 24 {
        assert(((cs ^ t == ep) == (cs ^ ep == t))) by (bit_vector);
    } else {
        assert(crate::checksum::table_entry(j + crate::checksum::checksum_offset(bits)) == 0);
        let mk = 1u32 << ((bits - 1 - j) as u32);
        assert(((cs ^ 0u32 == ep ^ mk) == (cs ^ ep == mk))) by (bit_vector);
    }
}

proof fn lemma_syndrome_nonzero(bits: int, j: int)
    requires
        bits == 56 || bits == 112,
        0 <= j < bits,
    ensures
        spec_flip_syndrome(bits, j) != 0,
{
    if j < bits - 24 {
        let k = 87 - (j + crate::checksum::checksum_offset(bits));
        crate::checksum::lemma_crc_power_nonzero(k as nat);
    } else {
        let m = (bits - 1 - j) as u32;
        assert(m < 24 ==> 1u32 << m != 0) by (bit_vector);
    }
}

proof fn lemma_syndrome_distinct(bits: int, j: int, j2: int)
    requires
        bits == 56 || bits == 112,
        0 <= j < bits,
        0 <= j2 < bits,
        j != j2,
    ensures
        spec_flip_syndrome(bits, j) != spec_flip_syndrome(bits, j2),
{
    let off = crate::checksum::checksum_offset(bits);
    if j < bits - 24 && j2 < bits - 24 {
        let a = 87 - (j + off);
        let b = 87 - (j2 + off);
        if a < b {
            crate::checksum::lemma_crc_power_injective(a as nat, b as nat);
        } else {
            crate::checksum::lemma_crc_power_injective(b as nat, a as nat);
        }
    } else if j < bits - 24 {
        crate::checksum::lemma_crc_power_not_pow2((87 - (j + off)) as nat, (bits - 1 - j2) as nat);
    } else if j2 < bits - 24 {
        crate::checksum::lemma_crc_power_not_pow2((87 - (j2 + off)) as nat, (bits - 1 - j) as nat);
    } else {
        let m1 = (bits - 1 - j) as u32;
        let m2 = (bits - 1 - j2) as u32;
        assert(m1 < 24 && m2 < 24 && m1 != m2 ==> 1u32 << m1 != 1u32 << m2) by (bit_vector);
    }
}

/// Single-bit round trip: flipping any one bit of a checksum-valid frame
/// is detected (the frame no longer checks out), and position-order
/// single-bit correction recovers the original frame exactly — the flipped
/// position is the only one whose repair makes the frame valid again, so
/// the scan returns it and restores the frame.
pub proof fn lemma_single_bit_round_trip(msg: Seq<u8>, bits: int, j: int)
    requires
        bits == 56 || bits == 112,
        msg.len() >= bits / 8,
        valid_frame(msg, bits),
        0 <= j < bits,
    ensures
        !valid_frame(flip_bit(msg, j), bits),
        single_fix_at(flip_bit(msg, j), bits, j),
        flip_bit(flip_bit(msg, j), j) == msg,
        forall|j2: int| 0 <= j2 < bits && j2 != j ==> !single_fix_at(flip_bit(msg, j), bits, j2),
{
    let fm = flip_bit(msg, j);
    assert(j / 8 < msg.len()) by {
        vstd::arithmetic::div_mod::lemma_fundamental_div_mod(j, 8);
        vstd::arithmetic::div_mod::lemma_fundamental_div_mod(bits, 8);
    }
    lemma_flip_involution(msg, j);
    let cs = spec_checksum(msg, bits);
    let ep = extracted_parity(msg, bits);
    assert(cs ^ ep == 0 && cs ^ 0u32 == cs) by (bit_vector)
        requires
            cs == ep,
    ;
    lemma_flip_validity(msg, bits, j);
    lemma_syndrome_nonzero(bits, j);
    let csf = spec_checksum(fm, bits);
    let epf = extracted_parity(fm, bits);
    lemma_checksum_flip(msg, bits, j, bits);
    lemma_parity_flip(msg, bits, j);
    let d = spec_flip_syndrome(bits, j);
    assert(csf ^ epf == d) by {
        let t = crate::checksum::table_entry(j + crate::checksum::checksum_offset(bits));
        if j < bits - 24 {
            assert(cs == ep ==> ((cs ^ t) ^ ep) == t) by (bit_vector);
        } else {
            assert(crate::checksum::table_entry(j + crate::checksum::checksum_offset(bits)) == 0);
            let mk = 1u32 << ((bits - 1 - j) as u32);
            assert(cs == ep ==> ((cs ^ 0u32) ^ (ep ^ mk)) == mk) by (bit_vector);
        }
    }
    assert forall|j2: int| 0 <= j2 < bits && j2 != j implies !single_fix_at(fm, bits, j2) by {
        lemma_flip_validity(fm, bits, j2);
        lemma_syndrome_distinct(bits, j, j2);
    }
}

/// Two-bit recoverability: flipping any two distinct bits of a
/// checksum-valid frame leaves a frame that two-bit correction can always
/// repair — the flipped pair itself makes the frame valid again, so the
/// pair scan cannot come up empty, and repairing at that pair restores the
/// original frame exactly.
pub proof fn lemma_two_bit_recoverable(msg: Seq<u8>, bits: int, j: int, i: int)
    requires
        bits == 56 || bits == 112,
        msg.len() >= bits / 8,
        valid_frame(msg, bits),
        0 <= j < i < bits,
    ensures
        pair_fix_at(flip_bit(flip_bit(msg, j), i), bits, j, i),
        flip_bit(flip_bit(flip_bit(flip_bit(msg, j), i), j), i) == msg,
        spec_pair_fixable(flip_bit(flip_bit(msg, j), i), bits),
{
    assert(j / 8 < msg.len() && i / 8 < msg.len()) by {
        vstd::arithmetic::div_mod::lemma_fundamental_div_mod(j, 8);
        vstd::arithmetic::div_mod::lemma_fundamental_div_mod(i, 8);
        vstd::arithmetic::div_mod::lemma_fundamental_div_mod(bits, 8);
    }
    let fj = flip_bit(msg, j);
    let c = flip_bit(fj, i);
    lemma_flip_involution(fj, i);
    lemma_flip_involution(msg, j);
    lemma_flip_commute(c, j, i);
    assert(flip_bit(flip_bit(c, j), i) == msg);
    assert(pair_fix_at(c, bits, j, i));
}

/// Flips of two positions commute: each XOR-toggles its own bit.
pub proof fn lemma_flip_commute(msg: Seq<u8>, a: int, b: int)
    requires
        0 <= a,
        a / 8 < msg.len(),
        0 <= b,
        b / 8 < msg.len(),
    ensures
        flip_bit(flip_bit(msg, a), b) == flip_bit(flip_bit(msg, b), a),
{
    let ma = 1u8 << ((7 - a % 8) as u8);
    let mb = 1u8 << ((7 - b % 8) as u8);
    if a / 8 == b / 8 {
        let v = msg[a / 8];
        assert((v ^ ma) ^ mb == (v ^ mb) ^ ma) by (bit_vector);
        assert(flip_bit(flip_bit(msg, a), b) =~= flip_bit(flip_bit(msg, b), a));
    } else {
        assert(flip_bit(flip_bit(msg, a), b) =~= flip_bit(flip_bit(msg, b), a));
    }
}

/// Downlink formats that XOR the sender's address into the parity field
/// instead of transmitting it.
pub open spec fn is_ap_format(df: u8) -> bool {
    df == 0 || df == 4 || df == 5 || df == 16 || df == 20 || df == 21 || df == 24
}

/// The address candidate hidden in an address/parity frame: the checksum of
/// the data bits XOR-ed back out of the trailing bytes. The contribution
/// table is zero at the parity positions, so the checksum below is the
/// checksum of the frame as if its trailing three bytes were zero.
pub open spec fn spec_ap_address(msg: Seq<u8>, bits: int) -> u32 {
    extracted_parity(msg, bits) ^ spec_checksum(msg, bits)
}

/// Recovers the implicitly encoded address of an address/parity frame.
/// The candidate address is accepted, and stored into the message's address
/// bytes, only when the recency cache saw it within the time-to-live; an
/// unconfirmed candidate leaves the message untouched.
pub fn brute_force_ap(
    msg: &Vec<u8>,
    mm: &mut DecodedMessage,
    icao_cache: &Vec<u32>,
    now: u32,
) -> (ok: bool)
    requires
        old(mm).msgbits == 56 || old(mm).msgbits == 112,
        msg@.len() >= old(mm).msgbits / 8,
        icao_cache@.len() == 2 * crate::cache::MODES_ICAO_CACHE_LEN,
    ensures
        ok == (is_ap_format(old(mm).msgtype) && spec_cache_lookup(
            icao_cache@,
            spec_ap_address(msg@, old(mm).msgbits as int),
            now,
        )),
        ok ==> *final(mm) == (DecodedMessage {
            aa1: ((spec_ap_address(msg@, old(mm).msgbits as int) >> 16) & 0xff) as u8,
            aa2: ((spec_ap_address(msg@, old(mm).msgbits as int) >> 8) & 0xff) as u8,
            aa3: (spec_ap_address(msg@, old(mm).msgbits as int) & 0xff) as u8,
            ..*old(mm)
        }),
        !ok ==> *final(mm) == *old(mm),
{
    let msgtype = mm.msgtype;
    let msgbits = mm.msgbits;
    if msgtype == 0 || msgtype == 4 || msgtype == 5 || msgtype == 16 || msgtype == 20 || msgtype
        == 21 || msgtype == 24 {
        let crc = modes_checksum(msg, msgbits);
        let parity = extract_parity(msg, msgbits);
        let addr = parity ^ crc;
        proof {
            let p = parity;
            let c = crc;
            assert(p < 0x1000000 && c < 0x1000000 ==> p ^ c < 0x1000000) by (bit_vector);
        }
        if crate::cache::icaoaddress_was_recently_seen(addr, icao_cache, now) {
            mm.aa1 = ((addr >> 16) & 0xff) as u8;
            mm.aa2 = ((addr >> 8) & 0xff) as u8;
            mm.aa3 = (addr & 0xff) as u8;
            return true;
        }
    }
    false
}

} // verus!
