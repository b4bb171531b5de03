//! Frame codec: turning a received text line into a byte buffer and
//! classifying it by downlink format.
//!
//! A line holds one hex-encoded frame, possibly wrapped in delimiter
//! characters and containing non-hex noise, which is stripped before
//! decoding. The downlink format is the top five bits of byte 0 and decides
//! whether the frame is 56 or 112 bits long.

use vstd::prelude::*;

verus! {

/// Whether a character is an ASCII hexadecimal digit.
pub open spec fn is_hex_char(c: char) -> bool {
    ('0' <= c && c <= '9') || ('a' <= c && c <= 'f') || ('A' <= c && c <= 'F')
}

/// Value of one hexadecimal digit.
pub open spec fn nibble_val(c: char) -> u8 {
    if '0' <= c && c <= '9' {
        (c as u32 - '0' as u32) as u8
    } else if 'a' <= c && c <= 'f' {
        (c as u32 - 'a' as u32 + 10) as u8
    } else {
        (c as u32 - 'A' as u32 + 10) as u8
    }
}

/// The hexadecimal digits of a line, in order, with all noise characters
/// stripped out.
pub open spec fn hex_digits(s: Seq<char>) -> Seq<char>
    decreases s.len(),
{
    if s.len() == 0 {
        Seq::empty()
    } else if is_hex_char(s[0]) {
        seq![s[0]] + hex_digits(s.drop_first())
    } else {
        hex_digits(s.drop_first())
    }
}

/// The bytes spelled by an even-length sequence of hexadecimal digits, two
/// digits per byte, high nibble first.
pub open spec fn bytes_of_hex(d: Seq<char>) -> Seq<u8> {
    Seq::new((d.len() / 2) as nat, |k: int| (nibble_val(d[2 * k]) * 16 + nibble_val(d[2 * k + 1])) as u8)
}

/// What decoding a hex line yields: the spelled bytes, or nothing when the
/// number of hex digits is odd (a malformed frame).
pub open spec fn spec_msg_to_bytes(s: Seq<char>) -> Seq<u8> {
    if hex_digits(s).len() % 2 == 1 {
        Seq::empty()
    } else {
        bytes_of_hex(hex_digits(s))
    }
}

proof fn lemma_hex_digits_push(s: Seq<char>, x: char)
    ensures
        hex_digits(s.push(x)) == hex_digits(s) + (if is_hex_char(x) {
            seq![x]
        } else {
            Seq::<char>::empty()
        }),
    decreases s.len(),
{
    let sx = s.push(x);
    if s.len() == 0 {
        assert(sx.len() == 1);
        assert(sx[0] == x);
        assert(sx.drop_first() =~= Seq::<char>::empty());
        assert(hex_digits(Seq::<char>::empty()) =~= Seq::<char>::empty());
        if is_hex_char(x) {
            assert(hex_digits(sx) =~= seq![x]);
            assert(hex_digits(s) + seq![x] =~= seq![x]);
        } else {
            assert(hex_digits(sx) =~= Seq::<char>::empty());
            assert(hex_digits(s) + Seq::<char>::empty() =~= Seq::<char>::empty());
        }
    } else {
        lemma_hex_digits_push(s.drop_first(), x);
        assert(sx.drop_first() =~= s.drop_first().push(x));
        assert(sx[0] == s[0]);
        if is_hex_char(s[0]) {
            assert(hex_digits(sx) =~= seq![s[0]] + hex_digits(s.drop_first().push(x)));
            if is_hex_char(x) {
                assert(hex_digits(sx) =~= (seq![s[0]] + hex_digits(s.drop_first())) + seq![x]);
                assert(hex_digits(sx) =~= hex_digits(s) + seq![x]);
            } else {
                assert(hex_digits(sx) =~= hex_digits(s) + Seq::<char>::empty());
            }
        } else {
            assert(hex_digits(sx) =~= hex_digits(s.drop_first().push(x)));
            if is_hex_char(x) {
                assert(hex_digits(sx) =~= hex_digits(s) + seq![x]);
            } else {
                assert(hex_digits(sx) =~= hex_digits(s) + Seq::<char>::empty());
            }
        }
    }
}

/// Tests whether a character is an ASCII hexadecimal digit.
fn is_hex_char_exec(c: char) -> (r: bool)
    ensures
        r == is_hex_char(c),
{
    let v = c as u32;
    (48 <= v && v <= 57) || (97 <= v && v <= 102) || (65 <= v && v <= 70)
}

/// Value of one hexadecimal digit.
fn nibble_val_exec(c: char) -> (r: u8)
    requires
        is_hex_char(c),
    ensures
        r == nibble_val(c),
        r <= 15,
{
    let v = c as u32;
    if 48 <= v && v <= 57 {
        (v - 48) as u8
    } else if 97 <= v && v <= 102 {
        (v - 97 + 10) as u8
    } else {
        (v - 65 + 10) as u8
    }
}

/// Decodes one received line into a frame byte buffer: non-hex noise
/// characters are stripped, and the remaining digits are read two at a time,
/// high nibble first. A line whose cleaned digit count is odd is malformed
/// and yields an empty buffer.
pub fn msg_to_bytes(hex: &str) -> (bytes: Vec<u8>)
    ensures
        bytes@ == spec_msg_to_bytes(hex@),
{
    let n = hex.unicode_len();
    let mut digits: Vec<char> = Vec::new();
    let mut i: usize = 0;
    while i < n
        invariant
            n == hex@.len(),
            i <= n,
            digits@ == hex_digits(hex@.take(i as int)),
            forall|j: int| 0 <= j < digits@.len() ==> is_hex_char(digits@[j]),
        decreases n - i,
    {
        let c = hex.get_char(i);
        proof {
            lemma_hex_digits_push(hex@.take(i as int), hex@[i as int]);
            assert(hex@.take(i as int + 1) =~= hex@.take(i as int).push(hex@[i as int]));
        }
        if is_hex_char_exec(c) {
            digits.push(c);
        }
        i += 1;
    }
    proof {
        assert(hex@.take(n as int) =~= hex@);
    }
    if digits.len() % 2 == 1 {
        let empty: Vec<u8> = Vec::new();
        return empty;
    }
    let mut bytes: Vec<u8> = Vec::new();
    let mut k: usize = 0;
    while k < digits.len() / 2
        invariant
            digits@ == hex_digits(hex@),
            digits@.len() % 2 == 0,
            forall|j: int| 0 <= j < digits@.len() ==> is_hex_char(digits@[j]),
            k <= digits@.len() / 2,
            bytes@.len() == k,
            forall|j: int| 0 <= j < k ==> bytes@[j] == bytes_of_hex(digits@)[j],
        decreases digits@.len() / 2 - k,
    {
        let hi = nibble_val_exec(digits[2 * k]);
        let lo = nibble_val_exec(digits[2 * k + 1]);
        bytes.push(hi * 16 + lo);
        k += 1;
    }
    proof {
        assert(bytes@ =~= bytes_of_hex(digits@));
    }
    bytes
}

/// Spec-level downlink format of a frame: the top five bits of byte 0.
pub open spec fn spec_downlink_code(msg: Seq<u8>) -> u8 {
    msg[0] >> 3
}

/// Reads the downlink format code, the top five bits of the first byte.
pub fn get_downlink_code(message: &Vec<u8>) -> (df: u8)
    requires
        message@.len() >= 1,
    ensures
        df == spec_downlink_code(message@),
        df < 32,
{
    proof {
        let b = message@[0];
        assert(b >> 3 < 32) by (bit_vector);
    }
    message[0] >> 3
}

/// Bit length of a frame with the given downlink format code.
pub open spec fn spec_message_len(id: u8) -> usize {
    if id == 16 || id == 17 || id == 19 || id == 20 || id == 21 {
        112usize
    } else {
        56usize
    }
}

/// Bit length of a frame, decided by its downlink format code: long formats
/// are 112 bits, all others 56.
pub fn modes_message_len_by_id(id: u8) -> (bits: usize)
    ensures
        bits == spec_message_len(id),
        bits == 56 || bits == 112,
{
    if id == 16 || id == 17 || id == 19 || id == 20 || id == 21 {
        crate::MODES_LONG_MSG_BITS
    } else {
        crate::MODES_SHORT_MSG_BITS
    }
}

/// The big-endian integer spelled by a byte sequence, truncated to 128 bits.
pub open spec fn spec_vec_to_u128(s: Seq<u8>) -> u128
    decreases s.len(),
{
    if s.len() == 0 {
        0
    } else {
        (spec_vec_to_u128(s.drop_last()) << 8) | (s.last() as u128)
    }
}

/// Packs a byte buffer into one 128-bit integer, first byte most
/// significant; with more than 16 bytes the leading bytes are shifted out.
pub fn vec_to_u128(vec: &Vec<u8>) -> (r: u128)
    ensures
        r == spec_vec_to_u128(vec@),
{
    let mut acc: u128 = 0;
    let mut i: usize = 0;
    while i < vec.len()
        invariant
            i <= vec@.len(),
            acc == spec_vec_to_u128(vec@.take(i as int)),
        decreases vec@.len() - i,
    {
        acc = (acc << 8) | (vec[i] as u128);
        proof {
            assert(vec@.take(i as int + 1).drop_last() =~= vec@.take(i as int));
        }
        i += 1;
    }
    proof {
        assert(vec@.take(vec@.len() as int) =~= vec@);
    }
    acc
}

} // verus!
