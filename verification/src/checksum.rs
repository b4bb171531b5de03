//! The Mode S checksum: a linear block code over the frame bits.
//!
//! Every frame carries a 24-bit parity field in its trailing three bytes.
//! The parity of a valid frame equals the remainder of the data bits
//! (shifted up by 24) modulo a fixed generator polynomial over GF(2).
//! Because the code is linear, the checksum of a frame is the XOR of a
//! fixed per-bit contribution for every data bit that is set, which is
//! what makes brute-force bit-flip correction possible: flipping bit `j`
//! toggles the checksum by exactly the contribution of position `j`.

use vstd::prelude::*;

verus! {

/// Low 24 bits of the Mode S generator polynomial; the `x^24` term is implicit.
pub const MODES_GENERATOR_LOW: u32 = 0xfff409;

/// Multiplies a 24-bit polynomial residue by `x` and reduces it modulo the
/// generator polynomial.
pub open spec fn crc_step(r: u32) -> u32 {
    if r & 0x800000 != 0 {
        ((r << 1) & 0xffffff) ^ 0xfff409
    } else {
        (r << 1) & 0xffffff
    }
}

/// `x^(24+k)` reduced modulo the generator polynomial, as a 24-bit residue.
pub open spec fn crc_power(k: nat) -> u32
    decreases k,
{
    if k == 0 {
        0xfff409
    } else {
        crc_step(crc_power((k - 1) as nat))
    }
}

/// Checksum contribution of bit position `j` of a 112-bit frame. The 88
/// data bits contribute `x^(111-j)` modulo the generator; the 24 parity
/// bits contribute nothing, so the checksum of a frame depends on its data
/// bits alone.
pub open spec fn table_entry(j: int) -> u32 {
    if 0 <= j < 88 {
        crc_power((87 - j) as nat)
    } else {
        0
    }
}

/// Whether bit `j` of a frame is set; bits are counted from the most
/// significant bit of byte 0.
pub open spec fn frame_bit(msg: Seq<u8>, j: int) -> bool {
    msg[j / 8] & (1u8 << ((7 - j % 8) as u8)) != 0
}

/// Table offset for a frame of the given bit length: short frames reuse the
/// tail of the 112-entry contribution table.
pub open spec fn checksum_offset(bits: int) -> int {
    if bits == 112 {
        0
    } else {
        56
    }
}

/// XOR of the contributions of the first `n` bit positions of the frame.
pub open spec fn checksum_upto(msg: Seq<u8>, bits: int, n: int) -> u32
    decreases n,
{
    if n <= 0 {
        0
    } else {
        checksum_upto(msg, bits, n - 1) ^ (if frame_bit(msg, n - 1) {
            table_entry(n - 1 + checksum_offset(bits))
        } else {
            0u32
        })
    }
}

/// The Mode S checksum of a frame of `bits` bits (56 or 112).
pub open spec fn spec_checksum(msg: Seq<u8>, bits: int) -> u32 {
    checksum_upto(msg, bits, bits)
}

/// The 24-bit value stored in the trailing three bytes of the frame.
pub open spec fn extracted_parity(msg: Seq<u8>, bits: int) -> u32 {
    ((msg[bits / 8 - 3] as u32) << 16) | ((msg[bits / 8 - 2] as u32) << 8) | (msg[bits / 8
        - 1] as u32)
}

/// A frame is checksum-valid when its computed checksum equals the parity
/// value stored in its trailing three bytes.
pub open spec fn valid_frame(msg: Seq<u8>, bits: int) -> bool {
    spec_checksum(msg, bits) == extracted_parity(msg, bits)
}

/// Every power residue fits in 24 bits.
pub proof fn lemma_crc_power_bound(k: nat)
    ensures
        crc_power(k) < 0x1000000,
    decreases k,
{
    if k == 0 {
    } else {
        lemma_crc_power_bound((k - 1) as nat);
        let r = crc_power((k - 1) as nat);
        assert((((r << 1) & 0xffffff) ^ 0xfff409u32 < 0x1000000) && ((r << 1) & 0xffffffu32
            < 0x1000000)) by (bit_vector);
    }
}

/// Every partial checksum fits in 24 bits.
pub proof fn lemma_checksum_upto_bound(msg: Seq<u8>, bits: int, n: int)
    ensures
        checksum_upto(msg, bits, n) < 0x1000000,
    decreases n,
{
    if n <= 0 {
    } else {
        lemma_checksum_upto_bound(msg, bits, n - 1);
        let a = checksum_upto(msg, bits, n - 1);
        let e = table_entry(n - 1 + checksum_offset(bits));
        if 0 <= n - 1 + checksum_offset(bits) < 88 {
            lemma_crc_power_bound((87 - (n - 1 + checksum_offset(bits))) as nat);
        }
        assert((a < 0x1000000 && e < 0x1000000 ==> (a ^ e) < 0x1000000) && a ^ 0u32 == a)
            by (bit_vector);
    }
}

/// Multiplication by `x` is injective on 24-bit residues: the generator
/// has a nonzero constant term, so the step can be undone.
proof fn lemma_crc_step_injective(r1: u32, r2: u32)
    requires
        r1 < 0x1000000,
        r2 < 0x1000000,
        crc_step(r1) == crc_step(r2),
    ensures
        r1 == r2,
{
    assert(r1 < 0x1000000 && r2 < 0x1000000 && crc_step(r1) == crc_step(r2) ==> r1 == r2)
        by (bit_vector);
}

/// Whether none of the next `n` residues after `r` equals `x^24` again.
spec fn crc_ne_scan(r: u32, n: nat) -> bool
    decreases n,
{
    if n == 0 {
        true
    } else {
        crc_step(r) != 0xfff409 && crc_ne_scan(crc_step(r), (n - 1) as nat)
    }
}

proof fn lemma_crc_ne_scan_unpack(base: nat, n: nat, d: nat)
    requires
        crc_ne_scan(crc_power(base), n),
        base < d <= base + n,
    ensures
        crc_power(d) != 0xfff409,
    decreases n,
{
    assert(crc_power((base + 1) as nat) == crc_step(crc_power(base)));
    if d > base + 1 {
        lemma_crc_ne_scan_unpack((base + 1) as nat, (n - 1) as nat, d);
    }
}

/// The residue sequence does not return to `x^24` within the first 111
/// steps: the order of `x` modulo the generator exceeds the frame length.
proof fn lemma_crc_power_ne(d: nat)
    requires
        1 <= d <= 111,
    ensures
        crc_power(d) != crc_power(0),
{
    assert(crc_ne_scan(0xfff409u32, 111)) by (bit_vector);
    lemma_crc_ne_scan_unpack(0, 111, d);
}

proof fn lemma_crc_power_cancel(a: nat, b: nat)
    requires
        a <= b,
        crc_power(a) == crc_power(b),
    ensures
        crc_power((b - a) as nat) == crc_power(0),
    decreases a,
{
    if a > 0 {
        lemma_crc_power_bound((a - 1) as nat);
        lemma_crc_power_bound((b - 1) as nat);
        lemma_crc_step_injective(crc_power((a - 1) as nat), crc_power((b - 1) as nat));
        lemma_crc_power_cancel((a - 1) as nat, (b - 1) as nat);
    }
}

/// The first 112 power residues are pairwise distinct, so two different
/// bit positions never contribute the same checksum syndrome.
pub proof fn lemma_crc_power_injective(a: nat, b: nat)
    requires
        a < b <= 111,
    ensures
        crc_power(a) != crc_power(b),
{
    if crc_power(a) == crc_power(b) {
        lemma_crc_power_cancel(a, b);
        lemma_crc_power_ne((b - a) as nat);
    }
}

/// No power residue in table range is zero: a data-bit flip always changes
/// the checksum.
pub proof fn lemma_crc_power_nonzero(k: nat)
    requires
        k <= 110,
    ensures
        crc_power(k) != 0,
{
    if crc_power(k) == 0 {
        assert(crc_step(0u32) == 0) by (bit_vector);
        assert(crc_power((k + 1) as nat) == crc_step(crc_power(k)));
        lemma_crc_power_injective(k, (k + 1) as nat);
    }
}

proof fn lemma_crc_pow2_march(k: nat, m: nat)
    requires
        m <= 23,
        k + 24 - m <= 111,
        crc_power(k) == 1u32 << (m as u32),
    ensures
        crc_power((k + 24 - m) as nat) == crc_power(0),
    decreases 24 - m,
{
    if m == 23 {
        assert(crc_step(1u32 << 23u32) == 0xfff409) by (bit_vector);
        assert(crc_power((k + 1) as nat) == crc_step(crc_power(k)));
    } else {
        let mu = m as u32;
        assert(mu < 23 ==> crc_step(1u32 << mu) == 1u32 << ((mu + 1) as u32)) by (bit_vector);
        assert(crc_power((k + 1) as nat) == crc_step(crc_power(k)));
        lemma_crc_pow2_march((k + 1) as nat, (m + 1) as nat);
    }
}

/// No power residue in table range is a single parity bit: a data-bit flip
/// is never confused with a parity-bit flip.
pub proof fn lemma_crc_power_not_pow2(k: nat, m: nat)
    requires
        k <= 87,
        m <= 23,
    ensures
        crc_power(k) != 1u32 << (m as u32),
{
    if crc_power(k) == 1u32 << (m as u32) {
        lemma_crc_pow2_march(k, m);
        lemma_crc_power_ne((k + 24 - m) as nat);
    }
}

/// Remainder of the polynomial `m` modulo `g` over GF(2), reducing the bit
/// positions from `i` down to 24; `g` has degree 24, so the remainder holds
/// the low 24 bits.
pub open spec fn poly_mod_from(m: u128, g: u128, i: int) -> u128
    decreases i + 1,
{
    if i < 24 {
        m
    } else {
        let m2 = if m & (1u128 << (i as u128)) != 0 {
            m ^ (g << ((i - 24) as u128))
        } else {
            m
        };
        poly_mod_from(m2, g, i - 1)
    }
}

/// Remainder of a 128-bit polynomial modulo a degree-24 generator over GF(2).
pub open spec fn spec_poly_mod(m: u128, g: u128) -> u128 {
    poly_mod_from(m, g, 127)
}

/// Computes the remainder of the message polynomial modulo the generator
/// polynomial over GF(2), by long division from the highest bit down.
pub fn compute_crc(msg: u128, generator: u128) -> (crc: u32)
    requires
        0x1000000 <= generator < 0x2000000,
    ensures
        crc as u128 == spec_poly_mod(msg, generator),
        crc < 0x1000000,
{
    let mut m = msg;
    let mut i: usize = 128;
    while i > 24
        invariant
            24 <= i <= 128,
            0x1000000 <= generator < 0x2000000,
            poly_mod_from(m, generator, i as int - 1) == spec_poly_mod(msg, generator),
            i < 128 ==> m >> (i as u128) == 0,
        decreases i,
    {
        i -= 1;
        let ghost m_at_head: u128 = m;
        if m & (1u128 << (i as u128)) != 0 {
            m = m ^ (generator << ((i - 24) as u128));
            proof {
                let gi = i as u128;
                let g = generator;
                assert((m_at_head ^ (g << ((gi - 24) as u128))) >> gi == 0) by (bit_vector)
                    requires
                        24 <= gi < 128,
                        gi == 127 || m_at_head >> (gi + 1) as u128 == 0,
                        m_at_head & (1u128 << gi) != 0,
                        0x1000000 <= g < 0x2000000,
                ;
            }
        } else {
            proof {
                let gi = i as u128;
                assert(m_at_head >> gi == 0) by (bit_vector)
                    requires
                        24 <= gi < 128,
                        gi == 127 || m_at_head >> (gi + 1) as u128 == 0,
                        m_at_head & (1u128 << gi) == 0,
                ;
            }
        }
    }
    proof {
        assert(m >> 24u128 == 0 ==> m < 0x1000000) by (bit_vector);
    }
    m as u32
}

/// Reads the 24-bit parity value out of the trailing three bytes of a frame.
pub fn extract_parity(msg: &Vec<u8>, bits: usize) -> (r: u32)
    requires
        bits == 56 || bits == 112,
        msg@.len() >= bits / 8,
    ensures
        r == extracted_parity(msg@, bits as int),
        r < 0x1000000,
{
    let b2 = msg[bits / 8 - 3];
    let b1 = msg[bits / 8 - 2];
    let b0 = msg[bits / 8 - 1];
    proof {
        assert(((b2 as u32) << 16) | ((b1 as u32) << 8) | (b0 as u32) < 0x1000000) by (bit_vector);
    }
    ((b2 as u32) << 16) | ((b1 as u32) << 8) | (b0 as u32)
}

/// Builds the 112-entry contribution table: one 24-bit checksum contribution
/// per bit position of a long frame.
pub fn modes_checksum_table() -> (t: Vec<u32>)
    ensures
        t@.len() == 112,
        forall|j: int| 0 <= j < 112 ==> t@[j] == table_entry(j),
{
    let mut t: Vec<u32> = Vec::new();
    let mut i: usize = 0;
    while i < 112
        invariant
            i <= 112,
            t@.len() == i,
            forall|j: int| 0 <= j < i ==> t@[j] == 0,
        decreases 112 - i,
    {
        t.push(0);
        i += 1;
    }
    let mut k: usize = 0;
    let mut r: u32 = 0xfff409;
    while k < 88
        invariant
            k <= 88,
            t@.len() == 112,
            r == crc_power(k as nat),
            forall|j: int| 88 - k <= j < 88 ==> t@[j] == table_entry(j),
            forall|j: int| 88 <= j < 112 ==> t@[j] == 0,
        decreases 88 - k,
    {
        t.set(87 - k, r);
        r = if r & 0x800000 != 0 {
            ((r << 1) & 0xffffff) ^ 0xfff409
        } else {
            (r << 1) & 0xffffff
        };
        k += 1;
    }
    t
}

/// Computes the Mode S checksum of the first `bits` bits of a frame,
/// XOR-ing the table contribution of every set bit.
pub fn modes_checksum(msg: &Vec<u8>, bits: usize) -> (crc: u32)
    requires
        bits == 56 || bits == 112,
        msg@.len() >= bits / 8,
    ensures
        crc == spec_checksum(msg@, bits as int),
        crc < 0x1000000,
{
    proof {
        lemma_checksum_upto_bound(msg@, bits as int, bits as int);
    }
    let table = modes_checksum_table();
    let offset: usize = if bits == 112 {
        0
    } else {
        56
    };
    let mut crc: u32 = 0;
    let mut j: usize = 0;
    while j < bits
        invariant
            bits == 56 || bits == 112,
            msg@.len() >= bits / 8,
            offset == checksum_offset(bits as int),
            table@.len() == 112,
            forall|i: int| 0 <= i < 112 ==> table@[i] == table_entry(i),
            j <= bits,
            crc == checksum_upto(msg@, bits as int, j as int),
        decreases bits - j,
    {
        let byte = j / 8;
        let bit = j % 8;
        let bitmask: u8 = 1u8 << ((7 - bit) as u8);
        proof {
            assert(frame_bit(msg@, j as int) == (msg@[j as int / 8] & (1u8 << ((7 - j as int % 8)
                as u8)) != 0));
            assert(checksum_upto(msg@, bits as int, j as int + 1) == checksum_upto(
                msg@,
                bits as int,
                j as int,
            ) ^ (if frame_bit(msg@, j as int) {
                table_entry(j as int + checksum_offset(bits as int))
            } else {
                0u32
            }));
        }
        if msg[byte] & bitmask != 0 {
            crc = crc ^ table[j + offset];
        } else {
            proof {
                assert(crc ^ 0u32 == crc) by (bit_vector);
            }
        }
        j += 1;
    }
    crc
}

} // verus!
