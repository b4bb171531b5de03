//! Compact position reporting: resolving an unambiguous global latitude and
//! longitude from a paired even and odd position report.
//!
//! Each report carries 17-bit zone counts that wrap periodically, so a
//! single report is ambiguous. Pairing an even and an odd report fixes the
//! zone index, provided both lie in the same longitude-zone band. All
//! arithmetic here is exact: an angle is carried as an integer numerator
//! over a fixed denominator of `zones * 131072`, in degrees, and results
//! are handed out rounded down to microdegrees. The number of longitude
//! zones at a latitude comes from the standard 58-breakpoint table, each
//! breakpoint scaled to an integer with eight decimal places.

use vstd::arithmetic::div_mod::lemma_hoist_over_denominator;
use vstd::arithmetic::div_mod::lemma_mod_multiples_vanish;
use vstd::prelude::*;

verus! {

/// Number of values a 17-bit zone count can take.
pub const CPR_COUNT_RANGE: u32 = 131072;

/// Widest even/odd arrival-time gap, in seconds, that still counts as a
/// pair.
pub const CPR_PAIRING_WINDOW: u32 = 10;

/// Absolute value.
pub open spec fn abs_int(a: int) -> int {
    if a < 0 {
        -a
    } else {
        a
    }
}

/// Latitude breakpoint `k` of the longitude-zone table, in degrees scaled
/// by 10^8: below breakpoint 0 there are 59 zones, between breakpoints
/// `k-1` and `k` there are `59 - k`, and from the last breakpoint (87
/// degrees) up there is one.
pub open spec fn nl_bp_e8(k: int) -> int {
    if k == 0 {
        1047047130
    } else if k == 1 {
        1482817437
    } else if k == 2 {
        1818626357
    } else if k == 3 {
        2102939493
    } else if k == 4 {
        2354504487
    } else if k == 5 {
        2582924707
    } else if k == 6 {
        2793898710
    } else if k == 7 {
        2991135686
    } else if k == 8 {
        3177209708
    } else if k == 9 {
        3353993436
    } else if k == 10 {
        3522899598
    } else if k == 11 {
        3685025108
    } else if k == 12 {
        3841241892
    } else if k == 13 {
        3992256684
    } else if k == 14 {
        4138651832
    } else if k == 15 {
        4280914012
    } else if k == 16 {
        4419454951
    } else if k == 17 {
        4554626723
    } else if k == 18 {
        4686733252
    } else if k == 19 {
        4816039128
    } else if k == 20 {
        4942776439
    } else if k == 21 {
        5067150166
    } else if k == 22 {
        5189342469
    } else if k == 23 {
        5309516153
    } else if k == 24 {
        5427817472
    } else if k == 25 {
        5544378444
    } else if k == 26 {
        5659318756
    } else if k == 27 {
        5772747354
    } else if k == 28 {
        5884763776
    } else if k == 29 {
        5995459277
    } else if k == 30 {
        6104917774
    } else if k == 31 {
        6213216659
    } else if k == 32 {
        6320427479
    } else if k == 33 {
        6426616523
    } else if k == 34 {
        6531845310
    } else if k == 35 {
        6636171008
    } else if k == 36 {
        6739646774
    } else if k == 37 {
        6842322022
    } else if k == 38 {
        6944242631
    } else if k == 39 {
        7045451075
    } else if k == 40 {
        7145986473
    } else if k == 41 {
        7245884545
    } else if k == 42 {
        7345177442
    } else if k == 43 {
        7443893416
    } else if k == 44 {
        7542056257
    } else if k == 45 {
        7639684391
    } else if k == 46 {
        7736789461
    } else if k == 47 {
        7833374083
    } else if k == 48 {
        7929428225
    } else if k == 49 {
        8024923213
    } else if k == 50 {
        8119801349
    } else if k == 51 {
        8213956981
    } else if k == 52 {
        8307199445
    } else if k == 53 {
        8399173563
    } else if k == 54 {
        8489166191
    } else if k == 55 {
        8575541621
    } else if k == 56 {
        8653536998
    } else {
        8700000000
    }
}

/// Walks the breakpoint table: the first breakpoint that the scaled
/// absolute latitude `a` lies under decides the zone count.
pub open spec fn nl_search(a: int, den: int, k: int) -> int
    decreases 58 - k,
{
    if k >= 58 {
        1
    } else if a < nl_bp_e8(k) * den {
        59 - k
    } else {
        nl_search(a, den, k + 1)
    }
}

/// Number of longitude zones at the latitude `num / den` degrees.
pub open spec fn spec_nl(num: int, den: int) -> int {
    nl_search(abs_int(num) * 100000000, den, 0)
}

/// Latitude breakpoint `k` of the longitude-zone table, in degrees scaled
/// by 10^8.
pub fn nl_bp_e8_exec(k: usize) -> (bp: i64)
    requires
        k < 58,
    ensures
        bp == nl_bp_e8(k as int),
        1000000000 <= bp <= 8700000000,
{
    let table: [i64; 58] = [
        1047047130,
        1482817437,
        1818626357,
        2102939493,
        2354504487,
        2582924707,
        2793898710,
        2991135686,
        3177209708,
        3353993436,
        3522899598,
        3685025108,
        3841241892,
        3992256684,
        4138651832,
        4280914012,
        4419454951,
        4554626723,
        4686733252,
        4816039128,
        4942776439,
        5067150166,
        5189342469,
        5309516153,
        5427817472,
        5544378444,
        5659318756,
        5772747354,
        5884763776,
        5995459277,
        6104917774,
        6213216659,
        6320427479,
        6426616523,
        6531845310,
        6636171008,
        6739646774,
        6842322022,
        6944242631,
        7045451075,
        7145986473,
        7245884545,
        7345177442,
        7443893416,
        7542056257,
        7639684391,
        7736789461,
        7833374083,
        7929428225,
        8024923213,
        8119801349,
        8213956981,
        8307199445,
        8399173563,
        8489166191,
        8575541621,
        8653536998,
        8700000000,
    ];
    table[k]
}

/// Number of longitude zones at the latitude `num / den` degrees, found by
/// walking the breakpoint table.
pub fn cpr_nl_rational(num: i64, den: i64) -> (nl: u32)
    requires
        0 < den <= 7864320,
        -360 * den <= num <= 360 * den,
    ensures
        nl as int == spec_nl(num as int, den as int),
        1 <= nl <= 59,
{
    let a: i64 = if num < 0 {
        -num
    } else {
        num
    };
    let scaled: i64 = a * 100000000;
    proof {
        let ab = abs_int(num as int);
        assert(ab <= 360 * den);
        assert(ab <= 360 * den ==> ab * 100000000 <= 360 * 100000000 * (den as int)) by (
        nonlinear_arith);
    }
    let mut k: usize = 0;
    while k < 58
        invariant
            k <= 58,
            scaled == abs_int(num as int) * 100000000,
            0 < den <= 7864320,
            0 <= scaled <= 360 * 100000000 * den,
            nl_search(scaled as int, den as int, k as int) == spec_nl(num as int, den as int),
            forall|k2: int| 0 <= k2 < k ==> scaled >= nl_bp_e8(k2) * den,
        decreases 58 - k,
    {
        let bp = nl_bp_e8_exec(k);
        proof {
            assert(1000000000 <= bp <= 8700000000 && 0 < den <= 7864320 ==> 0 < bp * den
                <= 8700000000 * 7864320) by (nonlinear_arith);
        }
        if scaled < bp * den {
            return (59 - k) as u32;
        }
        k += 1;
    }
    1
}

/// Latitude zone index of an even/odd pair: the rounded ratio of the
/// weighted difference of the two latitude counts to the count range.
pub open spec fn spec_cpr_j(lat0: int, lat1: int) -> int {
    (59 * lat0 - 60 * lat1 + 65536) / 131072
}

/// Numerator of the candidate latitude for a report with `nz` latitude
/// zones, over the denominator `nz * 131072`, in degrees; a value at or
/// above 270 degrees wraps down by 360.
pub open spec fn spec_rlat_num(nz: int, j: int, lat: int) -> int {
    let raw = 360 * ((j % nz) * 131072 + lat);
    if raw >= 270 * (nz * 131072) {
        raw - 360 * (nz * 131072)
    } else {
        raw
    }
}

/// Longitude zone index of an even/odd pair at a latitude with `nl`
/// longitude zones.
pub open spec fn spec_m_index(lon0: int, lon1: int, nl: int) -> int {
    (lon0 * (nl - 1) - lon1 * nl + 65536) / 131072
}

/// Numerator of the resolved longitude over the denominator `ni * 131072`,
/// in degrees; a value above 180 degrees wraps down by 360.
pub open spec fn spec_rlon_num(lon: int, m: int, ni: int) -> int {
    let raw = 360 * ((m % ni) * 131072 + lon);
    if raw > 180 * (ni * 131072) {
        raw - 360 * (ni * 131072)
    } else {
        raw
    }
}

/// The angle `num / den` degrees rounded down to microdegrees.
pub open spec fn spec_microdeg(num: int, den: int) -> int {
    (num * 1000000) / den
}

/// Computes the latitude zone index of an even/odd pair.
fn cpr_lat_index(lat0: u32, lat1: u32) -> (j: i64)
    requires
        lat0 < 131072,
        lat1 < 131072,
    ensures
        j == spec_cpr_j(lat0 as int, lat1 as int),
        -61 <= j <= 60,
{
    let a: i64 = 59 * (lat0 as i64) - 60 * (lat1 as i64) + 65536;
    let shifted: u64 = (a + 7995392) as u64;
    let q: u64 = shifted / 131072;
    proof {
        lemma_hoist_over_denominator(a as int, 61, 131072nat);
        assert(shifted < 16777216 ==> q < 128) by (nonlinear_arith)
            requires
                q == shifted / 131072,
        ;
    }
    (q as i64) - 61
}

/// Computes a candidate latitude numerator over the denominator
/// `nz * 131072`.
fn cpr_rlat_num(nz: u32, j: i64, lat: u32) -> (num: i64)
    requires
        nz == 60 || nz == 59,
        -61 <= j <= 60,
        lat < 131072,
    ensures
        num == spec_rlat_num(nz as int, j as int, lat as int),
        -90 * (nz * 131072) <= num < 270 * (nz * 131072),
{
    let jm: u64 = ((j + 2 * (nz as i64)) as u64) % (nz as u64);
    proof {
        lemma_mod_multiples_vanish(2, j as int, nz as int);
        assert((j + 2 * (nz as int)) % (nz as int) == ((nz as int) * 2 + j) % (nz as int));
    }
    let raw: i64 = 360 * ((jm as i64) * 131072 + (lat as i64));
    let den360: i64 = 360 * (nz as i64) * 131072;
    let den270: i64 = 270 * (nz as i64) * 131072;
    proof {
        assert(jm < nz ==> (jm as int) * 131072 + (lat as int) < (nz as int) * 131072) by (
        nonlinear_arith)
            requires
                lat < 131072,
        ;
        assert((jm as int) * 131072 + (lat as int) < (nz as int) * 131072 ==> 360 * ((
        jm as int) * 131072 + (lat as int)) < 360 * ((nz as int) * 131072)) by (nonlinear_arith);
    }
    if raw >= den270 {
        raw - den360
    } else {
        raw
    }
}

/// Computes the longitude zone index of an even/odd pair.
fn cpr_m_index(lon0: u32, lon1: u32, nl: u32) -> (m: i64)
    requires
        lon0 < 131072,
        lon1 < 131072,
        1 <= nl <= 59,
    ensures
        m == spec_m_index(lon0 as int, lon1 as int, nl as int),
        -60 <= m <= 59,
{
    proof {
        assert((lon0 as int) * ((nl as int) - 1) <= 131071 * 58 && (lon1 as int) * (nl as int)
            <= 131071 * 59 && (lon1 as int) * (nl as int) >= 0 && (lon0 as int) * ((nl as int) - 1)
            >= 0) by (nonlinear_arith)
            requires
                lon0 < 131072,
                lon1 < 131072,
                1 <= nl <= 59,
        ;
    }
    let b: i64 = (lon0 as i64) * ((nl as i64) - 1) - (lon1 as i64) * (nl as i64) + 65536;
    let shifted: u64 = (b + 7864320) as u64;
    let q: u64 = shifted / 131072;
    proof {
        lemma_hoist_over_denominator(b as int, 60, 131072nat);
        assert(shifted < 16777216 ==> q < 128) by (nonlinear_arith)
            requires
                q == shifted / 131072,
        ;
    }
    (q as i64) - 60
}

/// Computes the resolved longitude numerator over the denominator
/// `ni * 131072`.
fn cpr_rlon_num(lon: u32, m: i64, ni: u32) -> (num: i64)
    requires
        lon < 131072,
        -60 <= m <= 59,
        1 <= ni <= 59,
    ensures
        num == spec_rlon_num(lon as int, m as int, ni as int),
        -180 * (ni * 131072) < num <= 180 * (ni * 131072),
{
    let mm: u64 = ((m + 60 * (ni as i64)) as u64) % (ni as u64);
    proof {
        lemma_mod_multiples_vanish(60, m as int, ni as int);
        assert((m + 60 * (ni as int)) % (ni as int) == ((ni as int) * 60 + m) % (ni as int));
    }
    let raw: i64 = 360 * ((mm as i64) * 131072 + (lon as i64));
    let den360: i64 = 360 * (ni as i64) * 131072;
    let den180: i64 = 180 * (ni as i64) * 131072;
    proof {
        assert(mm < ni ==> (mm as int) * 131072 + (lon as int) < (ni as int) * 131072) by (
        nonlinear_arith)
            requires
                lon < 131072,
        ;
        assert((mm as int) * 131072 + (lon as int) < (ni as int) * 131072 ==> 360 * ((
        mm as int) * 131072 + (lon as int)) < 360 * ((ni as int) * 131072)) by (nonlinear_arith);
    }
    if raw > den180 {
        raw - den360
    } else {
        raw
    }
}

/// Rounds an angle numerator down to microdegrees.
fn microdeg_exec(num: i64, den: i64) -> (r: i64)
    requires
        0 < den <= 7864320,
        -360 * den <= num <= 360 * den,
    ensures
        r == spec_microdeg(num as int, den as int),
        -360000000 <= r <= 360000000,
{
    let x: i64 = num * 1000000;
    let shifted: u64 = (x + 400000000 * den) as u64;
    let q: u64 = shifted / (den as u64);
    proof {
        lemma_hoist_over_denominator(x as int, 400000000, den as nat);
        assert(x >= -360000000 * den && den > 0 ==> x / den >= -360000000) by (nonlinear_arith);
        assert(x <= 360000000 * den && den > 0 ==> x / den <= 360000000) by (nonlinear_arith);
    }
    (q as i64) - 400000000
}

/// Per-aircraft position-report history: the single most recent report of
/// each parity, with its arrival time. A newer report of the same parity
/// overwrites the older one.
#[derive(Clone, Copy, Debug, PartialEq, Eq, Structural)]
pub struct PositionFrameHistory {
    /// Whether an even-parity report has arrived.
    pub even_seen: bool,
    /// Latitude zone count of the most recent even report.
    pub even_lat: u32,
    /// Longitude zone count of the most recent even report.
    pub even_lon: u32,
    /// Arrival time of the most recent even report, in seconds.
    pub even_time: u32,
    /// Whether an odd-parity report has arrived.
    pub odd_seen: bool,
    /// Latitude zone count of the most recent odd report.
    pub odd_lat: u32,
    /// Longitude zone count of the most recent odd report.
    pub odd_lon: u32,
    /// Arrival time of the most recent odd report, in seconds.
    pub odd_time: u32,
}

impl PositionFrameHistory {
    /// Zone counts are 17-bit values.
    pub open spec fn wf(&self) -> bool {
        self.even_lat < 131072 && self.even_lon < 131072 && self.odd_lat < 131072 && self.odd_lon
            < 131072
    }

    /// Makes an empty history: no report of either parity yet.
    pub fn new() -> (h: PositionFrameHistory)
        ensures
            h == (PositionFrameHistory {
                even_seen: false,
                even_lat: 0,
                even_lon: 0,
                even_time: 0,
                odd_seen: false,
                odd_lat: 0,
                odd_lon: 0,
                odd_time: 0,
            }),
            h.wf(),
            !h.even_seen && !h.odd_seen,
    {
        PositionFrameHistory {
            even_seen: false,
            even_lat: 0,
            even_lon: 0,
            even_time: 0,
            odd_seen: false,
            odd_lat: 0,
            odd_lon: 0,
            odd_time: 0,
        }
    }

    /// The history after storing a report of the given parity.
    pub open spec fn spec_store(&self, fflag: bool, lat: u32, lon: u32, now: u32) -> Self {
        if fflag {
            PositionFrameHistory { odd_seen: true, odd_lat: lat, odd_lon: lon, odd_time: now, ..*self }
        } else {
            PositionFrameHistory {
                even_seen: true,
                even_lat: lat,
                even_lon: lon,
                even_time: now,
                ..*self
            }
        }
    }

    /// Stores a report under its parity, overwriting the previous report of
    /// that parity.
    pub fn store(&mut self, fflag: bool, lat: u32, lon: u32, now: u32)
        requires
            lat < 131072,
            lon < 131072,
        ensures
            *final(self) == old(self).spec_store(fflag, lat, lon, now),
    {
        if fflag {
            self.odd_seen = true;
            self.odd_lat = lat;
            self.odd_lon = lon;
            self.odd_time = now;
        } else {
            self.even_seen = true;
            self.even_lat = lat;
            self.even_lon = lon;
            self.even_time = now;
        }
    }
}

/// A resolved global position, in microdegrees rounded down; latitude in
/// [-90, 270) wrapped at 270, longitude in (-180, 180].
#[derive(Clone, Copy, Debug, PartialEq, Eq, Structural)]
pub struct CprPosition {
    /// Latitude in microdegrees.
    pub lat_microdeg: i64,
    /// Longitude in microdegrees.
    pub lon_microdeg: i64,
}

/// Whether the history holds a resolvable pair: one report of each parity,
/// arrived within the pairing window.
pub open spec fn spec_paired(h: PositionFrameHistory) -> bool {
    h.even_seen && h.odd_seen && abs_int(h.even_time as int - h.odd_time as int)
        <= CPR_PAIRING_WINDOW as int
}

/// What resolving a history yields: the position in microdegrees when the
/// pair is complete, fresh, and both candidate latitudes fall in the same
/// longitude-zone band; nothing otherwise. The candidate whose parity
/// matches the more recent report is emitted.
pub open spec fn spec_cpr(h: PositionFrameHistory) -> Option<(int, int)> {
    if !spec_paired(h) {
        Option::None
    } else {
        let lat0 = h.even_lat as int;
        let lat1 = h.odd_lat as int;
        let j = spec_cpr_j(lat0, lat1);
        let rlat0 = spec_rlat_num(60, j, lat0);
        let rlat1 = spec_rlat_num(59, j, lat1);
        let nl0 = spec_nl(rlat0, (60 * 131072) as int);
        let nl1 = spec_nl(rlat1, (59 * 131072) as int);
        if nl0 != nl1 {
            Option::None
        } else if h.even_time >= h.odd_time {
            let ni = if nl0 < 1 {
                1
            } else {
                nl0
            };
            let m = spec_m_index(h.even_lon as int, h.odd_lon as int, nl0);
            let lon = spec_rlon_num(h.even_lon as int, m, ni);
            Option::Some(
                (spec_microdeg(rlat0, (60 * 131072) as int), spec_microdeg(lon, ni * 131072)),
            )
        } else {
            let ni = if nl0 - 1 < 1 {
                1
            } else {
                nl0 - 1
            };
            let m = spec_m_index(h.even_lon as int, h.odd_lon as int, nl0);
            let lon = spec_rlon_num(h.odd_lon as int, m, ni);
            Option::Some(
                (spec_microdeg(rlat1, (59 * 131072) as int), spec_microdeg(lon, ni * 131072)),
            )
        }
    }
}

/// Resolves a global position from the stored even/odd pair, or says why
/// none can be emitted: an incomplete or stale pair, or candidate latitudes
/// that straddle a zone boundary.
pub fn cpr_resolve(hist: &PositionFrameHistory) -> (r: Result<CprPosition, crate::DecodeError>)
    requires
        hist.wf(),
    ensures
        match spec_cpr(*hist) {
            Option::Some(p) => r matches Ok(q) && q.lat_microdeg == p.0 && q.lon_microdeg == p.1,
            Option::None => r matches Err(e) && e == crate::DecodeError::CprUnresolved,
        },
{
    if !(hist.even_seen && hist.odd_seen) {
        return Err(crate::DecodeError::CprUnresolved);
    }
    let te = hist.even_time;
    let to = hist.odd_time;
    let dt = if te >= to {
        te - to
    } else {
        to - te
    };
    if dt > CPR_PAIRING_WINDOW {
        return Err(crate::DecodeError::CprUnresolved);
    }
    let j = cpr_lat_index(hist.even_lat, hist.odd_lat);
    let rlat0 = cpr_rlat_num(60, j, hist.even_lat);
    let rlat1 = cpr_rlat_num(59, j, hist.odd_lat);
    let nl0 = cpr_nl_rational(rlat0, 60 * 131072);
    let nl1 = cpr_nl_rational(rlat1, 59 * 131072);
    if nl0 != nl1 {
        return Err(crate::DecodeError::CprUnresolved);
    }
    if te >= to {
        let ni = nl0;
        let m = cpr_m_index(hist.even_lon, hist.odd_lon, nl0);
        let lon_num = cpr_rlon_num(hist.even_lon, m, ni);
        let lat_microdeg = microdeg_exec(rlat0, 60 * 131072);
        let lon_microdeg = microdeg_exec(lon_num, (ni as i64) * 131072);
        Ok(CprPosition { lat_microdeg, lon_microdeg })
    } else {
        let ni = if nl0 >= 2 {
            nl0 - 1
        } else {
            1
        };
        let m = cpr_m_index(hist.even_lon, hist.odd_lon, nl0);
        let lon_num = cpr_rlon_num(hist.odd_lon, m, ni);
        let lat_microdeg = microdeg_exec(rlat1, 59 * 131072);
        let lon_microdeg = microdeg_exec(lon_num, (ni as i64) * 131072);
        Ok(CprPosition { lat_microdeg, lon_microdeg })
    }
}

/// The history stored under an address: the first entry with that key, if
/// any.
pub open spec fn spec_find(
    s: Seq<(u32, PositionFrameHistory)>,
    addr: u32,
) -> Option<PositionFrameHistory>
    decreases s.len(),
{
    if s.len() == 0 {
        Option::None
    } else if s[0].0 == addr {
        Option::Some(s[0].1)
    } else {
        spec_find(s.drop_first(), addr)
    }
}

proof fn lemma_spec_find_update(
    s: Seq<(u32, PositionFrameHistory)>,
    i: int,
    addr: u32,
    h: PositionFrameHistory,
)
    requires
        0 <= i < s.len(),
        s[i].0 == addr,
        forall|k: int| 0 <= k < i ==> (#[trigger] s[k]).0 != addr,
    ensures
        spec_find(s.update(i, (addr, h)), addr) == Option::Some(h),
        forall|a2: u32| a2 != addr ==> spec_find(s.update(i, (addr, h)), a2) == spec_find(s, a2),
    decreases i,
{
    let su = s.update(i, (addr, h));
    if i == 0 {
        assert(su[0] == (addr, h));
        assert forall|a2: u32| a2 != addr implies spec_find(su, a2) == spec_find(s, a2) by {
            assert(su.drop_first() =~= s.drop_first());
        }
    } else {
        lemma_spec_find_update(s.drop_first(), i - 1, addr, h);
        assert(su.drop_first() =~= s.drop_first().update(i - 1, (addr, h)));
        assert(su[0] == s[0]);
        assert(s[0].0 != addr);
        assert(spec_find(su, addr) == spec_find(su.drop_first(), addr));
        assert forall|a2: u32| a2 != addr implies spec_find(su, a2) == spec_find(s, a2) by {
            if s[0].0 == a2 {
                assert(spec_find(su, a2) == Option::Some(su[0].1));
            } else {
                assert(spec_find(su, a2) == spec_find(su.drop_first(), a2));
                assert(spec_find(s, a2) == spec_find(s.drop_first(), a2));
            }
        }
    }
}

proof fn lemma_spec_find_push(
    s: Seq<(u32, PositionFrameHistory)>,
    e: (u32, PositionFrameHistory),
    a: u32,
)
    ensures
        spec_find(s.push(e), a) == (match spec_find(s, a) {
            Option::Some(x) => Option::Some(x),
            Option::None => if e.0 == a {
                Option::Some(e.1)
            } else {
                Option::<PositionFrameHistory>::None
            },
        }),
    decreases s.len(),
{
    let sp = s.push(e);
    if s.len() == 0 {
        assert(sp[0] == e);
        assert(sp.drop_first() =~= Seq::<(u32, PositionFrameHistory)>::empty());
    } else {
        lemma_spec_find_push(s.drop_first(), e, a);
        assert(sp.drop_first() =~= s.drop_first().push(e));
        assert(sp[0] == s[0]);
        if s[0].0 == a {
            assert(spec_find(sp, a) == Option::Some(sp[0].1));
        } else {
            assert(spec_find(sp, a) == spec_find(sp.drop_first(), a));
            assert(spec_find(s, a) == spec_find(s.drop_first(), a));
        }
    }
}

/// Position-report histories keyed by ICAO address: one history per
/// aircraft, created on its first position report.
pub struct CprTracker {
    /// The `(address, history)` entries, one per address.
    pub entries: Vec<(u32, PositionFrameHistory)>,
}

impl CprTracker {
    /// Every address occurs once and every history is well formed.
    pub open spec fn wf(&self) -> bool {
        &&& forall|i: int, j: int|
            0 <= i < j < self.entries@.len() ==> (#[trigger] self.entries@[i]).0 != (
            #[trigger] self.entries@[j]).0
        &&& forall|i: int|
            0 <= i < self.entries@.len() ==> (#[trigger] self.entries@[i]).1.wf()
    }

    /// The history stored under an address, if any.
    pub open spec fn spec_history_of(&self, addr: u32) -> Option<PositionFrameHistory> {
        spec_find(self.entries@, addr)
    }

    /// Makes an empty tracker.
    pub fn new() -> (t: CprTracker)
        ensures
            t.wf(),
            forall|addr: u32| t.spec_history_of(addr) is None,
    {
        CprTracker { entries: Vec::new() }
    }

    /// Reads the history stored under an address.
    pub fn history_of(&self, addr: u32) -> (r: Option<PositionFrameHistory>)
        requires
            self.wf(),
        ensures
            r == self.spec_history_of(addr),
            r matches Some(h) ==> h.wf(),
    {
        proof {
            assert(self.entries@.skip(0) =~= self.entries@);
        }
        let mut idx: usize = 0;
        while idx < self.entries.len()
            invariant
                self.wf(),
                idx <= self.entries@.len(),
                spec_find(self.entries@.skip(idx as int), addr) == self.spec_history_of(addr),
                forall|k: int| 0 <= k < idx ==> (#[trigger] self.entries@[k]).0 != addr,
            decreases self.entries@.len() - idx,
        {
            proof {
                assert(self.entries@.skip(idx as int)[0] == self.entries@[idx as int]);
                assert(self.entries@.skip(idx as int).drop_first() =~= self.entries@.skip(
                    idx as int + 1,
                ));
            }
            let e = self.entries[idx];
            if e.0 == addr {
                return Some(e.1);
            }
            idx += 1;
        }
        proof {
            assert(self.entries@.skip(self.entries@.len() as int)
                =~= Seq::<(u32, PositionFrameHistory)>::empty());
        }
        None
    }

    /// Stores a position report under its address and parity: the address's
    /// history is updated in place, or created from empty on the aircraft's
    /// first report. Other addresses keep their histories.
    pub fn record(&mut self, addr: u32, fflag: bool, lat: u32, lon: u32, now: u32)
        requires
            old(self).wf(),
            lat < 131072,
            lon < 131072,
        ensures
            final(self).wf(),
            final(self).spec_history_of(addr) == Option::Some(
                (match old(self).spec_history_of(addr) {
                    Option::Some(h) => h,
                    Option::None => PositionFrameHistory {
                        even_seen: false,
                        even_lat: 0,
                        even_lon: 0,
                        even_time: 0,
                        odd_seen: false,
                        odd_lat: 0,
                        odd_lon: 0,
                        odd_time: 0,
                    },
                }).spec_store(fflag, lat, lon, now),
            ),
            forall|a2: u32|
                a2 != addr ==> final(self).spec_history_of(a2) == old(self).spec_history_of(a2),
    {
        let n = self.entries.len();
        proof {
            assert(self.entries@.skip(0) =~= self.entries@);
        }
        let mut idx: usize = 0;
        while idx < n
            invariant
                self == old(self),
                self.wf(),
                lat < 131072,
                lon < 131072,
                n == self.entries@.len(),
                idx <= n,
                spec_find(self.entries@.skip(idx as int), addr) == self.spec_history_of(addr),
                forall|k: int| 0 <= k < idx ==> (#[trigger] self.entries@[k]).0 != addr,
            decreases n - idx,
        {
            proof {
                assert(self.entries@.skip(idx as int)[0] == self.entries@[idx as int]);
                assert(self.entries@.skip(idx as int).drop_first() =~= self.entries@.skip(
                    idx as int + 1,
                ));
            }
            let e = self.entries[idx];
            if e.0 == addr {
                let mut h = e.1;
                proof {
                    assert(e.1.wf());
                }
                h.store(fflag, lat, lon, now);
                self.entries.set(idx, (addr, h));
                proof {
                    lemma_spec_find_update(old(self).entries@, idx as int, addr, h);
                    assert(h.wf());
                    assert forall|i: int, j: int|
                        0 <= i < j < self.entries@.len() implies (#[trigger] self.entries@[i]).0
                        != (#[trigger] self.entries@[j]).0 by {
                        assert((old(self).entries@[i]).0 != (old(self).entries@[j]).0);
                        assert((old(self).entries@[idx as int]).0 == addr);
                    }
                    assert forall|i: int| 0 <= i < self.entries@.len() implies (
                    #[trigger] self.entries@[i]).1.wf() by {
                        assert((old(self).entries@[i]).1.wf());
                    }
                }
                return ;
            }
            idx += 1;
        }
        proof {
            assert(self.entries@.skip(n as int) =~= Seq::<(u32, PositionFrameHistory)>::empty());
        }
        let mut h = PositionFrameHistory::new();
        h.store(fflag, lat, lon, now);
        self.entries.push((addr, h));
        proof {
            assert forall|a2: u32| true implies spec_find(
                old(self).entries@.push((addr, h)),
                a2,
            ) == (match spec_find(old(self).entries@, a2) {
                Option::Some(x) => Option::Some(x),
                Option::None => if addr == a2 {
                    Option::Some(h)
                } else {
                    Option::<PositionFrameHistory>::None
                },
            }) by {
                lemma_spec_find_push(old(self).entries@, (addr, h), a2);
            }
            assert(h.wf());
            assert forall|i: int, j: int|
                0 <= i < j < self.entries@.len() implies (#[trigger] self.entries@[i]).0 != (
            #[trigger] self.entries@[j]).0 by {
                if j < old(self).entries@.len() {
                    assert((old(self).entries@[i]).0 != (old(self).entries@[j]).0);
                } else {
                    assert((old(self).entries@[i]).0 != addr);
                }
            }
            assert forall|i: int| 0 <= i < self.entries@.len() implies (
            #[trigger] self.entries@[i]).1.wf() by {
                if i < old(self).entries@.len() {
                    assert((old(self).entries@[i]).1.wf());
                }
            }
        }
    }
}

/// Stores a new position report and then tries to resolve a global
/// position from the address's updated even/odd history, as the decode
/// pipeline does for every airborne-position frame. The report is stored
/// whether or not resolution succeeds.
pub fn cpr_store_and_resolve(
    tracker: &mut CprTracker,
    addr: u32,
    fflag: bool,
    lat: u32,
    lon: u32,
    now: u32,
) -> (r: Result<CprPosition, crate::DecodeError>)
    requires
        old(tracker).wf(),
        lat < 131072,
        lon < 131072,
    ensures
        final(tracker).wf(),
        final(tracker).spec_history_of(addr) == Option::Some(
            (match old(tracker).spec_history_of(addr) {
                Option::Some(h) => h,
                Option::None => PositionFrameHistory {
                    even_seen: false,
                    even_lat: 0,
                    even_lon: 0,
                    even_time: 0,
                    odd_seen: false,
                    odd_lat: 0,
                    odd_lon: 0,
                    odd_time: 0,
                },
            }).spec_store(fflag, lat, lon, now),
        ),
        forall|a2: u32|
            a2 != addr ==> final(tracker).spec_history_of(a2) == old(tracker).spec_history_of(a2),
        match spec_cpr(final(tracker).spec_history_of(addr)->Some_0) {
            Option::Some(p) => r matches Ok(q) && q.lat_microdeg == p.0 && q.lon_microdeg == p.1,
            Option::None => r matches Err(e) && e == crate::DecodeError::CprUnresolved,
        },
{
    tracker.record(addr, fflag, lat, lon, now);
    let stored = tracker.history_of(addr);
    match stored {
        Some(h) => cpr_resolve(&h),
        None => Err(crate::DecodeError::CprUnresolved),
    }
}

} // verus!
