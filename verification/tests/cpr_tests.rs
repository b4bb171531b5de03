use modes_decode::cpr::{
    cpr_nl_rational, cpr_resolve, cpr_store_and_resolve, CprTracker, PositionFrameHistory,
};
use modes_decode::DecodeError;

/// Number of longitude zones from the closed-form formula.
fn nl_closed_form(lat: f64) -> i32 {
    let a = lat.abs();
    if a >= 87.0 {
        if a > 87.0 {
            return 1;
        }
        return 2;
    }
    let nz = 15.0;
    let num = 1.0 - (std::f64::consts::PI / (2.0 * nz)).cos();
    let den = (std::f64::consts::PI / 180.0 * a).cos().powi(2);
    (2.0 * std::f64::consts::PI / (1.0 - num / den).acos()).floor() as i32
}

/// Latitude where the zone count drops from `nl` to `nl - 1`.
fn nl_transition(nl: i32) -> f64 {
    let nz = 15.0;
    let num = 1.0 - (std::f64::consts::PI / (2.0 * nz)).cos();
    let den = 1.0 - (2.0 * std::f64::consts::PI / nl as f64).cos();
    (180.0 / std::f64::consts::PI) * (num / den).sqrt().acos()
}

fn nl_of_degrees(lat: f64) -> u32 {
    let microdeg = (lat * 1e6).round() as i64;
    cpr_nl_rational(microdeg, 1_000_000)
}

#[test]
fn nl_table_agrees_with_closed_form_at_breakpoints() {
    for nl in 2..=59 {
        let t = nl_transition(nl);
        let below = t - 2e-6;
        let above = t + 2e-6;
        assert_eq!(
            nl_of_degrees(below) as i32,
            nl_closed_form(below),
            "below transition of NL={} at {}",
            nl,
            t
        );
        assert_eq!(
            nl_of_degrees(above) as i32,
            nl_closed_form(above),
            "above transition of NL={} at {}",
            nl,
            t
        );
        assert_eq!(nl_of_degrees(below), nl as u32);
        assert_eq!(nl_of_degrees(above), nl as u32 - 1);
    }
}

#[test]
fn nl_table_agrees_with_closed_form_on_grid() {
    let mut lat = -89.9;
    while lat < 90.0 {
        let table = nl_of_degrees(lat) as i32;
        let closed = nl_closed_form(lat);
        assert_eq!(table, closed, "at latitude {}", lat);
        lat += 0.7;
    }
}

/// Encodes a position into the 17-bit zone counts of one parity, as a
/// transmitter would.
fn cpr_encode(lat: f64, lon: f64, odd: bool) -> (u32, u32) {
    let nb = 131072.0f64;
    let dlat = if odd { 360.0 / 59.0 } else { 360.0 / 60.0 };
    let yz = (nb * (lat.rem_euclid(dlat)) / dlat + 0.5).floor();
    let rlat = dlat * (yz / nb + (lat / dlat).floor());
    let nl = (nl_closed_form(rlat) - if odd { 1 } else { 0 }).max(1);
    let dlon = 360.0 / nl as f64;
    let xz = (nb * (lon.rem_euclid(dlon)) / dlon + 0.5).floor();
    ((yz as i64).rem_euclid(131072) as u32, (xz as i64).rem_euclid(131072) as u32)
}

#[test]
fn cpr_round_trip_recovers_position() {
    let cases = [
        (52.2572, 3.91937),
        (-33.8688, 151.2093),
        (37.6188, -122.3754),
        (0.1, 0.1),
        (64.15, -21.94),
    ];
    for &(lat, lon) in &cases {
        let (even_lat, even_lon) = cpr_encode(lat, lon, false);
        let (odd_lat, odd_lon) = cpr_encode(lat, lon, true);
        let hist = PositionFrameHistory {
            even_seen: true,
            even_lat,
            even_lon,
            even_time: 100,
            odd_seen: true,
            odd_lat,
            odd_lon,
            odd_time: 100,
        };
        let pos = cpr_resolve(&hist).expect("pair should resolve");
        let got_lat = pos.lat_microdeg as f64 / 1e6;
        let got_lon = pos.lon_microdeg as f64 / 1e6;
        assert!(
            (got_lat - lat).abs() < 3e-5,
            "latitude {} resolved as {}",
            lat,
            got_lat
        );
        assert!(
            (got_lon - lon).abs() < 1e-4,
            "longitude {} resolved as {}",
            lon,
            got_lon
        );
    }
}

#[test]
fn golden_pair_resolves_near_52_25() {
    // The classic airborne-position pair: even counts (93000, 51372), odd
    // counts (74158, 50194), even frame most recent.
    let mut tracker = CprTracker::new();
    let addr = 0x40621d;
    let first = cpr_store_and_resolve(&mut tracker, addr, true, 74158, 50194, 10);
    assert_eq!(first, Err(DecodeError::CprUnresolved));
    let pos = cpr_store_and_resolve(&mut tracker, addr, false, 93000, 51372, 11)
        .expect("pair should resolve");
    assert!((pos.lat_microdeg - 52_257_202).abs() <= 1000, "lat {}", pos.lat_microdeg);
    assert!((pos.lon_microdeg - 3_919_373).abs() <= 1000, "lon {}", pos.lon_microdeg);
}

#[test]
fn stale_pair_does_not_resolve() {
    let mut tracker = CprTracker::new();
    let addr = 0x40621d;
    let _ = cpr_store_and_resolve(&mut tracker, addr, true, 74158, 50194, 10);
    let late = cpr_store_and_resolve(&mut tracker, addr, false, 93000, 51372, 21);
    assert_eq!(late, Err(DecodeError::CprUnresolved));
    // Within the window the same pair resolves.
    let refresh = cpr_store_and_resolve(&mut tracker, addr, true, 74158, 50194, 25);
    assert!(refresh.is_ok());
}

#[test]
fn zone_straddling_pair_is_rejected() {
    // Encode the even report just below a zone transition and the odd one
    // just above it: the candidate latitudes disagree on the zone count.
    let t = nl_transition(36);
    let (even_lat, even_lon) = cpr_encode(t - 0.0005, 5.0, false);
    let (odd_lat, odd_lon) = cpr_encode(t + 0.0005, 5.0, true);
    let hist = PositionFrameHistory {
        even_seen: true,
        even_lat,
        even_lon,
        even_time: 100,
        odd_seen: true,
        odd_lat,
        odd_lon,
        odd_time: 100,
    };
    assert_eq!(cpr_resolve(&hist), Err(DecodeError::CprUnresolved));
}

#[test]
fn histories_are_kept_per_address() {
    let mut tracker = CprTracker::new();
    let _ = cpr_store_and_resolve(&mut tracker, 0x111111, true, 74158, 50194, 10);
    // A different aircraft's even report does not pair with the first
    // aircraft's odd report.
    let other = cpr_store_and_resolve(&mut tracker, 0x222222, false, 93000, 51372, 11);
    assert_eq!(other, Err(DecodeError::CprUnresolved));
    let same = cpr_store_and_resolve(&mut tracker, 0x111111, false, 93000, 51372, 11);
    assert!(same.is_ok());
}
