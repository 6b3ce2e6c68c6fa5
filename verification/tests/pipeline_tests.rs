use nearsat::decode::{decode_record, RawRecord};
use nearsat::errors::ErrorKind;
use nearsat::propagate::{assess, gmst_bits, prepare, TemeStateBits};
use nearsat::rank::{collate, Outcome};

fn b(s: &str) -> Option<Vec<u8>> {
    Some(s.as_bytes().to_vec())
}

fn leo_record(norad: &str, mean_motion: &str, mean_anomaly: &str) -> RawRecord {
    RawRecord {
        norad_cat_id: b(norad),
        epoch: b("2024-01-01T00:00:00"),
        mean_motion: b(mean_motion),
        eccentricity: b("0.0004976"),
        inclination: b("51.6416"),
        ra_of_asc_node: b("252.6612"),
        arg_of_pericenter: b("13.0723"),
        mean_anomaly: b(mean_anomaly),
        bstar: b("0.00028061"),
        ephemeris_type: b("0"),
    }
}

const EPOCH_MICROS: i64 = 1_704_067_200_000_000; // 2024-01-01T00:00:00Z

fn teme_to_geodetic(s: &TemeStateBits, gmst: f64) -> (f64, f64, f64) {
    let x = f64::from_bits(s.px);
    let y = f64::from_bits(s.py);
    let z = f64::from_bits(s.pz);
    // rotate TEME into ECEF by the earth rotation angle
    let (sg, cg) = gmst.sin_cos();
    let xe = cg * x + sg * y;
    let ye = -sg * x + cg * y;
    let ze = z;
    ecef_to_geodetic(xe, ye, ze)
}

fn ecef_to_geodetic(x: f64, y: f64, z: f64) -> (f64, f64, f64) {
    let a = 6378.137f64;
    let f = 1.0 / 298.257223563;
    let e2 = f * (2.0 - f);
    let lon = y.atan2(x);
    let p = (x * x + y * y).sqrt();
    if p == 0.0 {
        let lat = if z >= 0.0 { std::f64::consts::FRAC_PI_2 } else { -std::f64::consts::FRAC_PI_2 };
        return (lat, 0.0, z.abs() - a * (1.0 - f));
    }
    let mut lat = z.atan2(p * (1.0 - e2));
    let mut alt = 0.0;
    for _ in 0..12 {
        let n = a / (1.0 - e2 * lat.sin() * lat.sin()).sqrt();
        alt = p / lat.cos() - n;
        lat = z.atan2(p * (1.0 - e2 * n / (n + alt)));
    }
    (lat, lon, alt)
}

fn geodetic_to_ecef(lat: f64, lon: f64, alt: f64) -> (f64, f64, f64) {
    let a = 6378.137f64;
    let f = 1.0 / 298.257223563;
    let e2 = f * (2.0 - f);
    let n = a / (1.0 - e2 * lat.sin() * lat.sin()).sqrt();
    (
        (n + alt) * lat.cos() * lon.cos(),
        (n + alt) * lat.cos() * lon.sin(),
        (n * (1.0 - e2) + alt) * lat.sin(),
    )
}

fn haversine_km(lat1: f64, lon1: f64, lat2: f64, lon2: f64) -> f64 {
    let r = 6371.0f64;
    let d_lat = lat2 - lat1;
    let d_lon = lon2 - lon1;
    let h = (d_lat / 2.0).sin().powi(2) + lat1.cos() * lat2.cos() * (d_lon / 2.0).sin().powi(2);
    r * 2.0 * h.sqrt().atan2((1.0 - h).sqrt())
}

fn subsat_at_epoch(rec: &RawRecord) -> (f64, f64, f64) {
    let e = decode_record(rec).expect("record should decode");
    let p = prepare(&e).expect("near-earth record should prepare");
    let s = p.propagate_at(EPOCH_MICROS).expect("propagation at epoch should succeed");
    let gmst = f64::from_bits(gmst_bits(EPOCH_MICROS).expect("instant in range"));
    teme_to_geodetic(&s, gmst)
}

#[test]
fn iss_altitude_and_latitude_band_at_epoch() {
    let (lat, _lon, alt) = subsat_at_epoch(&leo_record("25544", "15.49541585", "347.0398"));
    assert!(alt > 390.0 && alt < 440.0, "altitude {alt} km out of LEO band");
    assert!(lat.abs() <= 51.7f64.to_radians(), "latitude outside inclination band");
}

#[test]
fn position_magnitude_matches_elements_at_epoch() {
    // at zero offset from epoch the state must sit between perigee and
    // apogee of the orbit the elements describe, up to the mean-to
    // -osculating corrections
    let rec = leo_record("25544", "15.49541585", "347.0398");
    let e = decode_record(&rec).expect("record should decode");
    let p = prepare(&e).expect("prepare");
    let s = p.propagate_at(EPOCH_MICROS).expect("propagate");
    let x = f64::from_bits(s.px);
    let y = f64::from_bits(s.py);
    let z = f64::from_bits(s.pz);
    let rmag = (x * x + y * y + z * z).sqrt();
    let mu = 398600.4418f64;
    let n_rad_s = 15.49541585 * 2.0 * std::f64::consts::PI / 86400.0;
    let a = (mu / (n_rad_s * n_rad_s)).cbrt();
    let ecc = 0.0004976;
    assert!(rmag > a * (1.0 - ecc) - 30.0 && rmag < a * (1.0 + ecc) + 30.0);
}

#[test]
fn identity_at_epoch_surface_distance() {
    let rec = leo_record("25544", "15.49541585", "347.0398");
    let (lat, lon, _alt) = subsat_at_epoch(&rec);
    // an observer placed at the returned sub-satellite point is at
    // essentially zero surface distance from it
    let (lat2, lon2, _alt2) = subsat_at_epoch(&rec);
    let d = haversine_km(lat, lon, lat2, lon2);
    assert!(d <= 1e-3, "distance {d} km");
}

#[test]
fn deep_space_record_is_rejected_not_fatal() {
    let deep = leo_record("99001", "1.0", "0.0");
    let e = decode_record(&deep).expect("record should decode");
    assert!(e.is_deep_space());
    let err = prepare(&e).err().expect("deep-space must be rejected");
    assert_eq!(err, ErrorKind::DeepSpaceUnsupported);

    // in a batch it becomes a failure entry and the others still rank
    let good = leo_record("25544", "15.49541585", "347.0398");
    let mut outcomes: Vec<Outcome> = Vec::new();
    for rec in [&good, &deep] {
        let e = decode_record(rec).unwrap();
        match prepare(&e) {
            Err(k) => outcomes.push(Outcome::Failed(nearsat::rank::Failure {
                norad_id: e.norad_id,
                kind: k,
            })),
            Ok(p) => {
                let s = p.propagate_at(EPOCH_MICROS).unwrap();
                let gmst = f64::from_bits(gmst_bits(EPOCH_MICROS).unwrap());
                let (lat, lon, alt) = teme_to_geodetic(&s, gmst);
                let d = haversine_km(0.0, 0.0, lat, lon);
                outcomes.push(assess(
                    p.id(),
                    lat.to_bits(),
                    lon.to_bits(),
                    alt.to_bits(),
                    d.to_bits(),
                ));
            }
        }
    }
    let q = collate(&outcomes);
    assert_eq!(q.ranking.len(), 1);
    assert_eq!(q.ranking[0].norad_id, 25544);
    assert_eq!(q.failures.len(), 1);
    assert_eq!(q.failures[0].norad_id, 99001);
    assert_eq!(q.failures[0].kind, ErrorKind::DeepSpaceUnsupported);
}

#[test]
fn decayed_orbit_reports_decayed() {
    // mean motion 17.5 rev/day puts the orbit below the surface
    let rec = leo_record("99002", "17.5", "0.0");
    let e = decode_record(&rec).expect("record should decode");
    let outcome = match prepare(&e) {
        Err(k) => Outcome::Failed(nearsat::rank::Failure { norad_id: e.norad_id, kind: k }),
        Ok(p) => match p.propagate_at(EPOCH_MICROS) {
            Err(k) => Outcome::Failed(nearsat::rank::Failure { norad_id: e.norad_id, kind: k }),
            Ok(s) => {
                let gmst = f64::from_bits(gmst_bits(EPOCH_MICROS).unwrap());
                let (lat, lon, alt) = teme_to_geodetic(&s, gmst);
                let d = haversine_km(0.0, 0.0, lat, lon);
                assess(e.norad_id, lat.to_bits(), lon.to_bits(), alt.to_bits(), d.to_bits())
            }
        },
    };
    match outcome {
        Outcome::Failed(f) => assert_eq!(f.kind, ErrorKind::Decayed),
        Outcome::Placed(_) => panic!("a sub-surface orbit must not be ranked"),
    }
}

#[test]
fn nearest_of_two_is_the_overhead_one() {
    let near = leo_record("11111", "15.49541585", "347.0398");
    let far = leo_record("22222", "15.49541585", "167.0398");
    // the observer stands at the first satellite's sub-satellite point
    let (olat, olon, _) = subsat_at_epoch(&near);
    let mut outcomes: Vec<Outcome> = Vec::new();
    for rec in [&near, &far] {
        let e = decode_record(rec).unwrap();
        let p = prepare(&e).unwrap();
        let s = p.propagate_at(EPOCH_MICROS).unwrap();
        let gmst = f64::from_bits(gmst_bits(EPOCH_MICROS).unwrap());
        let (lat, lon, alt) = teme_to_geodetic(&s, gmst);
        let d = haversine_km(olat, olon, lat, lon);
        outcomes.push(assess(p.id(), lat.to_bits(), lon.to_bits(), alt.to_bits(), d.to_bits()));
    }
    let q = collate(&outcomes);
    assert_eq!(q.ranking.len(), 2);
    assert_eq!(q.ranking[0].norad_id, 11111);
    assert!(q.failures.is_empty());
}

#[test]
fn fractional_epoch_with_zulu_still_propagates() {
    let mut rec = leo_record("25544", "15.49541585", "347.0398");
    rec.epoch = b("2024-01-01T00:00:00.250000Z");
    let e = decode_record(&rec).expect("record should decode");
    let p = prepare(&e).expect("prepare should accept a fractional epoch");
    let s = p.propagate_at(EPOCH_MICROS).expect("propagate");
    assert!(f64::from_bits(s.px).is_finite());
}

#[test]
fn nearest_is_head_of_ranking() {
    let q = collate(&vec![]);
    assert!(q.nearest().is_none());
}

#[test]
fn gmst_repeats_after_one_sidereal_day() {
    let t0 = EPOCH_MICROS;
    let t1 = t0 + 86_164_090_500; // 86164.0905 s in microseconds
    let g0 = f64::from_bits(gmst_bits(t0).unwrap());
    let g1 = f64::from_bits(gmst_bits(t1).unwrap());
    let two_pi = 2.0 * std::f64::consts::PI;
    let mut d = (g1 - g0) % two_pi;
    if d > std::f64::consts::PI {
        d -= two_pi;
    }
    if d < -std::f64::consts::PI {
        d += two_pi;
    }
    assert!(d.abs() <= 1e-8, "gmst drift {d} rad over one sidereal day");
}

#[test]
fn gmst_is_normalized() {
    for k in 0..48 {
        let t = EPOCH_MICROS + k * 1_800_000_000;
        let g = f64::from_bits(gmst_bits(t).unwrap());
        assert!(g >= 0.0 && g < 2.0 * std::f64::consts::PI);
    }
}

#[test]
fn frame_round_trip_is_identity() {
    // geodetic -> ECEF -> geodetic, with the same conversions the
    // front end uses, is the identity to 1e-9 rad and 1e-6 km for
    // latitudes up to 89 degrees
    for lat_deg in [-89.0f64, -60.0, -34.56, 0.0, 12.0, 51.64, 89.0] {
        for lon_deg in [-179.5f64, -118.76, 0.0, 77.0, 179.5] {
            for alt in [0.0f64, 0.42, 420.0, 35786.0] {
                let lat = lat_deg.to_radians();
                let lon = lon_deg.to_radians();
                let (x, y, z) = geodetic_to_ecef(lat, lon, alt);
                let (lat2, lon2, alt2) = ecef_to_geodetic(x, y, z);
                assert!((lat2 - lat).abs() <= 1e-9, "lat {lat_deg}");
                assert!((lon2 - lon).abs() <= 1e-9, "lon {lon_deg}");
                assert!((alt2 - alt).abs() <= 1e-6, "alt {alt}");
            }
        }
    }
}

#[test]
fn haversine_symmetry_and_identity() {
    let pts = [
        (0.0f64, 0.0f64),
        (34.56f64.to_radians(), -118.76f64.to_radians()),
        (51.64f64.to_radians(), 77.0f64.to_radians()),
        (-89.0f64.to_radians(), 179.0f64.to_radians()),
    ];
    for &(la, lo) in &pts {
        assert_eq!(haversine_km(la, lo, la, lo), 0.0);
        for &(lb, lob) in &pts {
            let d_ab = haversine_km(la, lo, lb, lob);
            let d_ba = haversine_km(lb, lob, la, lo);
            assert_eq!(d_ab, d_ba);
        }
    }
}

#[test]
fn haversine_antipode_is_half_circumference() {
    let half = std::f64::consts::PI * 6371.0;
    for &(lat_deg, lon_deg) in &[(0.0f64, 0.0f64), (34.56, -118.76), (-51.64, 77.0)] {
        let la = lat_deg.to_radians();
        let lo = lon_deg.to_radians();
        let d = haversine_km(la, lo, -la, lo + std::f64::consts::PI);
        assert!((d - half).abs() <= 1e-6, "antipode distance {d}");
    }
}

#[test]
fn assess_flags_non_finite_as_numeric_overflow() {
    let o = assess(
        7,
        0.5f64.to_bits(),
        0.5f64.to_bits(),
        400.0f64.to_bits(),
        f64::NAN.to_bits(),
    );
    match o {
        Outcome::Failed(f) => {
            assert_eq!(f.norad_id, 7);
            assert_eq!(f.kind, ErrorKind::NumericOverflow);
        }
        Outcome::Placed(_) => panic!("a NaN distance must not be ranked"),
    }
}

#[test]
fn assess_flags_subsurface_altitude_as_decayed() {
    let o = assess(
        8,
        0.1f64.to_bits(),
        0.2f64.to_bits(),
        (-3.0f64).to_bits(),
        150.0f64.to_bits(),
    );
    match o {
        Outcome::Failed(f) => assert_eq!(f.kind, ErrorKind::Decayed),
        Outcome::Placed(_) => panic!("a sub-surface point must not be ranked"),
    }
}

#[test]
fn assess_places_a_sound_result() {
    let o = assess(
        9,
        0.1f64.to_bits(),
        0.2f64.to_bits(),
        420.0f64.to_bits(),
        150.0f64.to_bits(),
    );
    match o {
        Outcome::Placed(e) => {
            assert_eq!(e.norad_id, 9);
            assert_eq!(f64::from_bits(e.distance_bits), 150.0);
        }
        Outcome::Failed(_) => panic!("a sound result must be ranked"),
    }
}
