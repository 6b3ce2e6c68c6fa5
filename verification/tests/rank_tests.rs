use nearsat::errors::ErrorKind;
use nearsat::rank::{collate, rank, Failure, Outcome, RankedEntry};

fn entry(id: u64, distance_km: f64) -> RankedEntry {
    RankedEntry {
        norad_id: id,
        lat_bits: 0.0f64.to_bits(),
        lon_bits: 0.0f64.to_bits(),
        alt_bits: 400.0f64.to_bits(),
        distance_bits: distance_km.to_bits(),
    }
}

#[test]
fn rank_sorts_ascending_by_distance() {
    let v = vec![entry(3, 500.25), entry(1, 12.5), entry(2, 100.0)];
    let r = rank(&v);
    let ids: Vec<u64> = r.iter().map(|e| e.norad_id).collect();
    assert_eq!(ids, vec![1, 2, 3]);
    let d0 = f64::from_bits(r[0].distance_bits);
    assert_eq!(d0, 12.5);
}

#[test]
fn rank_breaks_ties_by_id_ascending() {
    let v = vec![entry(42, 77.0), entry(7, 77.0), entry(42, 5.0)];
    let r = rank(&v);
    let ids: Vec<u64> = r.iter().map(|e| e.norad_id).collect();
    assert_eq!(ids, vec![42, 7, 42]);
    assert_eq!(f64::from_bits(r[0].distance_bits), 5.0);
}

#[test]
fn rank_keeps_every_entry() {
    let v = vec![entry(5, 3.0), entry(6, 2.0), entry(7, 1.0), entry(8, 2.0)];
    let r = rank(&v);
    assert_eq!(r.len(), 4);
    let mut ids: Vec<u64> = r.iter().map(|e| e.norad_id).collect();
    ids.sort();
    assert_eq!(ids, vec![5, 6, 7, 8]);
}

#[test]
fn collate_excludes_failures_from_ranking() {
    let outcomes = vec![
        Outcome::Placed(entry(1, 900.0)),
        Outcome::Failed(Failure { norad_id: 2, kind: ErrorKind::DeepSpaceUnsupported }),
        Outcome::Placed(entry(3, 80.0)),
        Outcome::Failed(Failure { norad_id: 4, kind: ErrorKind::Decayed }),
    ];
    let q = collate(&outcomes);
    let ids: Vec<u64> = q.ranking.iter().map(|e| e.norad_id).collect();
    assert_eq!(ids, vec![3, 1]);
    assert_eq!(q.failures.len(), 2);
    assert_eq!(q.failures[0].norad_id, 2);
    assert_eq!(q.failures[0].kind, ErrorKind::DeepSpaceUnsupported);
    assert_eq!(q.failures[1].norad_id, 4);
    assert_eq!(q.failures[1].kind, ErrorKind::Decayed);
}

#[test]
fn collate_injected_failure_leaves_ranking_unchanged() {
    let base = vec![
        Outcome::Placed(entry(1, 900.0)),
        Outcome::Placed(entry(2, 80.0)),
        Outcome::Placed(entry(3, 450.0)),
    ];
    let mut with_bad = base.clone();
    with_bad.insert(1, Outcome::Failed(Failure { norad_id: 9, kind: ErrorKind::ElementsOutOfRange }));
    let q0 = collate(&base);
    let q1 = collate(&with_bad);
    assert_eq!(q0.ranking, q1.ranking);
    assert_eq!(q1.failures.len(), 1);
    assert_eq!(q1.failures[0].norad_id, 9);
}

#[test]
fn collate_is_deterministic_over_a_large_batch() {
    let mut outcomes = Vec::new();
    for i in 0..1000u64 {
        // a scattered but reproducible distance pattern, with ties
        let d = ((i * 7919) % 997) as f64 * 3.25;
        if i % 97 == 0 {
            outcomes.push(Outcome::Failed(Failure {
                norad_id: i,
                kind: ErrorKind::NumericOverflow,
            }));
        } else {
            outcomes.push(Outcome::Placed(entry(i, d)));
        }
    }
    let a = collate(&outcomes);
    let b = collate(&outcomes);
    assert_eq!(a.ranking, b.ranking);
    assert_eq!(a.failures, b.failures);
    // sorted non-decreasing, ties by id
    for w in a.ranking.windows(2) {
        let d0 = f64::from_bits(w[0].distance_bits);
        let d1 = f64::from_bits(w[1].distance_bits);
        assert!(d0 < d1 || (d0 == d1 && w[0].norad_id <= w[1].norad_id));
    }
}
