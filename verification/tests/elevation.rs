use rando_qc::elevation::{
    batch_coordinates, build_elevation_url, calculate_elevation_stats, sample_coordinates,
    DEFAULT_SAMPLE_POINTS, ELEVATION_BATCH_SIZE,
};
use rando_qc::geo::GeoPoint;

fn gp(lat: i64, lng: i64) -> GeoPoint {
    GeoPoint { lat_udeg: lat, lng_udeg: lng }
}

fn ramp(n: i64) -> Vec<GeoPoint> {
    (0..n).map(|i| gp(46_000_000 + i, -71_000_000 - i)).collect()
}

#[test]
fn stats_gain_and_loss() {
    // elevation sequence [100, 150, 120, 200]
    let s = calculate_elevation_stats(&vec![100, 150, 120, 200]);
    assert_eq!(s.total_gain, 130);
    assert_eq!(s.total_loss, 30);
    assert_eq!(s.min, 100);
    assert_eq!(s.max, 200);
    assert_eq!(s.elevations, vec![100, 150, 120, 200]);
}

#[test]
fn stats_empty_is_all_zero() {
    let s = calculate_elevation_stats(&Vec::new());
    assert_eq!(s.min, 0);
    assert_eq!(s.max, 0);
    assert_eq!(s.total_gain, 0);
    assert_eq!(s.total_loss, 0);
    assert!(s.elevations.is_empty());
}

#[test]
fn stats_single_point() {
    let s = calculate_elevation_stats(&vec![-500]);
    assert_eq!(s.min, -500);
    assert_eq!(s.max, -500);
    assert_eq!(s.total_gain, 0);
    assert_eq!(s.total_loss, 0);
}

#[test]
fn sampling_short_path_unchanged() {
    let path = ramp(5);
    let out = sample_coordinates(&path, 10);
    assert_eq!(out, path);
}

#[test]
fn sampling_decimates_and_keeps_endpoints() {
    let path = ramp(10);
    let out = sample_coordinates(&path, 4);
    // positions floor(i * 10 / 4) for i in 0..4, plus the endpoint
    assert_eq!(out.len(), 5);
    assert_eq!(out[0], path[0]);
    assert_eq!(out[1], path[2]);
    assert_eq!(out[2], path[5]);
    assert_eq!(out[3], path[7]);
    assert_eq!(out[4], path[9]);
}

#[test]
fn sampling_bounds_hold_for_many_budgets() {
    let path = ramp(137);
    for m in 1..20usize {
        let out = sample_coordinates(&path, m);
        assert!(out.len() <= m + 1);
        assert_eq!(out[0], path[0]);
        assert_eq!(*out.last().unwrap(), *path.last().unwrap());
    }
    assert_eq!(DEFAULT_SAMPLE_POINTS, 100);
}

#[test]
fn sampling_zero_budget_keeps_endpoint() {
    let path = ramp(3);
    let out = sample_coordinates(&path, 0);
    assert_eq!(out, vec![path[2]]);
}

#[test]
fn batches_cap_and_preserve_order() {
    let path = ramp(250);
    let batches = batch_coordinates(&path);
    assert_eq!(batches.len(), 3);
    assert_eq!(batches[0].len(), ELEVATION_BATCH_SIZE);
    assert_eq!(batches[1].len(), ELEVATION_BATCH_SIZE);
    assert_eq!(batches[2].len(), 50);
    let glued: Vec<GeoPoint> = batches.into_iter().flatten().collect();
    assert_eq!(glued, path);
}

#[test]
fn batches_of_empty_path() {
    let batches = batch_coordinates(&Vec::new());
    assert!(batches.is_empty());
}

#[test]
fn elevation_url_exact() {
    let pts = vec![gp(45_501_700, -73_567_300), gp(46_000_000, -71_000_000)];
    let url = build_elevation_url(&pts);
    assert_eq!(
        url,
        "https://api.open-meteo.com/v1/elevation?latitude=45.501700,46.000000&longitude=-73.567300,-71.000000"
    );
}
