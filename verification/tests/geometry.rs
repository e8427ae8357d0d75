use rando_qc::geo::{
    approx_to_wgs84, distance_km, GeoPoint, ProjPoint, MONTREAL_LAT_UDEG, MONTREAL_LNG_UDEG,
};

fn gp(lat: i64, lng: i64) -> GeoPoint {
    GeoPoint { lat_udeg: lat, lng_udeg: lng }
}

#[test]
fn distance_of_point_to_itself_is_zero() {
    let montreal = gp(45_501_700, -73_567_300);
    assert_eq!(distance_km(montreal, montreal), 0);
}

#[test]
fn distance_is_symmetric() {
    let a = gp(45_501_700, -73_567_300);
    let b = gp(46_813_900, -71_208_000);
    assert_eq!(distance_km(a, b), distance_km(b, a));
}

#[test]
fn distance_montreal_to_quebec_city_plausible() {
    // roughly 233 km along the great circle
    let montreal = gp(MONTREAL_LAT_UDEG, MONTREAL_LNG_UDEG);
    let quebec = gp(46_813_900, -71_208_000);
    let d = distance_km(montreal, quebec);
    assert!(220_000 <= d && d <= 245_000, "got {}", d);
}

#[test]
fn distance_nearby_points_small() {
    // one thousandth of a degree of latitude is about 111 m
    let a = gp(46_000_000, -71_000_000);
    let b = gp(46_001_000, -71_000_000);
    let d = distance_km(a, b);
    assert!(100 <= d && d <= 125, "got {}", d);
}

#[test]
fn approx_reprojection_at_anchor() {
    let g = approx_to_wgs84(ProjPoint { x_mm: 1_700_000_000, y_mm: 0 });
    assert_eq!(g.lat_udeg, 46_000_000);
    assert_eq!(g.lng_udeg, -71_000_000);
}

#[test]
fn approx_reprojection_one_degree_north() {
    // 111,000 m of northing is one degree of latitude
    let g = approx_to_wgs84(ProjPoint { x_mm: 1_700_000_000, y_mm: 111_000_000 });
    assert_eq!(g.lat_udeg, 47_000_000);
    assert_eq!(g.lng_udeg, -71_000_000);
}

#[test]
fn approx_reprojection_east_of_anchor() {
    // 77,107.079121 m of easting is close to one degree of longitude at
    // the anchor latitude
    let g = approx_to_wgs84(ProjPoint { x_mm: 1_700_000_000 + 77_107_079, y_mm: 0 });
    assert_eq!(g.lat_udeg, 46_000_000);
    assert!((-70_000_002..=-70_000_000).contains(&g.lng_udeg), "got {}", g.lng_udeg);
}

#[test]
fn approx_reprojection_agrees_with_spherical_distance() {
    // a point 11,100 m north and ~7,710 m east of the anchor should land
    // about 0.1 degree north and 0.1 degree east of it
    let g = approx_to_wgs84(ProjPoint { x_mm: 1_700_000_000 + 7_710_708, y_mm: 11_100_000 });
    assert_eq!(g.lat_udeg, 46_100_000);
    let anchor = gp(46_000_000, -71_000_000);
    let d = distance_km(anchor, g);
    // ~11.1 km north and ~7.7 km east: about 13.5 km apart
    assert!(12_500 <= d && d <= 14_500, "got {}", d);
}
