use rando_qc::json::{parse_features, CatalogError, FeatureDoc, JsonLite};
use rando_qc::trails::{
    build_catalog, feature_to_candidate, filter_trails, find_trail_by_name, get_trails_by_park,
    load_trails, Difficulty,
};

fn num(text: &str) -> JsonLite {
    JsonLite::Num(text.to_string())
}

fn pair(x: &str, y: &str) -> JsonLite {
    JsonLite::Arr(vec![num(x), num(y)])
}

fn line_feature(name: &str, park: &str, code: &str, diff: &str, len: &str, pts: Vec<JsonLite>) -> FeatureDoc {
    FeatureDoc {
        name: Some(name.to_string()),
        park: Some(park.to_string()),
        park_code: Some(code.to_string()),
        difficulty: Some(diff.to_string()),
        length_text: Some(len.to_string()),
        geom_type: Some("LineString".to_string()),
        coords: JsonLite::Arr(pts),
    }
}

#[test]
fn feature_rules_skip_placeholder_and_blank_names() {
    let f = line_feature("  Unknown  ", "P", "", "Facile", "1000", vec![pair("1", "2")]);
    assert!(feature_to_candidate(&f).is_none());
    let g = line_feature("   ", "P", "", "Facile", "1000", vec![pair("1", "2")]);
    assert!(feature_to_candidate(&g).is_none());
}

#[test]
fn feature_rules_defaults() {
    let f = FeatureDoc {
        name: Some(" Sentier B ".to_string()),
        park: None,
        park_code: None,
        difficulty: None,
        length_text: None,
        geom_type: Some("Point".to_string()),
        coords: pair("1700000", "0"),
    };
    let c = feature_to_candidate(&f).unwrap();
    assert_eq!(c.name, "Sentier B");
    assert_eq!(c.park, "Unknown");
    assert_eq!(c.park_code, "");
    assert_eq!(c.difficulty, "Unknown");
    assert_eq!(c.length_km, 0);
    assert_eq!(c.path.len(), 1);
    assert_eq!(c.path[0].x_mm, 1_700_000_000);
}

#[test]
fn difficulty_is_normalized_into_closed_set() {
    let mk = |label: &str| line_feature("T", "P", "", label, "1000", vec![pair("1700000", "0")]);
    assert_eq!(feature_to_candidate(&mk("Moyen")).unwrap().difficulty, "Unknown");
    assert_eq!(feature_to_candidate(&mk("  FACILE  ")).unwrap().difficulty, "Facile");
    assert_eq!(feature_to_candidate(&mk("intermediaire")).unwrap().difficulty, "Intermédiaire");
    assert_eq!(feature_to_candidate(&mk("DIFFICILE")).unwrap().difficulty, "Difficile");
    assert_eq!(feature_to_candidate(&mk("")).unwrap().difficulty, "Unknown");
}

#[test]
fn feature_rules_negative_length_reads_as_zero() {
    let f = line_feature("T", "P", "", "", "-2500", vec![pair("1700000", "0")]);
    let c = feature_to_candidate(&f).unwrap();
    assert_eq!(c.length_km, 0);
}

#[test]
fn feature_rules_skip_empty_geometry() {
    let f = FeatureDoc {
        name: Some("Sentier C".to_string()),
        park: Some("P".to_string()),
        park_code: None,
        difficulty: None,
        length_text: None,
        geom_type: Some("Polygon".to_string()),
        // a polygon's first element is a ring, not a number, so no pair
        coords: JsonLite::Arr(vec![JsonLite::Arr(vec![pair("1", "2")])]),
    };
    assert!(feature_to_candidate(&f).is_none());
}

#[test]
fn dedup_keeps_strictly_longest() {
    // two candidates sharing (name, park) with lengths 2.0 km and 3.5 km
    let a = line_feature("Sentier A", "Parc X", "px", "Facile", "2000", vec![
        pair("1700000", "0"),
        pair("1701000", "1000"),
    ]);
    let b = line_feature("Sentier A", "Parc X", "px", "Difficile", "3500", vec![
        pair("1700000", "0"),
        pair("1702000", "2000"),
        pair("1703000", "3000"),
    ]);
    let catalog = build_catalog(&vec![a, b]);
    assert_eq!(catalog.len(), 1);
    assert_eq!(catalog[0].name, "Sentier A");
    assert_eq!(catalog[0].park, "Parc X");
    // 3.5 km, in milli-kilometers
    assert_eq!(catalog[0].length_km, 3500);
    assert_eq!(catalog[0].coordinates_wgs84.len(), 3);
}

#[test]
fn dedup_equal_lengths_keep_first() {
    let a = line_feature("T", "P", "", "Facile", "2000", vec![pair("1700000", "0")]);
    let b = line_feature("T", "P", "", "Difficile", "2000", vec![pair("1700000", "0")]);
    let catalog = build_catalog(&vec![a, b]);
    assert_eq!(catalog.len(), 1);
    assert_eq!(catalog[0].difficulty, "Facile");
}

#[test]
fn catalog_sorted_by_park_then_name() {
    let mk = |name: &str, park: &str| line_feature(name, park, "", "", "1000", vec![pair("1700000", "0")]);
    let catalog = build_catalog(&vec![mk("Zed", "B"), mk("Alpha", "B"), mk("Mid", "A")]);
    let keys: Vec<(String, String)> =
        catalog.iter().map(|t| (t.park.clone(), t.name.clone())).collect();
    assert_eq!(
        keys,
        vec![
            ("A".to_string(), "Mid".to_string()),
            ("B".to_string(), "Alpha".to_string()),
            ("B".to_string(), "Zed".to_string()),
        ]
    );
}

#[test]
fn end_to_end_two_linestrings_merge() {
    let text = r#"{
        "features": [
            {
                "properties": {
                    "Toponyme1": "Sentier A",
                    "Nom_etab": "Parc X",
                    "Code_etab": "px",
                    "Niv_diff": "Facile",
                    "Shape_Leng": 2000.0
                },
                "geometry": {
                    "type": "LineString",
                    "coordinates": [[1700000.0, 0.0], [1701000.0, 1000.0]]
                }
            },
            {
                "properties": {
                    "Toponyme1": "Sentier A",
                    "Nom_etab": "Parc X",
                    "Code_etab": "px",
                    "Niv_diff": "Facile",
                    "Shape_Leng": 3500.0
                },
                "geometry": {
                    "type": "LineString",
                    "coordinates": [[1700000.0, 0.0], [1702000.0, 2000.0], [1703000.0, 3000.0]]
                }
            }
        ]
    }"#;
    let catalog = load_trails(text).unwrap();
    assert_eq!(catalog.len(), 1);
    assert_eq!(catalog[0].name, "Sentier A");
    assert_eq!(catalog[0].park, "Parc X");
    assert_eq!(catalog[0].length_km, 3500);
}

#[test]
fn load_requires_features_array() {
    assert_eq!(load_trails("{}").unwrap_err(), CatalogError::MissingFeatures);
    assert_eq!(
        load_trails("{\"features\": 7}").unwrap_err(),
        CatalogError::MissingFeatures
    );
    assert_eq!(load_trails("not json").unwrap_err(), CatalogError::InvalidJson);
    assert_eq!(parse_features("{\"features\": []}").unwrap().len(), 0);
}

#[test]
fn filter_length_window() {
    let mk = |name: &str, len: &str| line_feature(name, "P", "", "Facile", len, vec![pair("1700000", "0")]);
    let catalog = build_catalog(&vec![mk("A", "3000"), mk("B", "7000"), mk("C", "12000")]);
    // lengths in [5, 10] km, as milli-kilometers
    let hit = filter_trails(&catalog, None, None, Some(5000), Some(10000), None);
    assert_eq!(hit.len(), 1);
    assert_eq!(hit[0].name, "B");
}

#[test]
fn filter_composition_is_intersection() {
    let mk = |name: &str, len: &str| line_feature(name, "P", "", "Facile", len, vec![pair("1700000", "0")]);
    let catalog = build_catalog(&vec![
        mk("A", "3000"),
        mk("B", "7000"),
        mk("C", "9000"),
        mk("D", "12000"),
    ]);
    let first = filter_trails(&catalog, None, None, Some(5000), None, None);
    let composed = filter_trails(&first, None, None, None, Some(10000), None);
    let both = filter_trails(&catalog, None, None, Some(5000), Some(10000), None);
    let names = |ts: &Vec<rando_qc::trails::Trail>| -> Vec<String> {
        ts.iter().map(|t| t.name.clone()).collect::<Vec<String>>()
    };
    assert_eq!(names(&composed), names(&both));
    assert_eq!(names(&composed), vec!["B".to_string(), "C".to_string()]);
}

#[test]
fn filter_by_difficulty_and_park() {
    let a = line_feature("A", "Parc des Monts", "", "Facile", "1000", vec![pair("1700000", "0")]);
    let b = line_feature("B", "Parc des Lacs", "", "Difficile", "1000", vec![pair("1700000", "0")]);
    let catalog = build_catalog(&vec![a, b]);
    let easy = filter_trails(&catalog, Difficulty::from_str("facile"), None, None, None, None);
    assert_eq!(easy.len(), 1);
    assert_eq!(easy[0].name, "A");
    let lacs = filter_trails(&catalog, None, None, None, None, Some("LACS"));
    assert_eq!(lacs.len(), 1);
    assert_eq!(lacs[0].name, "B");
}

#[test]
fn find_by_name_case_insensitive_substring() {
    let a = line_feature("Sentier des Caps", "P", "", "", "1000", vec![pair("1700000", "0")]);
    let catalog = build_catalog(&vec![a]);
    assert!(find_trail_by_name(&catalog, "DES CAPS").is_some());
    assert!(find_trail_by_name(&catalog, "absent").is_none());
}

#[test]
fn park_code_exact_case_insensitive() {
    let a = line_feature("A", "Park One", "jac", "", "1000", vec![pair("1700000", "0")]);
    let b = line_feature("B", "Park Two", "mot", "", "1000", vec![pair("1700000", "0")]);
    let catalog = build_catalog(&vec![a, b]);
    let hit = get_trails_by_park(&catalog, "JAC");
    assert_eq!(hit.len(), 1);
    assert_eq!(hit[0].name, "A");
    assert_eq!(get_trails_by_park(&catalog, "ja").len(), 0);
}

#[test]
fn difficulty_parse_and_match() {
    assert!(matches!(Difficulty::from_str("FACILE"), Some(Difficulty::Facile)));
    assert!(matches!(Difficulty::from_str("Intermédiaire"), Some(Difficulty::Intermediaire)));
    assert!(matches!(Difficulty::from_str("intermediaire"), Some(Difficulty::Intermediaire)));
    assert!(matches!(Difficulty::from_str("difficile"), Some(Difficulty::Difficile)));
    assert!(Difficulty::from_str("hard").is_none());
    assert!(Difficulty::Facile.matches("FACILE"));
    assert!(!Difficulty::Facile.matches("Difficile"));
    assert!(Difficulty::Intermediaire.matches("Intermediaire"));
}
