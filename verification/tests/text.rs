use rando_qc::cache::{cache_key, ElevationCache};
use rando_qc::conditions::{format_condition_url, get_park_url};
use rando_qc::gpx::escape_xml;
use rando_qc::hunting::{
    format_season_dates, get_active_seasons, get_upcoming_seasons, hunting_seasons,
    is_season_active, Date,
};
use rando_qc::icons::Icons;
use rando_qc::logs::parse_duration;
use rando_qc::num::{micro_text, milli_text_1, parse_decimal_milli, u64_dec};

#[test]
fn decimal_parse_exact_values() {
    assert_eq!(parse_decimal_milli("2000"), Some(2_000_000));
    assert_eq!(parse_decimal_milli("3500.25"), Some(3_500_250));
    assert_eq!(parse_decimal_milli("-73.5673"), Some(-73_567));
    assert_eq!(parse_decimal_milli("0.0015"), Some(1));
    assert_eq!(parse_decimal_milli("1e3"), Some(1_000_000));
    assert_eq!(parse_decimal_milli("2.5e-2"), Some(25));
    assert_eq!(parse_decimal_milli("-1.5E2"), Some(-150_000));
}

#[test]
fn decimal_parse_rejects() {
    assert_eq!(parse_decimal_milli(""), None);
    assert_eq!(parse_decimal_milli("abc"), None);
    assert_eq!(parse_decimal_milli("5."), None);
    assert_eq!(parse_decimal_milli(".5"), None);
    assert_eq!(parse_decimal_milli("-"), None);
    assert_eq!(parse_decimal_milli("1e"), None);
    assert_eq!(parse_decimal_milli("1e40"), None);
    assert_eq!(parse_decimal_milli("2000000000000000"), None);
}

#[test]
fn fixed_point_rendering() {
    assert_eq!(micro_text(45_501_700), "45.501700");
    assert_eq!(micro_text(-73_567_300), "-73.567300");
    assert_eq!(micro_text(0), "0.000000");
    assert_eq!(milli_text_1(3_500_250), "3500.2");
    assert_eq!(milli_text_1(-1_999), "-1.9");
    assert_eq!(u64_dec(0), "0");
    assert_eq!(u64_dec(907), "907");
}

#[test]
fn duration_formats() {
    assert_eq!(parse_duration("4h30m"), Ok(270));
    assert_eq!(parse_duration("2h"), Ok(120));
    assert_eq!(parse_duration("45"), Ok(45));
    assert_eq!(parse_duration("2h15m"), Ok(135));
    assert_eq!(parse_duration(""), Ok(0));
    assert_eq!(parse_duration("x"), Ok(0));
    assert!(parse_duration("5000000000h").is_err());
}

#[test]
fn xml_escaping() {
    assert_eq!(escape_xml("a<b&c"), "a&lt;b&amp;c");
    assert_eq!(escape_xml("\"quoted\" & 'ticked'"), "&quot;quoted&quot; &amp; &apos;ticked&apos;");
    assert_eq!(escape_xml("plain"), "plain");
}

#[test]
fn park_links() {
    assert_eq!(get_park_url("JAC"), "https://www.sepaq.com/pq/jac/");
    assert_eq!(
        format_condition_url("https://www.sepaq.com/pq/jac/", "->"),
        "-> Check conditions: https://www.sepaq.com/pq/jac/"
    );
}

#[test]
fn weather_icons() {
    assert_eq!(Icons::weather(0), "☼");
    assert_eq!(Icons::weather(63), "\\");
    assert_eq!(Icons::weather(1234), "?");
}

#[test]
fn cache_key_format() {
    assert_eq!(cache_key("Sentier A", "Parc X"), "Sentier A|Parc X");
}

#[test]
fn cache_upsert_overwrites_one_key() {
    let mut cache = ElevationCache::new();
    cache.upsert("a|p".to_string(), vec![1, 2]);
    cache.upsert("b|p".to_string(), vec![9]);
    cache.upsert("a|p".to_string(), vec![3, 4, 5]);
    assert_eq!(cache.lookup("a|p"), Some(&vec![3, 4, 5]));
    assert_eq!(cache.lookup("b|p"), Some(&vec![9]));
    assert_eq!(cache.lookup("c|p"), None);
}

#[test]
fn seasons_active_and_spanning() {
    let seasons = hunting_seasons();
    let moose = &seasons[2];
    assert!(is_season_active(moose, Date { year: 2025, month: 10, day: 1 }));
    assert!(!is_season_active(moose, Date { year: 2025, month: 11, day: 20 }));
    let small_game = &seasons[0];
    // spans the year boundary: September through March
    assert!(is_season_active(small_game, Date { year: 2026, month: 1, day: 15 }));
    assert!(is_season_active(small_game, Date { year: 2025, month: 9, day: 1 }));
    assert!(!is_season_active(small_game, Date { year: 2025, month: 5, day: 1 }));
}

#[test]
fn seasons_partition_and_order() {
    let seasons = hunting_seasons();
    let today = Date { year: 2025, month: 7, day: 1 };
    let active = get_active_seasons(&seasons, today);
    let upcoming = get_upcoming_seasons(&seasons, today);
    assert_eq!(active.len() + upcoming.len(), seasons.len());
    assert!(active.is_empty());
    let starts: Vec<(u32, u32)> =
        upcoming.iter().map(|s| (s.start_month, s.start_day)).collect();
    let mut sorted = starts.clone();
    sorted.sort();
    assert_eq!(starts, sorted);
    assert_eq!(upcoming[0].animal, "Black bear");
}

#[test]
fn season_dates_rendering() {
    let seasons = hunting_seasons();
    let deer = &seasons[1];
    let (a, b) = format_season_dates(deer, 2025);
    assert_eq!(a, "Nov 4, 2025");
    assert_eq!(b, "Nov 17, 2025");
    let small_game = &seasons[0];
    let (c, d) = format_season_dates(small_game, 2025);
    assert_eq!(c, "Sep 1, 2025");
    assert_eq!(d, "Mar 31, 2026");
}
