//! The trail catalog: per-feature ingestion rules, deduplication,
//! ordering, filtering and lookup.

use vstd::prelude::*;
use crate::geo::{
    GeoPoint, ProjPoint, trunc_div, spec_approx_to_wgs84, approx_to_wgs84, spec_distance_mkm,
    distance_km, div_trunc_i64, MONTREAL_LAT_UDEG, MONTREAL_LNG_UDEG,
};
use crate::json::{FeatureDoc, JsonLite};
use crate::num::{parse_milli, parse_decimal_milli, MAX_MILLI};
use crate::strings::{
    trim_spec, trim_ascii, str_eq, eq_ignore_case, eq_ignore_ascii_case, lower_of, lowercase,
    contains_seq, contains_sub, str_le, lemma_str_le_total, str_le_exec,
};

verus! {

/// The closed set of difficulty ratings the provider uses.
#[derive(Clone, Copy, Debug, PartialEq, Eq, Structural)]
pub enum Difficulty {
    Facile,
    Intermediaire,
    Difficile,
}

/// What `Difficulty::from_str` yields on the lower-case form of a label.
pub open spec fn spec_difficulty_from(low: Seq<char>) -> Option<Difficulty> {
    if low == "facile"@ {
        Some(Difficulty::Facile)
    } else if low == "intermédiaire"@ || low == "intermediaire"@ {
        Some(Difficulty::Intermediaire)
    } else if low == "difficile"@ {
        Some(Difficulty::Difficile)
    } else {
        None
    }
}

/// Whether a rating accepts a trail's free-text difficulty label.
pub open spec fn spec_difficulty_matches(d: Difficulty, label: Seq<char>) -> bool {
    match d {
        Difficulty::Facile => eq_ignore_case(label, "Facile"@),
        Difficulty::Intermediaire => eq_ignore_case(label, "Intermédiaire"@) || eq_ignore_case(
            label,
            "Intermediaire"@,
        ),
        Difficulty::Difficile => eq_ignore_case(label, "Difficile"@),
    }
}

impl Difficulty {
    /// Parse a difficulty label, case-insensitively, against the closed
    /// set; anything else is `None`.
    pub fn from_str(s: &str) -> (r: Option<Difficulty>)
        ensures
            r == spec_difficulty_from(lower_of(s@)),
    {
        let low = lowercase(s);
        if str_eq(low.as_str(), "facile") {
            Some(Difficulty::Facile)
        } else if str_eq(low.as_str(), "intermédiaire") || str_eq(low.as_str(), "intermediaire") {
            Some(Difficulty::Intermediaire)
        } else if str_eq(low.as_str(), "difficile") {
            Some(Difficulty::Difficile)
        } else {
            None
        }
    }

    /// Whether this rating accepts a trail's difficulty label, up to
    /// ASCII case.
    pub fn matches(&self, trail_difficulty: &str) -> (r: bool)
        ensures
            r == spec_difficulty_matches(*self, trail_difficulty@),
    {
        match self {
            Difficulty::Facile => eq_ignore_ascii_case(trail_difficulty, "Facile"),
            Difficulty::Intermediaire => eq_ignore_ascii_case(trail_difficulty, "Intermédiaire")
                || eq_ignore_ascii_case(trail_difficulty, "Intermediaire"),
            Difficulty::Difficile => eq_ignore_ascii_case(trail_difficulty, "Difficile"),
        }
    }
}

/// The canonical text of a rating.
pub fn difficulty_text(d: Difficulty) -> (r: &'static str)
    ensures
        r@ == difficulty_label(Some(d)),
{
    match d {
        Difficulty::Facile => "Facile",
        Difficulty::Intermediaire => "Intermédiaire",
        Difficulty::Difficile => "Difficile",
    }
}

/// One candidate trail record, as one surviving feature yields it:
/// projected path in millimeters, length in milli-kilometers (meters).
#[derive(Debug)]
pub struct Candidate {
    pub name: String,
    pub park: String,
    pub park_code: String,
    pub difficulty: String,
    pub length_km: i64,
    pub path: Vec<ProjPoint>,
}

/// The plain value of a candidate, for specification.
#[verifier::ext_equal]
pub ghost struct CandSpec {
    pub name: Seq<char>,
    pub park: Seq<char>,
    pub park_code: Seq<char>,
    pub difficulty: Seq<char>,
    pub length_km: int,
    pub path: Seq<(int, int)>,
}

pub open spec fn proj_seq(s: Seq<ProjPoint>) -> Seq<(int, int)> {
    Seq::new(s.len(), |i: int| (s[i].x_mm as int, s[i].y_mm as int))
}

pub open spec fn cand_spec(c: Candidate) -> CandSpec {
    CandSpec {
        name: c.name@,
        park: c.park@,
        park_code: c.park_code@,
        difficulty: c.difficulty@,
        length_km: c.length_km as int,
        path: proj_seq(c.path@),
    }
}

/// A projected coordinate pair read from a geometry item: an array whose
/// first two elements are numbers in the fixed-point range.
pub open spec fn lite_pair(j: JsonLite) -> Option<(int, int)> {
    match j {
        JsonLite::Arr(items) => {
            if items@.len() >= 2 {
                match (items@[0], items@[1]) {
                    (JsonLite::Num(x), JsonLite::Num(y)) => match (parse_milli(x@), parse_milli(
                        y@,
                    )) {
                        (Some(a), Some(b)) => Some((a, b)),
                        _ => None,
                    },
                    _ => None,
                }
            } else {
                None
            }
        },
        _ => None,
    }
}

/// The coordinate pairs of a vertex list, keeping order and dropping
/// malformed vertices.
pub open spec fn pairs_of(items: Seq<JsonLite>) -> Seq<(int, int)>
    decreases items.len(),
{
    if items.len() == 0 {
        Seq::<(int, int)>::empty()
    } else {
        pairs_of(items.drop_last()) + match lite_pair(items.last()) {
            Some(p) => seq![p],
            None => Seq::<(int, int)>::empty(),
        }
    }
}

pub open spec fn opt_str_view(s: Option<String>) -> Option<Seq<char>> {
    match s {
        Some(x) => Some(x@),
        None => None,
    }
}

/// The ordered projected pairs a geometry yields: a Point gives its one
/// pair, a LineString every well-formed vertex in order, any other
/// geometry type only its first pair — a deliberate limitation. A missing
/// or alien type tag, or unusable coordinates, yield nothing.
pub open spec fn spec_extract_coords(gt: Option<Seq<char>>, c: JsonLite) -> Seq<(int, int)> {
    match gt {
        None => Seq::<(int, int)>::empty(),
        Some(t) => {
            if t == "LineString"@ {
                match c {
                    JsonLite::Arr(items) => pairs_of(items@),
                    _ => Seq::<(int, int)>::empty(),
                }
            } else {
                match lite_pair(c) {
                    Some(p) => seq![p],
                    None => Seq::<(int, int)>::empty(),
                }
            }
        },
    }
}

/// Read one vertex.
fn lite_pair_exec(j: &JsonLite) -> (r: Option<ProjPoint>)
    ensures
        match r {
            Some(p) => lite_pair(*j) == Some((p.x_mm as int, p.y_mm as int)) && -MAX_MILLI
                <= p.x_mm <= MAX_MILLI && -MAX_MILLI <= p.y_mm <= MAX_MILLI,
            None => lite_pair(*j) is None,
        },
{
    match j {
        JsonLite::Arr(items) => {
            if items.len() >= 2 {
                let first = &items[0];
                let second = &items[1];
                match (first, second) {
                    (JsonLite::Num(x), JsonLite::Num(y)) => {
                        match (parse_decimal_milli(x.as_str()), parse_decimal_milli(y.as_str())) {
                            (Some(a), Some(b)) => Some(ProjPoint { x_mm: a, y_mm: b }),
                            _ => None,
                        }
                    },
                    _ => None,
                }
            } else {
                None
            }
        },
        _ => None,
    }
}

/// Extract the ordered projected coordinate pairs of one geometry; see
/// `spec_extract_coords`.
pub fn extract_all_coordinates(geom_type: &Option<String>, coords: &JsonLite) -> (r: Vec<ProjPoint>)
    ensures
        proj_seq(r@) == spec_extract_coords(opt_str_view(*geom_type), *coords),
        forall|i: int|
            0 <= i < r@.len() ==> -MAX_MILLI <= (#[trigger] r@[i]).x_mm <= MAX_MILLI && -MAX_MILLI
                <= r@[i].y_mm <= MAX_MILLI,
{
    let t = match geom_type {
        Some(t) => t,
        None => {
            let r: Vec<ProjPoint> = Vec::new();
            proof {
                assert(proj_seq(r@) =~= spec_extract_coords(opt_str_view(*geom_type), *coords));
            }
            return r;
        },
    };
    if str_eq(t.as_str(), "LineString") {
        match coords {
            JsonLite::Arr(items) => {
                let mut out: Vec<ProjPoint> = Vec::new();
                let n = items.len();
                let mut i: usize = 0;
                proof {
                    assert(proj_seq(out@) =~= pairs_of(items@.take(0)));
                }
                while i < n
                    invariant
                        0 <= i <= n,
                        n == items@.len(),
                        proj_seq(out@) == pairs_of(items@.take(i as int)),
                        forall|k: int|
                            0 <= k < out@.len() ==> -MAX_MILLI <= (#[trigger] out@[k]).x_mm
                                <= MAX_MILLI && -MAX_MILLI <= out@[k].y_mm <= MAX_MILLI,
                    decreases n - i,
                {
                    proof {
                        assert(items@.take(i + 1).drop_last() =~= items@.take(i as int));
                        assert(items@.take(i + 1).last() == items@[i as int]);
                    }
                    match lite_pair_exec(&items[i]) {
                        Some(p) => {
                            out.push(p);
                            proof {
                                assert(proj_seq(out@) =~= pairs_of(items@.take(i + 1)));
                            }
                        },
                        None => {
                            proof {
                                assert(proj_seq(out@) =~= pairs_of(items@.take(i + 1)));
                            }
                        },
                    }
                    i = i + 1;
                }
                proof {
                    assert(items@.take(n as int) =~= items@);
                }
                out
            },
            _ => {
                let r: Vec<ProjPoint> = Vec::new();
                proof {
                    assert(proj_seq(r@) =~= Seq::<(int, int)>::empty());
                }
                r
            },
        }
    } else {
        match lite_pair_exec(coords) {
            Some(p) => {
                let mut r: Vec<ProjPoint> = Vec::new();
                r.push(p);
                proof {
                    assert(proj_seq(r@) =~= seq![(p.x_mm as int, p.y_mm as int)]);
                }
                r
            },
            None => {
                let r: Vec<ProjPoint> = Vec::new();
                proof {
                    assert(proj_seq(r@) =~= Seq::<(int, int)>::empty());
                }
                r
            },
        }
    }
}

/// The trimmed name a feature offers, defaulting to the placeholder.
pub open spec fn spec_name_of(f: FeatureDoc) -> Seq<char> {
    trim_spec(
        match f.name {
            Some(s) => s@,
            None => "Unknown"@,
        },
    )
}

pub open spec fn spec_park_of(f: FeatureDoc) -> Seq<char> {
    match f.park {
        Some(s) => s@,
        None => "Unknown"@,
    }
}

pub open spec fn spec_code_of(f: FeatureDoc) -> Seq<char> {
    match f.park_code {
        Some(s) => s@,
        None => Seq::<char>::empty(),
    }
}

/// The canonical label of a rating; `None` is the placeholder.
pub open spec fn difficulty_label(d: Option<Difficulty>) -> Seq<char> {
    match d {
        Some(Difficulty::Facile) => "Facile"@,
        Some(Difficulty::Intermediaire) => "Intermédiaire"@,
        Some(Difficulty::Difficile) => "Difficile"@,
        None => "Unknown"@,
    }
}

/// The difficulty a feature yields: the trimmed free-text label, parsed
/// case-insensitively against the closed set and stored in canonical
/// form; anything else, including absence, is the placeholder — never an
/// error.
pub open spec fn spec_difficulty_of(f: FeatureDoc) -> Seq<char> {
    match f.difficulty {
        Some(s) => difficulty_label(spec_difficulty_from(lower_of(trim_spec(s@)))),
        None => "Unknown"@,
    }
}

/// The raw path length, converted from meters (in milli-meters of text)
/// to milli-kilometers; zero when absent, unusable, or negative, so a
/// catalog length is never below zero.
pub open spec fn spec_length_of(f: FeatureDoc) -> int {
    match f.length_text {
        Some(s) => match parse_milli(s@) {
            Some(v) => if v >= 0 {
                trunc_div(v, 1000)
            } else {
                0
            },
            None => 0,
        },
        None => 0,
    }
}

/// The candidate one feature yields: `None` when the name is blank or
/// the placeholder, or when the geometry yields no coordinates — such a
/// feature is skipped; every other malformed field only degrades to a
/// default.
pub open spec fn feature_cand(f: FeatureDoc) -> Option<CandSpec> {
    let name = spec_name_of(f);
    if name.len() == 0 || name == "Unknown"@ {
        None
    } else {
        let path = spec_extract_coords(opt_str_view(f.geom_type), f.coords);
        if path.len() == 0 {
            None
        } else {
            Some(
                CandSpec {
                    name: name,
                    park: spec_park_of(f),
                    park_code: spec_code_of(f),
                    difficulty: spec_difficulty_of(f),
                    length_km: spec_length_of(f),
                    path: path,
                },
            )
        }
    }
}

/// Apply the per-feature ingestion rules; see `feature_cand`.
pub fn feature_to_candidate(f: &FeatureDoc) -> (r: Option<Candidate>)
    ensures
        match r {
            Some(c) => feature_cand(*f) == Some(cand_spec(c)) && c.path@.len() >= 1 && (forall|
                i: int,
            |
                0 <= i < c.path@.len() ==> -MAX_MILLI <= (#[trigger] c.path@[i]).x_mm <= MAX_MILLI
                    && -MAX_MILLI <= c.path@[i].y_mm <= MAX_MILLI) && 0 <= c.length_km
                <= MAX_MILLI,
            None => feature_cand(*f) is None,
        },
{
    let name_raw: &str = match &f.name {
        Some(s) => s.as_str(),
        None => "Unknown",
    };
    let name = trim_ascii(name_raw);
    if name.is_empty() || str_eq(name, "Unknown") {
        proof {
            if name@.len() == 0 {
            } else {
                assert(name@ == "Unknown"@);
            }
        }
        return None;
    }
    let path = extract_all_coordinates(&f.geom_type, &f.coords);
    if path.len() == 0 {
        proof {
            assert(spec_extract_coords(opt_str_view(f.geom_type), f.coords) =~= proj_seq(path@));
        }
        return None;
    }
    let park = match &f.park {
        Some(s) => s.clone(),
        None => String::from_str("Unknown"),
    };
    let park_code = match &f.park_code {
        Some(s) => s.clone(),
        None => String::new(),
    };
    let difficulty = match &f.difficulty {
        Some(s) => {
            let t = trim_ascii(s.as_str());
            match Difficulty::from_str(t) {
                Some(d) => String::from_str(difficulty_text(d)),
                None => String::from_str("Unknown"),
            }
        },
        None => String::from_str("Unknown"),
    };
    let length_km = match &f.length_text {
        Some(s) => match parse_decimal_milli(s.as_str()) {
            Some(v) => if v >= 0 {
                div_trunc_i64(v, 1000)
            } else {
                0
            },
            None => 0,
        },
        None => 0,
    };
    proof {
        vstd::arithmetic::div_mod::lemma_div_is_ordered_by_denominator(MAX_MILLI as int, 1, 1000);
    }
    let c = Candidate { name: String::from_str(name), park, park_code, difficulty, length_km, path };
    proof {
        assert(cand_spec(c) =~= feature_cand(*f)->Some_0);
    }
    Some(c)
}

/// One catalog record. Lengths and distances are in milli-kilometers
/// (meters); coordinates in microdegrees.
#[derive(Debug)]
pub struct Trail {
    pub name: String,
    pub park: String,
    pub park_code: String,
    pub difficulty: String,
    pub length_km: i64,
    pub lat: i64,
    pub lng: i64,
    pub distance_from_mtl: i64,
    pub coordinates_wgs84: Vec<GeoPoint>,
}

/// The plain value of a trail, for specification.
#[verifier::ext_equal]
pub ghost struct TrailSpec {
    pub name: Seq<char>,
    pub park: Seq<char>,
    pub park_code: Seq<char>,
    pub difficulty: Seq<char>,
    pub length_km: int,
    pub lat: int,
    pub lng: int,
    pub distance_from_mtl: int,
    pub path: Seq<GeoPoint>,
}

pub open spec fn trail_spec(t: Trail) -> TrailSpec {
    TrailSpec {
        name: t.name@,
        park: t.park@,
        park_code: t.park_code@,
        difficulty: t.difficulty@,
        length_km: t.length_km as int,
        lat: t.lat as int,
        lng: t.lng as int,
        distance_from_mtl: t.distance_from_mtl as int,
        path: t.coordinates_wgs84@,
    }
}

pub open spec fn trails_view(s: Seq<Trail>) -> Seq<TrailSpec> {
    Seq::new(s.len(), |i: int| trail_spec(s[i]))
}

/// The reference point every catalog distance is measured from.
pub open spec fn spec_montreal() -> GeoPoint {
    GeoPoint { lat_udeg: MONTREAL_LAT_UDEG, lng_udeg: MONTREAL_LNG_UDEG }
}

/// The geodetic path of a candidate under the approximate reprojection.
pub open spec fn spec_approx_path(path: Seq<(int, int)>) -> Seq<GeoPoint> {
    Seq::new(
        path.len(),
        |i: int|
            spec_approx_to_wgs84(
                ProjPoint { x_mm: path[i].0 as i64, y_mm: path[i].1 as i64 },
            ),
    )
}

/// The trail a candidate yields, given its reprojected path: the first
/// vertex is the reference point, and the distance from Montreal is the
/// great-circle distance of that point.
pub open spec fn spec_trail_of(c: CandSpec, geo: Seq<GeoPoint>) -> TrailSpec {
    TrailSpec {
        name: c.name,
        park: c.park,
        park_code: c.park_code,
        difficulty: c.difficulty,
        length_km: c.length_km,
        lat: geo[0].lat_udeg as int,
        lng: geo[0].lng_udeg as int,
        distance_from_mtl: spec_distance_mkm(geo[0], spec_montreal()),
        path: geo,
    }
}

/// Reproject a candidate's path with the local linear approximation.
pub fn reproject_path_approx(path: &Vec<ProjPoint>) -> (r: Vec<GeoPoint>)
    requires
        forall|i: int|
            0 <= i < path@.len() ==> -MAX_MILLI <= (#[trigger] path@[i]).x_mm <= MAX_MILLI
                && -MAX_MILLI <= path@[i].y_mm <= MAX_MILLI,
    ensures
        r@ == spec_approx_path(proj_seq(path@)),
{
    let n = path.len();
    let mut out: Vec<GeoPoint> = Vec::new();
    let mut i: usize = 0;
    proof {
        assert(out@ =~= spec_approx_path(proj_seq(path@)).take(0));
    }
    while i < n
        invariant
            0 <= i <= n,
            n == path@.len(),
            forall|k: int|
                0 <= k < n ==> -MAX_MILLI <= (#[trigger] path@[k]).x_mm <= MAX_MILLI && -MAX_MILLI
                    <= path@[k].y_mm <= MAX_MILLI,
            out@ == spec_approx_path(proj_seq(path@)).take(i as int),
        decreases n - i,
    {
        let p = path[i];
        let g = approx_to_wgs84(p);
        out.push(g);
        proof {
            assert(out@ =~= spec_approx_path(proj_seq(path@)).take(i + 1));
        }
        i = i + 1;
    }
    proof {
        assert(spec_approx_path(proj_seq(path@)).take(n as int) =~= spec_approx_path(
            proj_seq(path@),
        ));
    }
    out
}

/// Assemble one trail from a candidate and its reprojected path; see
/// `spec_trail_of`.
pub fn build_trail(c: Candidate, geo: Vec<GeoPoint>) -> (r: Trail)
    requires
        geo@.len() >= 1,
    ensures
        trail_spec(r) == spec_trail_of(cand_spec(c), geo@),
{
    let first = geo[0];
    let montreal = GeoPoint { lat_udeg: MONTREAL_LAT_UDEG, lng_udeg: MONTREAL_LNG_UDEG };
    let d = distance_km(first, montreal);
    let r = Trail {
        name: c.name,
        park: c.park,
        park_code: c.park_code,
        difficulty: c.difficulty,
        length_km: c.length_km,
        lat: first.lat_udeg,
        lng: first.lng_udeg,
        distance_from_mtl: d,
        coordinates_wgs84: geo,
    };
    proof {
        assert(trail_spec(r) =~= spec_trail_of(cand_spec(c), r.coordinates_wgs84@));
    }
    r
}

/// Two records share the deduplication key: same name and same park,
/// exactly.
pub open spec fn key_eq(a: TrailSpec, b: TrailSpec) -> bool {
    a.name == b.name && a.park == b.park
}

/// First index in `acc` holding the key of `t`, or -1.
pub open spec fn find_key(acc: Seq<TrailSpec>, t: TrailSpec) -> int
    decreases acc.len(),
{
    if acc.len() == 0 {
        -1
    } else if key_eq(acc[0], t) {
        0
    } else {
        let r = find_key(acc.skip(1), t);
        if r < 0 {
            -1
        } else {
            1 + r
        }
    }
}

proof fn lemma_find_key_at(acc: Seq<TrailSpec>, t: TrailSpec, j: int)
    requires
        0 <= j <= acc.len(),
        forall|k: int| 0 <= k < j ==> !key_eq(#[trigger] acc[k], t),
        j < acc.len() ==> key_eq(acc[j], t),
    ensures
        find_key(acc, t) == if j == acc.len() {
            -1int
        } else {
            j
        },
    decreases acc.len(),
{
    if j == 0 {
    } else {
        assert(!key_eq(acc[0], t));
        assert(forall|k: int| 0 <= k < j - 1 ==> !key_eq(#[trigger] acc.skip(1)[k], t));
        lemma_find_key_at(acc.skip(1), t, j - 1);
    }
}

proof fn lemma_find_key_props(acc: Seq<TrailSpec>, t: TrailSpec)
    ensures
        find_key(acc, t) == -1 ==> forall|k: int| 0 <= k < acc.len() ==> !key_eq(
            #[trigger] acc[k],
            t,
        ),
        find_key(acc, t) != -1 ==> 0 <= find_key(acc, t) < acc.len() && key_eq(
            acc[find_key(acc, t)],
            t,
        ),
    decreases acc.len(),
{
    if acc.len() > 0 && !key_eq(acc[0], t) {
        lemma_find_key_props(acc.skip(1), t);
        if find_key(acc, t) == -1 {
            assert forall|k: int| 0 <= k < acc.len() implies !key_eq(#[trigger] acc[k], t) by {
                if k > 0 {
                    assert(acc.skip(1)[k - 1] == acc[k]);
                }
            }
        }
    }
}

/// The fold that deduplicates candidates by key: a record with a fresh
/// key is appended; one whose key is present replaces the held record
/// exactly when its length is strictly greater, so equal lengths keep
/// the first-seen record.
pub open spec fn dedup_fold(s: Seq<TrailSpec>) -> Seq<TrailSpec>
    decreases s.len(),
{
    if s.len() == 0 {
        Seq::<TrailSpec>::empty()
    } else {
        let acc = dedup_fold(s.drop_last());
        let t = s.last();
        let j = find_key(acc, t);
        if j < 0 {
            acc.push(t)
        } else if t.length_km > acc[j].length_km {
            acc.update(j, t)
        } else {
            acc
        }
    }
}

/// No two records of a deduplicated catalog share a key.
pub proof fn lemma_dedup_unique_keys(s: Seq<TrailSpec>)
    ensures
        forall|i: int, j: int|
            0 <= i < j < dedup_fold(s).len() ==> !key_eq(
                #[trigger] dedup_fold(s)[i],
                #[trigger] dedup_fold(s)[j],
            ),
    decreases s.len(),
{
    if s.len() > 0 {
        lemma_dedup_unique_keys(s.drop_last());
        let acc = dedup_fold(s.drop_last());
        let t = s.last();
        lemma_find_key_props(acc, t);
    }
}

/// Deduplicate a trail list; see `dedup_fold`.
pub fn dedup_trails(input: Vec<Trail>) -> (r: Vec<Trail>)
    ensures
        trails_view(r@) == dedup_fold(trails_view(input@)),
{
    let ghost orig = input@;
    let mut rest = input;
    let mut acc: Vec<Trail> = Vec::new();
    let ghost mut i: int = 0;
    proof {
        assert(rest@ =~= orig.skip(0));
        assert(trails_view(acc@) =~= dedup_fold(trails_view(orig.take(0))));
    }
    while rest.len() > 0
        invariant
            0 <= i <= orig.len(),
            rest@ == orig.skip(i),
            trails_view(acc@) == dedup_fold(trails_view(orig.take(i))),
        decreases rest@.len(),
    {
        let t = rest.remove(0);
        proof {
            assert(rest@ =~= orig.skip(i + 1));
            assert(t == orig[i]);
        }
        let ghost tsp = trail_spec(t);
        let ghost accv = trails_view(acc@);
        // look for the key of `t` in the accumulator
        let n = acc.len();
        let mut j: usize = 0;
        let mut found = false;
        while j < n
            invariant_except_break
                !found,
            invariant
                0 <= j <= n,
                n == acc@.len(),
                tsp == trail_spec(t),
                forall|k: int| 0 <= k < j ==> !key_eq(#[trigger] trails_view(acc@)[k], tsp),
                found ==> j < n && key_eq(trails_view(acc@)[j as int], tsp),
            ensures
                0 <= j <= n,
                n == acc@.len(),
                forall|k: int| 0 <= k < j ==> !key_eq(#[trigger] trails_view(acc@)[k], tsp),
                found ==> j < n && key_eq(trails_view(acc@)[j as int], tsp),
                !found ==> j == n,
            decreases n - j,
        {
            let same = str_eq(acc[j].name.as_str(), t.name.as_str()) && str_eq(
                acc[j].park.as_str(),
                t.park.as_str(),
            );
            if same {
                proof {
                    assert(trails_view(acc@)[j as int] == trail_spec(acc@[j as int]));
                }
                found = true;
                break ;
            }
            proof {
                assert(trails_view(acc@)[j as int] == trail_spec(acc@[j as int]));
            }
            j = j + 1;
        }
        proof {
            lemma_find_key_at(accv, tsp, j as int);
            let cur = trails_view(orig.take(i + 1));
            assert(cur.drop_last() =~= trails_view(orig.take(i)));
            assert(cur.last() == tsp);
        }
        if found {
            if t.length_km > acc[j].length_km {
                acc.remove(j);
                acc.insert(j, t);
                proof {
                    assert(trails_view(acc@) =~= accv.update(j as int, tsp));
                }
            } else {
                proof {
                    assert(trails_view(acc@) =~= accv);
                }
            }
        } else {
            acc.push(t);
            proof {
                assert(trails_view(acc@) =~= accv.push(tsp));
            }
        }
        proof {
            i = i + 1;
        }
    }
    proof {
        assert(orig.take(orig.len() as int) =~= orig);
        assert(trails_view(orig.take(i)) =~= trails_view(orig));
    }
    acc
}

/// No two catalog records share a (name, park) key.
pub open spec fn unique_catalog_keys(s: Seq<TrailSpec>) -> bool {
    forall|i: int, j: int| 0 <= i < j < s.len() ==> !key_eq(#[trigger] s[i], #[trigger] s[j])
}

/// A well-formed catalog record: a real name, at least one point, and a
/// length that is not negative.
pub open spec fn wf_trail(t: TrailSpec) -> bool {
    &&& t.name.len() > 0
    &&& t.name != "Unknown"@
    &&& t.path.len() >= 1
    &&& t.length_km >= 0
}

/// Every record the fold keeps comes from its input.
proof fn lemma_dedup_sub(s: Seq<TrailSpec>, x: TrailSpec)
    requires
        dedup_fold(s).contains(x),
    ensures
        s.contains(x),
    decreases s.len(),
{
    let acc = dedup_fold(s.drop_last());
    let t = s.last();
    let k = choose|k: int| 0 <= k < dedup_fold(s).len() && dedup_fold(s)[k] == x;
    if x == t {
        assert(s[s.len() - 1] == x);
    } else {
        let j = find_key(acc, t);
        lemma_find_key_props(acc, t);
        assert(acc.contains(x)) by {
            if j < 0 {
                assert(acc.push(t)[k] == x);
                if k < acc.len() {
                    assert(acc[k] == x);
                } else {
                    assert(x == t);
                }
            } else if t.length_km > acc[j].length_km {
                assert(acc.update(j, t)[k] == x);
                if k != j {
                    assert(acc[k] == x);
                } else {
                    assert(x == t);
                }
            } else {
                assert(acc[k] == x);
            }
        }
        lemma_dedup_sub(s.drop_last(), x);
        let m = choose|m: int| 0 <= m < s.drop_last().len() && s.drop_last()[m] == x;
        assert(s[m] == x);
    }
}

/// Key uniqueness carries over any reordering.
proof fn lemma_unique_keys_transfer(a: Seq<TrailSpec>, b: Seq<TrailSpec>)
    requires
        a.to_multiset() == b.to_multiset(),
        unique_catalog_keys(a),
    ensures
        unique_catalog_keys(b),
{
    assert(a.no_duplicates()) by {
        assert forall|i: int, j: int|
            0 <= i < a.len() && 0 <= j < a.len() && i != j implies a[i] != a[j] by {
            if i < j {
                assert(!key_eq(a[i], a[j]));
            } else {
                assert(!key_eq(a[j], a[i]));
            }
        }
    }
    a.lemma_multiset_has_no_duplicates();
    b.lemma_multiset_has_no_duplicates_conv();
    assert forall|i: int, j: int| 0 <= i < j < b.len() implies !key_eq(
        #[trigger] b[i],
        #[trigger] b[j],
    ) by {
        if key_eq(b[i], b[j]) {
            assert(b[i] != b[j]);
            assert(b.contains(b[i]));
            assert(b.contains(b[j]));
            vstd::seq_lib::to_multiset_contains(b, b[i]);
            vstd::seq_lib::to_multiset_contains(b, b[j]);
            vstd::seq_lib::to_multiset_contains(a, b[i]);
            vstd::seq_lib::to_multiset_contains(a, b[j]);
            let ai = choose|k: int| 0 <= k < a.len() && a[k] == b[i];
            let aj = choose|k: int| 0 <= k < a.len() && a[k] == b[j];
            assert(ai != aj);
            if ai < aj {
                assert(!key_eq(a[ai], a[aj]));
            } else {
                assert(!key_eq(a[aj], a[ai]));
            }
        }
    }
}

/// Everything the feature list yields is well-formed.
proof fn lemma_pre_catalog_wf(features: Seq<FeatureDoc>)
    ensures
        forall|i: int|
            0 <= i < spec_pre_catalog(features).len() ==> wf_trail(
                #[trigger] spec_pre_catalog(features)[i],
            ),
    decreases features.len(),
{
    if features.len() > 0 {
        lemma_pre_catalog_wf(features.drop_last());
        let prefix = spec_pre_catalog(features.drop_last());
        let whole = spec_pre_catalog(features);
        assert forall|i: int| 0 <= i < whole.len() implies wf_trail(#[trigger] whole[i]) by {
            if i < prefix.len() {
                assert(whole[i] == prefix[i]);
            } else {
                let fc = feature_cand(features.last());
                assert(fc is Some);
                let c = fc->Some_0;
                assert(whole[i] == spec_trail_of(c, spec_approx_path(c.path)));
                assert(c.name.len() > 0 && c.name != "Unknown"@);
                assert(spec_approx_path(c.path).len() == c.path.len() >= 1);
                assert(c.length_km >= 0) by {
                    vstd::arithmetic::div_mod::lemma_div_pos_is_pos(
                        crate::num::MAX_MILLI as int,
                        1000,
                    );
                }
            }
        }
    }
}

/// Catalog order: ascending by park, then by name, both case-sensitive
/// lexicographic comparisons.
pub open spec fn trail_le(a: TrailSpec, b: TrailSpec) -> bool {
    if a.park == b.park {
        str_le(a.name, b.name)
    } else {
        str_le(a.park, b.park)
    }
}

/// The catalog order is total.
pub proof fn lemma_trail_le_total(a: TrailSpec, b: TrailSpec)
    ensures
        trail_le(a, b) || trail_le(b, a),
{
    if a.park == b.park {
        lemma_str_le_total(a.name, b.name);
    } else {
        lemma_str_le_total(a.park, b.park);
    }
}

/// Every record comes no later than its neighbor.
pub open spec fn sorted_catalog(s: Seq<Trail>) -> bool {
    forall|i: int|
        0 <= i && i + 1 < s.len() ==> #[trigger] trail_le(trail_spec(s[i]), trail_spec(s[i + 1]))
}

fn trail_le_exec(a: &Trail, b: &Trail) -> (r: bool)
    ensures
        r == trail_le(trail_spec(*a), trail_spec(*b)),
{
    if str_eq(a.park.as_str(), b.park.as_str()) {
        str_le_exec(a.name.as_str(), b.name.as_str())
    } else {
        str_le_exec(a.park.as_str(), b.park.as_str())
    }
}

/// Sort a catalog into the order of `trail_le`, keeping exactly the same
/// records.
pub fn sort_catalog(input: Vec<Trail>) -> (r: Vec<Trail>)
    ensures
        trails_view(r@).to_multiset() == trails_view(input@).to_multiset(),
        sorted_catalog(r@),
{
    broadcast use vstd::seq_lib::to_multiset_build;
    broadcast use vstd::seq_lib::to_multiset_insert;

    let ghost orig = input@;
    let mut rest = input;
    let mut out: Vec<Trail> = Vec::new();
    let ghost mut i: int = 0;
    proof {
        assert(rest@ =~= orig.skip(0));
        assert(trails_view(out@) =~= trails_view(orig.take(0)));
        assert(trails_view(out@).to_multiset() =~= trails_view(orig.take(0)).to_multiset());
    }
    while rest.len() > 0
        invariant
            0 <= i <= orig.len(),
            rest@ == orig.skip(i),
            trails_view(out@).to_multiset() == trails_view(orig.take(i)).to_multiset(),
            sorted_catalog(out@),
        decreases rest@.len(),
    {
        let t = rest.remove(0);
        proof {
            assert(rest@ =~= orig.skip(i + 1));
            assert(t == orig[i]);
        }
        let ghost tsp = trail_spec(t);
        let ghost outv = out@;
        let n = out.len();
        let mut p: usize = 0;
        loop
            invariant
                0 <= p <= n,
                n == out@.len(),
                out@ == outv,
                tsp == trail_spec(t),
                forall|k: int| 0 <= k < p ==> trail_le(#[trigger] trails_view(out@)[k], tsp),
            ensures
                0 <= p <= n,
                out@ == outv,
                forall|k: int| 0 <= k < p ==> trail_le(#[trigger] trails_view(out@)[k], tsp),
                p < n ==> trail_le(tsp, trails_view(out@)[p as int]),
            decreases n - p,
        {
            if p == n {
                break ;
            }
            let le = trail_le_exec(&out[p], &t);
            proof {
                assert(trails_view(out@)[p as int] == trail_spec(out@[p as int]));
                if !le {
                    lemma_trail_le_total(trail_spec(out@[p as int]), tsp);
                }
            }
            if !le {
                break ;
            }
            p = p + 1;
        }
        out.insert(p, t);
        proof {
            assert(trails_view(out@) =~= trails_view(outv).insert(p as int, tsp));
            vstd::seq_lib::to_multiset_insert(trails_view(outv), p as int, tsp);
            let cur = trails_view(orig.take(i + 1));
            assert(trails_view(orig.take(i)).push(tsp) =~= cur);
            vstd::seq_lib::to_multiset_build(trails_view(orig.take(i)), tsp);
            assert(cur.to_multiset() == trails_view(orig.take(i)).to_multiset().insert(tsp));
            assert(sorted_catalog(out@)) by {
                assert forall|k: int|
                    0 <= k && k + 1 < out@.len() implies #[trigger] trail_le(
                    trail_spec(out@[k]),
                    trail_spec(out@[k + 1]),
                ) by {
                    if k + 1 < p {
                        assert(out@[k] == outv[k]);
                        assert(out@[k + 1] == outv[k + 1]);
                        assert(trail_le(trail_spec(outv[k]), trail_spec(outv[k + 1])));
                    } else if k + 1 == p {
                        assert(out@[k] == outv[k]);
                        assert(trails_view(outv)[k] == trail_spec(outv[k]));
                        assert(trail_le(trails_view(outv)[k], tsp));
                        assert(out@[k + 1] == t);
                    } else if k == p {
                        assert(out@[k] == t);
                        assert(out@[k + 1] == outv[k]);
                        assert(trails_view(outv)[k] == trail_spec(outv[k]));
                    } else {
                        let k1 = k - 1;
                        assert(out@[k] == outv[k1]);
                        assert(out@[k + 1] == outv[k1 + 1]);
                        assert(sorted_catalog(outv));
                        assert(0 <= k1 && k1 + 1 < outv.len());
                        assert(trail_le(trail_spec(outv[k1]), trail_spec(outv[k1 + 1])));
                    }
                }
            }
        }
        proof {
            i = i + 1;
        }
    }
    proof {
        assert(orig.take(orig.len() as int) =~= orig);
        assert(trails_view(orig.take(i)) =~= trails_view(orig));
    }
    out
}

/// The records a feature list yields before deduplication, under the
/// approximate reprojection, in source order.
pub open spec fn spec_pre_catalog(features: Seq<FeatureDoc>) -> Seq<TrailSpec>
    decreases features.len(),
{
    if features.len() == 0 {
        Seq::<TrailSpec>::empty()
    } else {
        spec_pre_catalog(features.drop_last()) + match feature_cand(features.last()) {
            Some(c) => seq![spec_trail_of(c, spec_approx_path(c.path))],
            None => Seq::<TrailSpec>::empty(),
        }
    }
}

/// Build the catalog from the parsed features: one candidate per
/// surviving feature, reprojected with the local approximation,
/// deduplicated by (name, park) keeping the strictly longest record, and
/// sorted ascending by (park, name).
pub fn build_catalog(features: &Vec<FeatureDoc>) -> (r: Vec<Trail>)
    ensures
        trails_view(r@).to_multiset() == dedup_fold(spec_pre_catalog(features@)).to_multiset(),
        sorted_catalog(r@),
        unique_catalog_keys(trails_view(r@)),
        forall|i: int| 0 <= i < r@.len() ==> wf_trail(#[trigger] trails_view(r@)[i]),
{
    let n = features.len();
    let mut ts: Vec<Trail> = Vec::new();
    let mut i: usize = 0;
    proof {
        assert(trails_view(ts@) =~= spec_pre_catalog(features@.take(0)));
    }
    while i < n
        invariant
            0 <= i <= n,
            n == features@.len(),
            trails_view(ts@) == spec_pre_catalog(features@.take(i as int)),
        decreases n - i,
    {
        proof {
            assert(features@.take(i + 1).drop_last() =~= features@.take(i as int));
            assert(features@.take(i + 1).last() == features@[i as int]);
        }
        match feature_to_candidate(&features[i]) {
            Some(c) => {
                let ghost cs = cand_spec(c);
                let geo = reproject_path_approx(&c.path);
                proof {
                    assert(geo@ =~= spec_approx_path(cs.path));
                }
                let t = build_trail(c, geo);
                ts.push(t);
                proof {
                    assert(trails_view(ts@) =~= spec_pre_catalog(features@.take(i + 1)));
                }
            },
            None => {
                proof {
                    assert(trails_view(ts@) =~= spec_pre_catalog(features@.take(i + 1)));
                }
            },
        }
        i = i + 1;
    }
    proof {
        assert(features@.take(n as int) =~= features@);
    }
    let r = sort_catalog(dedup_trails(ts));
    proof {
        let pre = spec_pre_catalog(features@);
        let d = dedup_fold(pre);
        lemma_dedup_unique_keys(pre);
        lemma_unique_keys_transfer(d, trails_view(r@));
        lemma_pre_catalog_wf(features@);
        assert forall|i: int| 0 <= i < r@.len() implies wf_trail(
            #[trigger] trails_view(r@)[i],
        ) by {
            let tv = trails_view(r@)[i];
            assert(trails_view(r@).contains(tv));
            vstd::seq_lib::to_multiset_contains(trails_view(r@), tv);
            vstd::seq_lib::to_multiset_contains(d, tv);
            lemma_dedup_sub(pre, tv);
            let m = choose|m: int| 0 <= m < pre.len() && pre[m] == tv;
            assert(wf_trail(pre[m]));
        }
    }
    r
}

/// Load the catalog from the raw dataset payload: parse, ingest,
/// deduplicate, sort. The one fatal error is a payload without a
/// top-level features array (or one that is not JSON at all).
pub fn load_trails(text: &str) -> (r: Result<Vec<Trail>, crate::json::CatalogError>)
    ensures
        match r {
            Ok(ts) => sorted_catalog(ts@) && unique_catalog_keys(trails_view(ts@)) && forall|
                i: int,
            | 0 <= i < ts@.len() ==> wf_trail(#[trigger] trails_view(ts@)[i]),
            Err(_) => true,
        },
        (r matches Err(e) && e == crate::json::CatalogError::InvalidJson) <==> !crate::json::json_ok(
            text@,
        ),
{
    match crate::json::parse_features(text) {
        Ok(features) => Ok(build_catalog(&features)),
        Err(e) => Err(e),
    }
}

/// One filter request: absent criteria always pass; present ones are all
/// required at once. Lengths and distances are in milli-kilometers; park
/// matching is case-insensitive substring containment.
#[verifier::ext_equal]
pub ghost struct FilterSpec {
    pub difficulty: Option<Difficulty>,
    pub max_distance: Option<int>,
    pub min_length: Option<int>,
    pub max_length: Option<int>,
    pub park: Option<Seq<char>>,
}

/// Whether a record passes every supplied criterion.
pub open spec fn matches_filters(t: TrailSpec, c: FilterSpec) -> bool {
    &&& match c.difficulty {
        Some(d) => spec_difficulty_matches(d, t.difficulty),
        None => true,
    }
    &&& match c.max_distance {
        Some(m) => t.distance_from_mtl <= m,
        None => true,
    }
    &&& match c.min_length {
        Some(m) => t.length_km >= m,
        None => true,
    }
    &&& match c.max_length {
        Some(m) => t.length_km <= m,
        None => true,
    }
    &&& match c.park {
        Some(p) => contains_seq(lower_of(t.park), lower_of(p)),
        None => true,
    }
}

/// The subsequence of records passing a filter, in order.
pub open spec fn spec_filter(s: Seq<TrailSpec>, c: FilterSpec) -> Seq<TrailSpec>
    decreases s.len(),
{
    if s.len() == 0 {
        Seq::<TrailSpec>::empty()
    } else {
        spec_filter(s.drop_last(), c) + if matches_filters(s.last(), c) {
            seq![s.last()]
        } else {
            Seq::<TrailSpec>::empty()
        }
    }
}

/// The subsequence passing two filters at once.
pub open spec fn spec_filter_both(s: Seq<TrailSpec>, c1: FilterSpec, c2: FilterSpec) -> Seq<
    TrailSpec,
>
    decreases s.len(),
{
    if s.len() == 0 {
        Seq::<TrailSpec>::empty()
    } else {
        spec_filter_both(s.drop_last(), c1, c2) + if matches_filters(s.last(), c1)
            && matches_filters(s.last(), c2) {
            seq![s.last()]
        } else {
            Seq::<TrailSpec>::empty()
        }
    }
}

/// Composing two filters is filtering by both at once — and so equals the
/// intersection of the two filters' own subsets, whichever is applied
/// first.
pub proof fn lemma_filter_compose(s: Seq<TrailSpec>, c1: FilterSpec, c2: FilterSpec)
    ensures
        spec_filter(spec_filter(s, c1), c2) == spec_filter_both(s, c1, c2),
        spec_filter(spec_filter(s, c1), c2) == spec_filter(spec_filter(s, c2), c1),
    decreases s.len(),
{
    lemma_filter_compose_one(s, c1, c2);
    lemma_filter_compose_one(s, c2, c1);
    lemma_filter_both_comm(s, c1, c2);
}

proof fn lemma_filter_both_comm(s: Seq<TrailSpec>, c1: FilterSpec, c2: FilterSpec)
    ensures
        spec_filter_both(s, c1, c2) == spec_filter_both(s, c2, c1),
    decreases s.len(),
{
    if s.len() > 0 {
        lemma_filter_both_comm(s.drop_last(), c1, c2);
    }
}

proof fn lemma_filter_compose_one(s: Seq<TrailSpec>, c1: FilterSpec, c2: FilterSpec)
    ensures
        spec_filter(spec_filter(s, c1), c2) == spec_filter_both(s, c1, c2),
    decreases s.len(),
{
    if s.len() == 0 {
        assert(spec_filter(s, c1) =~= Seq::<TrailSpec>::empty());
    } else {
        lemma_filter_compose_one(s.drop_last(), c1, c2);
        let t = s.last();
        let f1 = spec_filter(s.drop_last(), c1);
        if matches_filters(t, c1) {
            assert(spec_filter(s, c1) == f1 + seq![t]);
            assert((f1 + seq![t]).drop_last() =~= f1);
            assert((f1 + seq![t]).last() == t);
            if matches_filters(t, c2) {
                assert(spec_filter(spec_filter(s, c1), c2) =~= spec_filter_both(s, c1, c2));
            } else {
                assert(spec_filter(spec_filter(s, c1), c2) =~= spec_filter_both(s, c1, c2));
            }
        } else {
            assert(spec_filter(s, c1) == f1 + Seq::<TrailSpec>::empty());
            assert(f1 + Seq::<TrailSpec>::empty() =~= f1);
            assert(spec_filter(spec_filter(s, c1), c2) =~= spec_filter_both(s, c1, c2));
        }
    }
}

pub open spec fn opt_milli_view(v: Option<i64>) -> Option<int> {
    match v {
        Some(x) => Some(x as int),
        None => None,
    }
}

pub open spec fn opt_text_view(v: Option<&str>) -> Option<Seq<char>> {
    match v {
        Some(x) => Some(x@),
        None => None,
    }
}

/// A fresh copy of one record, equal in value.
fn duplicate_trail(t: &Trail) -> (r: Trail)
    ensures
        trail_spec(r) == trail_spec(*t),
{
    let mut path: Vec<GeoPoint> = Vec::new();
    let n = t.coordinates_wgs84.len();
    let mut i: usize = 0;
    while i < n
        invariant
            0 <= i <= n,
            n == t.coordinates_wgs84@.len(),
            path@ == t.coordinates_wgs84@.take(i as int),
        decreases n - i,
    {
        path.push(t.coordinates_wgs84[i]);
        proof {
            assert(path@ =~= t.coordinates_wgs84@.take(i + 1));
        }
        i = i + 1;
    }
    proof {
        assert(t.coordinates_wgs84@.take(n as int) =~= t.coordinates_wgs84@);
    }
    let r = Trail {
        name: t.name.clone(),
        park: t.park.clone(),
        park_code: t.park_code.clone(),
        difficulty: t.difficulty.clone(),
        length_km: t.length_km,
        lat: t.lat,
        lng: t.lng,
        distance_from_mtl: t.distance_from_mtl,
        coordinates_wgs84: path,
    };
    proof {
        assert(trail_spec(r) =~= trail_spec(*t));
    }
    r
}

/// The records passing every supplied criterion, in catalog order; see
/// `matches_filters`.
pub fn filter_trails(
    trails: &Vec<Trail>,
    difficulty: Option<Difficulty>,
    max_distance: Option<i64>,
    min_length: Option<i64>,
    max_length: Option<i64>,
    park_name: Option<&str>,
) -> (r: Vec<Trail>)
    ensures
        trails_view(r@) == spec_filter(
            trails_view(trails@),
            FilterSpec {
                difficulty: difficulty,
                max_distance: opt_milli_view(max_distance),
                min_length: opt_milli_view(min_length),
                max_length: opt_milli_view(max_length),
                park: opt_text_view(park_name),
            },
        ),
{
    let ghost c = FilterSpec {
        difficulty: difficulty,
        max_distance: opt_milli_view(max_distance),
        min_length: opt_milli_view(min_length),
        max_length: opt_milli_view(max_length),
        park: opt_text_view(park_name),
    };
    let n = trails.len();
    let mut out: Vec<Trail> = Vec::new();
    let mut i: usize = 0;
    proof {
        assert(trails_view(out@) =~= spec_filter(trails_view(trails@).take(0), c));
        assert(trails_view(trails@).take(0) =~= trails_view(trails@.take(0)));
    }
    while i < n
        invariant
            0 <= i <= n,
            n == trails@.len(),
            c == (FilterSpec {
                difficulty: difficulty,
                max_distance: opt_milli_view(max_distance),
                min_length: opt_milli_view(min_length),
                max_length: opt_milli_view(max_length),
                park: opt_text_view(park_name),
            }),
            trails_view(out@) == spec_filter(trails_view(trails@.take(i as int)), c),
        decreases n - i,
    {
        let t = &trails[i];
        let ghost tsp = trail_spec(trails@[i as int]);
        let pass_difficulty = match difficulty {
            Some(d) => d.matches(t.difficulty.as_str()),
            None => true,
        };
        let pass_max_distance = match max_distance {
            Some(m) => t.distance_from_mtl <= m,
            None => true,
        };
        let pass_min_length = match min_length {
            Some(m) => t.length_km >= m,
            None => true,
        };
        let pass_max_length = match max_length {
            Some(m) => t.length_km <= m,
            None => true,
        };
        let pass_park = match park_name {
            Some(p) => {
                let tl = lowercase(t.park.as_str());
                let pl = lowercase(p);
                contains_sub(tl.as_str(), pl.as_str())
            },
            None => true,
        };
        let pass = pass_difficulty && pass_max_distance && pass_min_length && pass_max_length
            && pass_park;
        proof {
            assert(pass == matches_filters(tsp, c));
            let cur = trails_view(trails@.take(i + 1));
            assert(cur.drop_last() =~= trails_view(trails@.take(i as int)));
            assert(cur.last() == tsp);
        }
        if pass {
            let copy = duplicate_trail(t);
            out.push(copy);
            proof {
                assert(trails_view(out@) =~= spec_filter(trails_view(trails@.take(i + 1)), c));
            }
        } else {
            proof {
                assert(trails_view(out@) =~= spec_filter(trails_view(trails@.take(i + 1)), c));
            }
        }
        i = i + 1;
    }
    proof {
        assert(trails@.take(n as int) =~= trails@);
    }
    out
}

/// First index of a record whose name contains the query,
/// case-insensitively.
pub open spec fn spec_find_name(s: Seq<TrailSpec>, q: Seq<char>) -> Option<int>
    decreases s.len(),
{
    if s.len() == 0 {
        None
    } else if contains_seq(lower_of(s[0].name), lower_of(q)) {
        Some(0)
    } else {
        match spec_find_name(s.skip(1), q) {
            Some(i) => Some(1 + i),
            None => None,
        }
    }
}

/// The first trail whose name contains the query, case-insensitively.
pub fn find_trail_by_name<'a>(trails: &'a Vec<Trail>, name: &str) -> (r: Option<&'a Trail>)
    ensures
        match r {
            Some(t) => spec_find_name(trails_view(trails@), name@) matches Some(i) && trail_spec(
                *t,
            ) == trails_view(trails@)[i],
            None => spec_find_name(trails_view(trails@), name@) is None,
        },
{
    let ql = lowercase(name);
    let n = trails.len();
    let mut i: usize = 0;
    while i < n
        invariant
            0 <= i <= n,
            n == trails@.len(),
            ql@ == lower_of(name@),
            forall|k: int|
                0 <= k < i ==> !contains_seq(
                    lower_of((#[trigger] trails_view(trails@)[k]).name),
                    lower_of(name@),
                ),
        decreases n - i,
    {
        let tl = lowercase(trails[i].name.as_str());
        if contains_sub(tl.as_str(), ql.as_str()) {
            proof {
                assert(trails_view(trails@)[i as int] == trail_spec(trails@[i as int]));
                lemma_find_name_at(trails_view(trails@), name@, i as int);
            }
            return Some(&trails[i]);
        }
        proof {
            assert(trails_view(trails@)[i as int] == trail_spec(trails@[i as int]));
        }
        i = i + 1;
    }
    proof {
        lemma_find_name_at(trails_view(trails@), name@, n as int);
    }
    None
}

proof fn lemma_find_name_at(s: Seq<TrailSpec>, q: Seq<char>, j: int)
    requires
        0 <= j <= s.len(),
        forall|k: int| 0 <= k < j ==> !contains_seq(lower_of((#[trigger] s[k]).name), lower_of(q)),
        j < s.len() ==> contains_seq(lower_of(s[j].name), lower_of(q)),
    ensures
        spec_find_name(s, q) == if j == s.len() {
            None::<int>
        } else {
            Some(j)
        },
    decreases s.len(),
{
    if j > 0 {
        assert(!contains_seq(lower_of(s[0].name), lower_of(q)));
        assert(forall|k: int|
            0 <= k < j - 1 ==> !contains_seq(lower_of((#[trigger] s.skip(1)[k]).name), lower_of(q)));
        lemma_find_name_at(s.skip(1), q, j - 1);
    }
}

/// All trails with an exact, ASCII-case-insensitive park-code match.
pub open spec fn spec_by_park(s: Seq<TrailSpec>, code: Seq<char>) -> Seq<TrailSpec>
    decreases s.len(),
{
    if s.len() == 0 {
        Seq::<TrailSpec>::empty()
    } else {
        spec_by_park(s.drop_last(), code) + if eq_ignore_case(s.last().park_code, code) {
            seq![s.last()]
        } else {
            Seq::<TrailSpec>::empty()
        }
    }
}

/// The trails of one park, by its code, up to ASCII case.
pub fn get_trails_by_park(trails: &Vec<Trail>, park_code: &str) -> (r: Vec<Trail>)
    ensures
        trails_view(r@) == spec_by_park(trails_view(trails@), park_code@),
{
    let n = trails.len();
    let mut out: Vec<Trail> = Vec::new();
    let mut i: usize = 0;
    proof {
        assert(trails_view(out@) =~= spec_by_park(trails_view(trails@.take(0)), park_code@));
    }
    while i < n
        invariant
            0 <= i <= n,
            n == trails@.len(),
            trails_view(out@) == spec_by_park(trails_view(trails@.take(i as int)), park_code@),
        decreases n - i,
    {
        proof {
            let cur = trails_view(trails@.take(i + 1));
            assert(cur.drop_last() =~= trails_view(trails@.take(i as int)));
            assert(cur.last() == trail_spec(trails@[i as int]));
        }
        if eq_ignore_ascii_case(trails[i].park_code.as_str(), park_code) {
            let copy = duplicate_trail(&trails[i]);
            out.push(copy);
            proof {
                assert(trails_view(out@) =~= spec_by_park(
                    trails_view(trails@.take(i + 1)),
                    park_code@,
                ));
            }
        } else {
            proof {
                assert(trails_view(out@) =~= spec_by_park(
                    trails_view(trails@.take(i + 1)),
                    park_code@,
                ));
            }
        }
        i = i + 1;
    }
    proof {
        assert(trails@.take(n as int) =~= trails@);
    }
    out
}

} // verus!
