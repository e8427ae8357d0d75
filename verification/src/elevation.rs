//! Elevation profiles: decimating a coordinate path to a query budget,
//! batching lookups, rendering query URLs, and ascent/descent statistics.
//!
//! Elevations are in milli-meters (mm).

use vstd::prelude::*;
use vstd::arithmetic::div_mod::lemma_multiply_divide_lt;
use vstd::arithmetic::mul::lemma_mul_strict_inequality;
use crate::geo::GeoPoint;
use crate::num::micro_str;
use crate::num::micro_text;

verus! {

/// Most points allowed in one remote elevation lookup.
pub const ELEVATION_BATCH_SIZE: usize = 100;

/// Default number of sample points for elevation profiles.
pub const DEFAULT_SAMPLE_POINTS: usize = 100;

/// Largest elevation magnitude the model admits, in milli-meters:
/// 100 km, far beyond terrestrial relief, so that sums of differences
/// stay in range.
pub const ELEV_LIMIT_MM: i64 = 100_000_000;

/// Longest elevation sequence the statistics accept.
pub const ELEV_LEN_LIMIT: usize = 1_000_000_000;

/// Smallest elevation in `s`; zero for an empty sequence.
pub open spec fn min_of(s: Seq<i64>) -> int
    decreases s.len(),
{
    if s.len() == 0 {
        0
    } else if s.len() == 1 {
        s[0] as int
    } else if (s.last() as int) < min_of(s.drop_last()) {
        s.last() as int
    } else {
        min_of(s.drop_last())
    }
}

/// Largest elevation in `s`; zero for an empty sequence.
pub open spec fn max_of(s: Seq<i64>) -> int
    decreases s.len(),
{
    if s.len() == 0 {
        0
    } else if s.len() == 1 {
        s[0] as int
    } else if (s.last() as int) > max_of(s.drop_last()) {
        s.last() as int
    } else {
        max_of(s.drop_last())
    }
}

/// Sum of the positive differences between consecutive elevations.
pub open spec fn gain_of(s: Seq<i64>) -> int
    decreases s.len(),
{
    if s.len() < 2 {
        0
    } else {
        gain_of(s.drop_last()) + if s.last() > s[s.len() - 2] {
            s.last() - s[s.len() - 2]
        } else {
            0
        }
    }
}

/// Sum of the magnitudes of the negative differences between consecutive
/// elevations.
pub open spec fn loss_of(s: Seq<i64>) -> int
    decreases s.len(),
{
    if s.len() < 2 {
        0
    } else {
        loss_of(s.drop_last()) + if s.last() < s[s.len() - 2] {
            s[s.len() - 2] - s.last()
        } else {
            0
        }
    }
}

/// Summary of an elevation profile, in milli-meters.
pub struct ElevationStats {
    pub min: i64,
    pub max: i64,
    pub total_gain: i64,
    pub total_loss: i64,
    pub elevations: Vec<i64>,
}

/// Minimum, maximum, cumulative ascent and cumulative descent of an
/// elevation sequence, in one forward pass. An empty sequence yields
/// all-zero statistics, not an error.
pub fn calculate_elevation_stats(elevations: &Vec<i64>) -> (r: ElevationStats)
    requires
        elevations@.len() <= ELEV_LEN_LIMIT,
        forall|i: int|
            0 <= i < elevations@.len() ==> -ELEV_LIMIT_MM <= #[trigger] elevations@[i]
                <= ELEV_LIMIT_MM,
    ensures
        r.elevations@ == elevations@,
        r.min as int == min_of(elevations@),
        r.max as int == max_of(elevations@),
        r.total_gain as int == gain_of(elevations@),
        r.total_loss as int == loss_of(elevations@),
        elevations@.len() == 0 ==> r.min == 0 && r.max == 0 && r.total_gain == 0 && r.total_loss
            == 0,
{
    let n = elevations.len();
    if n == 0 {
        return ElevationStats {
            min: 0,
            max: 0,
            total_gain: 0,
            total_loss: 0,
            elevations: Vec::new(),
        };
    }
    let mut min: i64 = elevations[0];
    let mut max: i64 = elevations[0];
    let mut gain: i64 = 0;
    let mut loss: i64 = 0;
    let mut i: usize = 1;
    proof {
        assert(elevations@.take(1).len() == 1);
        assert(elevations@.take(1)[0] == elevations@[0]);
    }
    while i < n
        invariant
            1 <= i <= n,
            n == elevations@.len(),
            n <= ELEV_LEN_LIMIT,
            forall|t: int|
                0 <= t < n ==> -ELEV_LIMIT_MM <= #[trigger] elevations@[t] <= ELEV_LIMIT_MM,
            min as int == min_of(elevations@.take(i as int)),
            max as int == max_of(elevations@.take(i as int)),
            gain as int == gain_of(elevations@.take(i as int)),
            loss as int == loss_of(elevations@.take(i as int)),
            -ELEV_LIMIT_MM <= min <= ELEV_LIMIT_MM,
            -ELEV_LIMIT_MM <= max <= ELEV_LIMIT_MM,
            0 <= gain,
            0 <= loss,
            gain as int <= (i - 1) * (2 * ELEV_LIMIT_MM as int),
            loss as int <= (i - 1) * (2 * ELEV_LIMIT_MM as int),
        decreases n - i,
    {
        let e = elevations[i];
        let prev = elevations[i - 1];
        proof {
            let cur = elevations@.take(i + 1);
            assert(cur.drop_last() =~= elevations@.take(i as int));
            assert(cur.last() == elevations@[i as int]);
            assert(cur[cur.len() - 2] == elevations@[i - 1]);
        }
        if e < min {
            min = e;
        }
        if e > max {
            max = e;
        }
        proof {
            assert((i - 1) * (2 * ELEV_LIMIT_MM as int) + 2 * ELEV_LIMIT_MM as int == i as int * (2
                * ELEV_LIMIT_MM as int)) by (nonlinear_arith);
            assert(i as int * (2 * ELEV_LIMIT_MM as int) <= ELEV_LEN_LIMIT as int * (2
                * ELEV_LIMIT_MM as int)) by (nonlinear_arith)
                requires
                    1 <= i <= ELEV_LEN_LIMIT as int,
            ;
        }
        if e > prev {
            gain = gain + (e - prev);
        } else if e < prev {
            loss = loss + (prev - e);
        }
        i = i + 1;
    }
    proof {
        assert(elevations@.take(n as int) =~= elevations@);
    }
    let mut copy: Vec<i64> = Vec::new();
    let mut t: usize = 0;
    while t < n
        invariant
            0 <= t <= n,
            n == elevations@.len(),
            copy@ == elevations@.take(t as int),
        decreases n - t,
    {
        proof {
            assert(elevations@.take(t + 1).drop_last() =~= elevations@.take(t as int));
        }
        copy.push(elevations[t]);
        proof {
            assert(copy@ =~= elevations@.take(t + 1));
        }
        t = t + 1;
    }
    proof {
        assert(elevations@.take(n as int) =~= elevations@);
    }
    ElevationStats { min, max, total_gain: gain, total_loss: loss, elevations: copy }
}

/// The decimated form of a path `s` under a budget `m`: unchanged when it
/// already fits, else the `m` points at positions `floor(i * len / m)`,
/// with the original final point appended when decimation would have
/// dropped it.
pub open spec fn spec_sample(s: Seq<GeoPoint>, m: int) -> Seq<GeoPoint> {
    if s.len() <= m {
        s
    } else {
        let base = Seq::new(m as nat, |i: int| s[i * s.len() / m]);
        if base.len() > 0 && base.last() == s.last() {
            base
        } else {
            base + seq![s.last()]
        }
    }
}

/// Decimate a coordinate path to at most `max_points` evenly spaced
/// points (plus, possibly, the original endpoint). The first point is
/// kept when `max_points >= 1`, and the final point is always kept.
pub fn sample_coordinates(coordinates: &Vec<GeoPoint>, max_points: usize) -> (r: Vec<GeoPoint>)
    ensures
        r@ == spec_sample(coordinates@, max_points as int),
        coordinates@.len() > max_points ==> r@.len() <= max_points + 1,
        coordinates@.len() > max_points >= 1 ==> r@[0] == coordinates@[0],
        coordinates@.len() > 0 ==> r@.len() > 0 && r@.last() == coordinates@.last(),
{
    let n = coordinates.len();
    if n <= max_points {
        let mut out: Vec<GeoPoint> = Vec::new();
        let mut t: usize = 0;
        while t < n
            invariant
                0 <= t <= n,
                n == coordinates@.len(),
                out@ == coordinates@.take(t as int),
            decreases n - t,
        {
            out.push(coordinates[t]);
            proof {
                assert(out@ =~= coordinates@.take(t + 1));
            }
            t = t + 1;
        }
        proof {
            assert(coordinates@.take(n as int) =~= coordinates@);
            if n > 0 {
                assert(coordinates@.last() == coordinates@[n - 1]);
            }
        }
        return out;
    }
    let m = max_points;
    let ghost base = Seq::new(m as nat, |i: int| coordinates@[i * n as int / m as int]);
    let mut out: Vec<GeoPoint> = Vec::new();
    let mut i: usize = 0;
    while i < m
        invariant
            0 <= i <= m,
            m < n,
            n == coordinates@.len(),
            base == Seq::new(m as nat, |t: int| coordinates@[t * n as int / m as int]),
            out@ == base.take(i as int),
        decreases m - i,
    {
        proof {
            lemma_mul_strict_inequality(i as int, m as int, n as int);
            lemma_multiply_divide_lt(i as int * n as int, m as int, n as int);
            assert(0 <= i as int * n as int) by (nonlinear_arith)
                requires
                    0 <= i,
                    0 <= n,
            ;
            assert(i as int * n as int / m as int >= 0) by {
                vstd::arithmetic::div_mod::lemma_div_pos_is_pos(
                    i as int * n as int,
                    m as int,
                );
            }
            assert(i as u128 * n as u128 <= 0xffffffffffffffff * 0xffffffffffffffff)
                by (nonlinear_arith)
                requires
                    i as u128 <= 0xffffffffffffffff,
                    n as u128 <= 0xffffffffffffffff,
            ;
        }
        let idx = ((i as u128 * n as u128) / m as u128) as usize;
        out.push(coordinates[idx]);
        proof {
            assert(out@ =~= base.take(i + 1));
        }
        i = i + 1;
    }
    proof {
        assert(base.take(m as int) =~= base);
    }
    let last = coordinates[n - 1];
    proof {
        assert(coordinates@.last() == coordinates@[n - 1]);
    }
    let keep = if m == 0 {
        false
    } else {
        let b = out[m - 1];
        b.lat_udeg == last.lat_udeg && b.lng_udeg == last.lng_udeg
    };
    if !keep {
        out.push(last);
        proof {
            assert(out@ =~= base + seq![coordinates@.last()]);
        }
    }
    proof {
        if m >= 1 {
            assert(base[0] == coordinates@[0 * n as int / m as int]);
            assert(0 * n as int == 0) by (nonlinear_arith);
        }
    }
    out
}

/// The coordinate sequence a batch list carries, in order.
pub open spec fn flat_of(s: Seq<Vec<GeoPoint>>) -> Seq<GeoPoint>
    decreases s.len(),
{
    if s.len() == 0 {
        Seq::<GeoPoint>::empty()
    } else {
        flat_of(s.drop_last()) + s.last()@
    }
}

/// Split a coordinate path into consecutive batches of at most
/// `ELEVATION_BATCH_SIZE` points each, preserving order and losing
/// nothing: one remote lookup is made per batch. Batches are maximal:
/// every batch but the last holds exactly `ELEVATION_BATCH_SIZE` points,
/// so a path of `N` points takes exactly the ceiling of `N / 100`
/// lookups.
pub fn batch_coordinates(coords: &Vec<GeoPoint>) -> (r: Vec<Vec<GeoPoint>>)
    ensures
        flat_of(r@) == coords@,
        forall|b: int|
            0 <= b < r@.len() ==> 1 <= (#[trigger] r@[b])@.len() <= ELEVATION_BATCH_SIZE,
        forall|b: int|
            0 <= b < r@.len() - 1 ==> (#[trigger] r@[b])@.len() == ELEVATION_BATCH_SIZE,
{
    let n = coords.len();
    let mut out: Vec<Vec<GeoPoint>> = Vec::new();
    let mut i: usize = 0;
    proof {
        assert(flat_of(out@) =~= coords@.take(0));
    }
    while i < n
        invariant
            0 <= i <= n,
            n == coords@.len(),
            flat_of(out@) == coords@.take(i as int),
            forall|b: int|
                0 <= b < out@.len() ==> 1 <= (#[trigger] out@[b])@.len() <= ELEVATION_BATCH_SIZE,
            forall|b: int|
                0 <= b < out@.len() - 1 ==> (#[trigger] out@[b])@.len() == ELEVATION_BATCH_SIZE,
            out@.len() > 0 && out@[out@.len() - 1]@.len() != ELEVATION_BATCH_SIZE ==> i == n,
        decreases n - i,
    {
        let end = if n - i < ELEVATION_BATCH_SIZE {
            n
        } else {
            i + ELEVATION_BATCH_SIZE
        };
        let mut chunk: Vec<GeoPoint> = Vec::new();
        let mut t = i;
        while t < end
            invariant
                i <= t <= end <= n,
                n == coords@.len(),
                chunk@ == coords@.subrange(i as int, t as int),
            decreases end - t,
        {
            chunk.push(coords[t]);
            proof {
                assert(chunk@ =~= coords@.subrange(i as int, t + 1));
            }
            t = t + 1;
        }
        let ghost old_out = out@;
        out.push(chunk);
        proof {
            assert(out@.drop_last() =~= old_out);
            assert(flat_of(out@) == flat_of(old_out) + chunk@);
            assert(flat_of(out@) =~= coords@.take(end as int));
        }
        i = end;
    }
    proof {
        assert(coords@.take(n as int) =~= coords@);
    }
    out
}

/// The latitudes of `points`, each with six decimals, joined by commas.
pub open spec fn join_lat(points: Seq<GeoPoint>) -> Seq<char>
    decreases points.len(),
{
    if points.len() == 0 {
        Seq::<char>::empty()
    } else if points.len() == 1 {
        micro_str(points[0].lat_udeg as int)
    } else {
        join_lat(points.drop_last()) + seq![','] + micro_str(points.last().lat_udeg as int)
    }
}

/// The longitudes of `points`, each with six decimals, joined by commas.
pub open spec fn join_lng(points: Seq<GeoPoint>) -> Seq<char>
    decreases points.len(),
{
    if points.len() == 0 {
        Seq::<char>::empty()
    } else if points.len() == 1 {
        micro_str(points[0].lng_udeg as int)
    } else {
        join_lng(points.drop_last()) + seq![','] + micro_str(points.last().lng_udeg as int)
    }
}

/// The query URL for one batch of points: the fixed elevation endpoint
/// with comma-joined latitude and longitude lists.
pub open spec fn elevation_url(points: Seq<GeoPoint>) -> Seq<char> {
    "https://api.open-meteo.com/v1/elevation?latitude="@ + join_lat(points) + "&longitude="@
        + join_lng(points)
}

fn join_coords(points: &Vec<GeoPoint>, lat: bool) -> (r: String)
    ensures
        lat ==> r@ == join_lat(points@),
        !lat ==> r@ == join_lng(points@),
{
    let mut s = String::new();
    let n = points.len();
    let mut i: usize = 0;
    proof {
        assert(s@ =~= Seq::<char>::empty());
    }
    while i < n
        invariant
            0 <= i <= n,
            n == points@.len(),
            lat ==> s@ == join_lat(points@.take(i as int)),
            !lat ==> s@ == join_lng(points@.take(i as int)),
        decreases n - i,
    {
        if i > 0 {
            s.append(",");
            proof {
                reveal_strlit(",");
                assert(","@ =~= seq![',']);
            }
        }
        let p = points[i];
        let txt = if lat {
            micro_text(p.lat_udeg)
        } else {
            micro_text(p.lng_udeg)
        };
        s.append(txt.as_str());
        proof {
            let cur = points@.take(i + 1);
            assert(cur.drop_last() =~= points@.take(i as int));
            assert(cur.last() == points@[i as int]);
            assert(cur[0] == points@[0]);
        }
        i = i + 1;
    }
    proof {
        assert(points@.take(n as int) =~= points@);
    }
    s
}

/// Build the remote elevation query URL for one batch of points.
pub fn build_elevation_url(points: &Vec<GeoPoint>) -> (r: String)
    ensures
        r@ == elevation_url(points@),
{
    let mut url = String::from_str("https://api.open-meteo.com/v1/elevation?latitude=");
    let lats = join_coords(points, true);
    url.append(lats.as_str());
    url.append("&longitude=");
    let lngs = join_coords(points, false);
    url.append(lngs.as_str());
    url
}

} // verus!
