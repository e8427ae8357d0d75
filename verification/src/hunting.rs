//! Hunting seasons: the reference table, which seasons cover a given
//! date, and date formatting. Seasons recur yearly and may span the year
//! boundary.

use vstd::prelude::*;
use crate::num::dec_str;
use crate::num::u64_dec;

verus! {

/// One recurring hunting season.
pub struct HuntingSeason {
    pub animal: String,
    pub description: String,
    pub start_month: u32,
    pub start_day: u32,
    pub end_month: u32,
    pub end_day: u32,
    pub zones: String,
}

/// The plain value of a season, for specification.
#[verifier::ext_equal]
pub ghost struct SeasonSpec {
    pub animal: Seq<char>,
    pub description: Seq<char>,
    pub start_month: int,
    pub start_day: int,
    pub end_month: int,
    pub end_day: int,
    pub zones: Seq<char>,
}

pub open spec fn season_spec(s: HuntingSeason) -> SeasonSpec {
    SeasonSpec {
        animal: s.animal@,
        description: s.description@,
        start_month: s.start_month as int,
        start_day: s.start_day as int,
        end_month: s.end_month as int,
        end_day: s.end_day as int,
        zones: s.zones@,
    }
}

pub open spec fn seasons_view(s: Seq<HuntingSeason>) -> Seq<SeasonSpec> {
    Seq::new(s.len(), |i: int| season_spec(s[i]))
}

/// A calendar date.
#[derive(Clone, Copy, Debug, PartialEq, Eq, Structural)]
pub struct Date {
    pub year: i64,
    pub month: u32,
    pub day: u32,
}

pub open spec fn is_leap_year(y: int) -> bool {
    (y % 4 == 0 && y % 100 != 0) || y % 400 == 0
}

pub open spec fn days_in_month(y: int, m: int) -> int {
    if m == 2 {
        if is_leap_year(y) {
            29
        } else {
            28
        }
    } else if m == 4 || m == 6 || m == 9 || m == 11 {
        30
    } else {
        31
    }
}

pub open spec fn valid_date(y: int, m: int, d: int) -> bool {
    1 <= m <= 12 && 1 <= d <= days_in_month(y, m)
}

/// Calendar order.
pub open spec fn date_le(a: Date, b: Date) -> bool {
    if a.year != b.year {
        a.year < b.year
    } else if a.month != b.month {
        a.month < b.month
    } else {
        a.day <= b.day
    }
}

/// Whether a season covers `today`. A season whose end month precedes its
/// start month spans the year boundary: the spanning year is chosen so
/// that a date at or past the start month belongs to the season starting
/// this year, any other to the one started last year. A season date that
/// is no valid calendar date falls back to `today` itself.
pub open spec fn spec_season_active(sm: int, sd: int, em: int, ed: int, today: Date) -> bool {
    let y = today.year as int;
    let start_year: int = if em < sm {
        if today.month as int >= sm {
            y
        } else {
            y - 1
        }
    } else {
        y
    };
    let end_year: int = if em < sm {
        start_year + 1
    } else {
        y
    };
    let start = if valid_date(start_year, sm, sd) {
        Date { year: start_year as i64, month: sm as u32, day: sd as u32 }
    } else {
        today
    };
    let end = if valid_date(end_year, em, ed) {
        Date { year: end_year as i64, month: em as u32, day: ed as u32 }
    } else {
        today
    };
    date_le(start, today) && date_le(today, end)
}

/// Leap-year rule, on a nonnegative year.
fn is_leap_year_exec(y: i64) -> (r: bool)
    requires
        0 <= y,
    ensures
        r == is_leap_year(y as int),
{
    let u = y as u64;
    (u % 4 == 0 && u % 100 != 0) || u % 400 == 0
}

fn valid_date_exec(y: i64, m: u32, d: u32) -> (r: bool)
    requires
        0 <= y,
    ensures
        r == valid_date(y as int, m as int, d as int),
{
    if !(1 <= m && m <= 12) {
        return false;
    }
    let dim: u32 = if m == 2 {
        if is_leap_year_exec(y) {
            29
        } else {
            28
        }
    } else if m == 4 || m == 6 || m == 9 || m == 11 {
        30
    } else {
        31
    };
    1 <= d && d <= dim
}

fn date_le_exec(a: Date, b: Date) -> (r: bool)
    ensures
        r == date_le(a, b),
{
    if a.year != b.year {
        a.year < b.year
    } else if a.month != b.month {
        a.month < b.month
    } else {
        a.day <= b.day
    }
}

/// Whether a season covers `today`; see `spec_season_active`.
pub fn is_season_active(season: &HuntingSeason, today: Date) -> (r: bool)
    requires
        1 <= today.year <= 1_000_000,
    ensures
        r == spec_season_active(
            season.start_month as int,
            season.start_day as int,
            season.end_month as int,
            season.end_day as int,
            today,
        ),
{
    let y = today.year;
    let spans = season.end_month < season.start_month;
    let start_year: i64 = if spans {
        if today.month >= season.start_month {
            y
        } else {
            y - 1
        }
    } else {
        y
    };
    let end_year: i64 = if spans {
        start_year + 1
    } else {
        y
    };
    let start = if valid_date_exec(start_year, season.start_month, season.start_day) {
        Date { year: start_year, month: season.start_month, day: season.start_day }
    } else {
        today
    };
    let end = if valid_date_exec(end_year, season.end_month, season.end_day) {
        Date { year: end_year, month: season.end_month, day: season.end_day }
    } else {
        today
    };
    date_le_exec(start, today) && date_le_exec(today, end)
}

/// The province's recurring hunting seasons.
pub fn hunting_seasons() -> (r: Vec<HuntingSeason>)
    ensures
        seasons_view(r@) =~= seq![
            SeasonSpec {
                animal: "Small game"@,
                description: "hare, grouse, ptarmigan, woodcock"@,
                start_month: 9,
                start_day: 1,
                end_month: 3,
                end_day: 31,
                zones: "province-wide"@,
            },
            SeasonSpec {
                animal: "White-tailed deer"@,
                description: "rifle season"@,
                start_month: 11,
                start_day: 4,
                end_month: 11,
                end_day: 17,
                zones: "zones 4-10"@,
            },
            SeasonSpec {
                animal: "Moose"@,
                description: "rifle season"@,
                start_month: 9,
                start_day: 20,
                end_month: 10,
                end_day: 26,
                zones: "zones 1-26"@,
            },
            SeasonSpec {
                animal: "Black bear"@,
                description: "fall season"@,
                start_month: 8,
                start_day: 15,
                end_month: 11,
                end_day: 15,
                zones: "zones 1-28"@,
            },
        ],
{
    let mut r: Vec<HuntingSeason> = Vec::new();
    r.push(
        HuntingSeason {
            animal: String::from_str("Small game"),
            description: String::from_str("hare, grouse, ptarmigan, woodcock"),
            start_month: 9,
            start_day: 1,
            end_month: 3,
            end_day: 31,
            zones: String::from_str("province-wide"),
        },
    );
    r.push(
        HuntingSeason {
            animal: String::from_str("White-tailed deer"),
            description: String::from_str("rifle season"),
            start_month: 11,
            start_day: 4,
            end_month: 11,
            end_day: 17,
            zones: String::from_str("zones 4-10"),
        },
    );
    r.push(
        HuntingSeason {
            animal: String::from_str("Moose"),
            description: String::from_str("rifle season"),
            start_month: 9,
            start_day: 20,
            end_month: 10,
            end_day: 26,
            zones: String::from_str("zones 1-26"),
        },
    );
    r.push(
        HuntingSeason {
            animal: String::from_str("Black bear"),
            description: String::from_str("fall season"),
            start_month: 8,
            start_day: 15,
            end_month: 11,
            end_day: 15,
            zones: String::from_str("zones 1-28"),
        },
    );
    r
}

fn duplicate_season(s: &HuntingSeason) -> (r: HuntingSeason)
    ensures
        season_spec(r) == season_spec(*s),
{
    let r = HuntingSeason {
        animal: s.animal.clone(),
        description: s.description.clone(),
        start_month: s.start_month,
        start_day: s.start_day,
        end_month: s.end_month,
        end_day: s.end_day,
        zones: s.zones.clone(),
    };
    proof {
        assert(season_spec(r) =~= season_spec(*s));
    }
    r
}

pub open spec fn spec_active_spec(s: SeasonSpec, today: Date) -> bool {
    spec_season_active(s.start_month, s.start_day, s.end_month, s.end_day, today)
}

/// The subsequence of seasons covering (or, negated, not covering)
/// `today`, in order.
pub open spec fn spec_seasons_where(s: Seq<SeasonSpec>, today: Date, active: bool) -> Seq<
    SeasonSpec,
>
    decreases s.len(),
{
    if s.len() == 0 {
        Seq::<SeasonSpec>::empty()
    } else {
        spec_seasons_where(s.drop_last(), today, active) + if spec_active_spec(s.last(), today)
            == active {
            seq![s.last()]
        } else {
            Seq::<SeasonSpec>::empty()
        }
    }
}

fn seasons_where(seasons: &Vec<HuntingSeason>, today: Date, active: bool) -> (r: Vec<HuntingSeason>)
    requires
        1 <= today.year <= 1_000_000,
    ensures
        seasons_view(r@) == spec_seasons_where(seasons_view(seasons@), today, active),
{
    let n = seasons.len();
    let mut out: Vec<HuntingSeason> = Vec::new();
    let mut i: usize = 0;
    proof {
        assert(seasons_view(out@) =~= spec_seasons_where(
            seasons_view(seasons@.take(0)),
            today,
            active,
        ));
    }
    while i < n
        invariant
            0 <= i <= n,
            n == seasons@.len(),
            1 <= today.year <= 1_000_000,
            seasons_view(out@) == spec_seasons_where(
                seasons_view(seasons@.take(i as int)),
                today,
                active,
            ),
        decreases n - i,
    {
        proof {
            let cur = seasons_view(seasons@.take(i + 1));
            assert(cur.drop_last() =~= seasons_view(seasons@.take(i as int)));
            assert(cur.last() == season_spec(seasons@[i as int]));
        }
        if is_season_active(&seasons[i], today) == active {
            let copy = duplicate_season(&seasons[i]);
            out.push(copy);
            proof {
                assert(seasons_view(out@) =~= spec_seasons_where(
                    seasons_view(seasons@.take(i + 1)),
                    today,
                    active,
                ));
            }
        } else {
            proof {
                assert(seasons_view(out@) =~= spec_seasons_where(
                    seasons_view(seasons@.take(i + 1)),
                    today,
                    active,
                ));
            }
        }
        i = i + 1;
    }
    proof {
        assert(seasons@.take(n as int) =~= seasons@);
    }
    out
}

/// The seasons of the table that cover `today`, in table order.
pub fn get_active_seasons(seasons: &Vec<HuntingSeason>, today: Date) -> (r: Vec<HuntingSeason>)
    requires
        1 <= today.year <= 1_000_000,
    ensures
        seasons_view(r@) == spec_seasons_where(seasons_view(seasons@), today, true),
{
    seasons_where(seasons, today, true)
}

/// Start-date order: by month, then day.
pub open spec fn season_le(a: SeasonSpec, b: SeasonSpec) -> bool {
    if a.start_month != b.start_month {
        a.start_month < b.start_month
    } else {
        a.start_day <= b.start_day
    }
}

pub open spec fn sorted_seasons(s: Seq<HuntingSeason>) -> bool {
    forall|i: int|
        0 <= i && i + 1 < s.len() ==> #[trigger] season_le(
            season_spec(s[i]),
            season_spec(s[i + 1]),
        )
}

/// The seasons not covering `today`, sorted by start date.
pub fn get_upcoming_seasons(seasons: &Vec<HuntingSeason>, today: Date) -> (r: Vec<HuntingSeason>)
    requires
        1 <= today.year <= 1_000_000,
    ensures
        seasons_view(r@).to_multiset() == spec_seasons_where(
            seasons_view(seasons@),
            today,
            false,
        ).to_multiset(),
        sorted_seasons(r@),
{
    let upcoming = seasons_where(seasons, today, false);
    let ghost orig = upcoming@;
    let mut rest = upcoming;
    let mut out: Vec<HuntingSeason> = Vec::new();
    let ghost mut i: int = 0;
    proof {
        assert(rest@ =~= orig.skip(0));
        assert(seasons_view(out@) =~= seasons_view(orig.take(0)));
        assert(seasons_view(out@).to_multiset() =~= seasons_view(orig.take(0)).to_multiset());
    }
    while rest.len() > 0
        invariant
            0 <= i <= orig.len(),
            rest@ == orig.skip(i),
            seasons_view(out@).to_multiset() == seasons_view(orig.take(i)).to_multiset(),
            sorted_seasons(out@),
        decreases rest@.len(),
    {
        let t = rest.remove(0);
        proof {
            assert(rest@ =~= orig.skip(i + 1));
            assert(t == orig[i]);
        }
        let ghost tsp = season_spec(t);
        let ghost outv = out@;
        let n = out.len();
        let mut p: usize = 0;
        loop
            invariant
                0 <= p <= n,
                n == out@.len(),
                out@ == outv,
                tsp == season_spec(t),
                forall|k: int| 0 <= k < p ==> season_le(#[trigger] seasons_view(out@)[k], tsp),
            ensures
                0 <= p <= n,
                out@ == outv,
                forall|k: int| 0 <= k < p ==> season_le(#[trigger] seasons_view(out@)[k], tsp),
                p < n ==> season_le(tsp, seasons_view(out@)[p as int]),
            decreases n - p,
        {
            if p == n {
                break ;
            }
            let a = &out[p];
            let le = if a.start_month != t.start_month {
                a.start_month < t.start_month
            } else {
                a.start_day <= t.start_day
            };
            proof {
                assert(seasons_view(out@)[p as int] == season_spec(out@[p as int]));
            }
            if !le {
                break ;
            }
            p = p + 1;
        }
        out.insert(p, t);
        proof {
            assert(seasons_view(out@) =~= seasons_view(outv).insert(p as int, tsp));
            vstd::seq_lib::to_multiset_insert(seasons_view(outv), p as int, tsp);
            let cur = seasons_view(orig.take(i + 1));
            assert(seasons_view(orig.take(i)).push(tsp) =~= cur);
            vstd::seq_lib::to_multiset_build(seasons_view(orig.take(i)), tsp);
            assert(sorted_seasons(out@)) by {
                assert forall|k: int|
                    0 <= k && k + 1 < out@.len() implies #[trigger] season_le(
                    season_spec(out@[k]),
                    season_spec(out@[k + 1]),
                ) by {
                    if k + 1 < p {
                        assert(out@[k] == outv[k]);
                        assert(out@[k + 1] == outv[k + 1]);
                        assert(season_le(season_spec(outv[k]), season_spec(outv[k + 1])));
                    } else if k + 1 == p {
                        assert(out@[k] == outv[k]);
                        assert(seasons_view(outv)[k] == season_spec(outv[k]));
                        assert(season_le(seasons_view(outv)[k], tsp));
                        assert(out@[k + 1] == t);
                    } else if k == p {
                        assert(out@[k] == t);
                        assert(out@[k + 1] == outv[k]);
                        assert(seasons_view(outv)[k] == season_spec(outv[k]));
                    } else {
                        let k1 = k - 1;
                        assert(out@[k] == outv[k1]);
                        assert(out@[k + 1] == outv[k1 + 1]);
                        assert(sorted_seasons(outv));
                        assert(0 <= k1 && k1 + 1 < outv.len());
                        assert(season_le(season_spec(outv[k1]), season_spec(outv[k1 + 1])));
                    }
                }
            }
        }
        proof {
            i = i + 1;
        }
    }
    proof {
        assert(orig.take(orig.len() as int) =~= orig);
        assert(seasons_view(orig.take(i)) =~= seasons_view(orig));
    }
    out
}

/// The three-letter tag of a month number.
pub open spec fn spec_month_abbrev(m: int) -> Seq<char> {
    if m == 1 {
        "Jan"@
    } else if m == 2 {
        "Feb"@
    } else if m == 3 {
        "Mar"@
    } else if m == 4 {
        "Apr"@
    } else if m == 5 {
        "May"@
    } else if m == 6 {
        "Jun"@
    } else if m == 7 {
        "Jul"@
    } else if m == 8 {
        "Aug"@
    } else if m == 9 {
        "Sep"@
    } else if m == 10 {
        "Oct"@
    } else if m == 11 {
        "Nov"@
    } else if m == 12 {
        "Dec"@
    } else {
        "???"@
    }
}

pub fn month_abbrev(month: u32) -> (r: &'static str)
    ensures
        r@ == spec_month_abbrev(month as int),
{
    match month {
        1 => "Jan",
        2 => "Feb",
        3 => "Mar",
        4 => "Apr",
        5 => "May",
        6 => "Jun",
        7 => "Jul",
        8 => "Aug",
        9 => "Sep",
        10 => "Oct",
        11 => "Nov",
        12 => "Dec",
        _ => "???",
    }
}

/// `"<Mon> <day>, <year>"`.
pub open spec fn spec_season_date(m: int, d: int, y: int) -> Seq<char> {
    spec_month_abbrev(m) + " "@ + dec_str(d as nat) + ", "@ + dec_str(y as nat)
}

/// Render a season's start and end dates for a given year; a season that
/// spans the year boundary ends the following year.
pub fn format_season_dates(season: &HuntingSeason, current_year: i64) -> (r: (String, String))
    requires
        0 <= current_year <= 1_000_000,
    ensures
        r.0@ == spec_season_date(
            season.start_month as int,
            season.start_day as int,
            current_year as int,
        ),
        r.1@ == spec_season_date(
            season.end_month as int,
            season.end_day as int,
            if season.end_month < season.start_month {
                current_year + 1
            } else {
                current_year as int
            },
        ),
{
    let end_year: i64 = if season.end_month < season.start_month {
        current_year + 1
    } else {
        current_year
    };
    let mut start = String::from_str(month_abbrev(season.start_month));
    start.append(" ");
    let sd = u64_dec(season.start_day as u64);
    start.append(sd.as_str());
    start.append(", ");
    let sy = u64_dec(current_year as u64);
    start.append(sy.as_str());
    let mut end = String::from_str(month_abbrev(season.end_month));
    end.append(" ");
    let ed = u64_dec(season.end_day as u64);
    end.append(ed.as_str());
    end.append(", ");
    let ey = u64_dec(end_year as u64);
    end.append(ey.as_str());
    (start, end)
}

} // verus!
