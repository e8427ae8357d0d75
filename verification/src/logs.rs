//! Reading hike-log input: the "4h30m" duration format.

use vstd::prelude::*;
use crate::num::{is_digit, digit_val};

verus! {

/// The duration reader's state: minutes so far, the digit group being
/// read, and whether a group has already failed to fit in a `u32`.
#[verifier::ext_equal]
pub ghost struct DurState {
    pub total: int,
    pub cur: int,
    pub has_cur: bool,
    pub bad: bool,
}

pub open spec fn dur_init() -> DurState {
    DurState { total: 0, cur: 0, has_cur: false, bad: false }
}

/// One character of a duration: digits grow the current group; `h`/`H`
/// closes it as hours, `m`/`M` as minutes; anything else is ignored. A
/// group closed while beyond `u32` range poisons the read.
pub open spec fn dur_step(st: DurState, c: char) -> DurState {
    if st.bad {
        st
    } else if is_digit(c) {
        DurState { cur: st.cur * 10 + digit_val(c), has_cur: true, ..st }
    } else if c == 'h' || c == 'H' {
        if st.has_cur {
            if st.cur > u32::MAX {
                DurState { bad: true, ..st }
            } else {
                DurState { total: st.total + st.cur * 60, cur: 0, has_cur: false, ..st }
            }
        } else {
            st
        }
    } else if (c == 'm' || c == 'M') && st.has_cur {
        if st.cur > u32::MAX {
            DurState { bad: true, ..st }
        } else {
            DurState { total: st.total + st.cur, cur: 0, has_cur: false, ..st }
        }
    } else {
        st
    }
}

pub open spec fn dur_fold(s: Seq<char>) -> DurState
    decreases s.len(),
{
    if s.len() == 0 {
        dur_init()
    } else {
        dur_step(dur_fold(s.drop_last()), s.last())
    }
}

/// Total minutes of a duration text; a trailing digit group counts as
/// minutes. `None` when some group does not fit in a `u32`.
pub open spec fn spec_parse_duration(s: Seq<char>) -> Option<int> {
    let st = dur_fold(s);
    if st.bad {
        None
    } else if st.has_cur {
        if st.cur > u32::MAX {
            None
        } else {
            Some(st.total + st.cur)
        }
    } else {
        Some(st.total)
    }
}

/// A duration whose groups or total do not fit in a `u32`.
#[derive(Clone, Copy, Debug, PartialEq, Eq, Structural)]
pub enum DurationError {
    OutOfRange,
}

/// Parse a duration such as "4h30m", "2h", or "45": total minutes, with
/// `h`/`H` groups worth sixty each. An error exactly when a group or the
/// total does not fit in a `u32`.
pub fn parse_duration(time_str: &str) -> (r: Result<u32, DurationError>)
    ensures
        match r {
            Ok(v) => spec_parse_duration(time_str@) == Some(v as int),
            Err(_) => spec_parse_duration(time_str@) is None || (spec_parse_duration(time_str@)
                matches Some(t) && t > u32::MAX),
        },
{
    let n = time_str.unicode_len();
    let mut total: u64 = 0;
    let mut cur: u64 = 0;
    let mut has_cur = false;
    let mut bad = false;
    let mut i: usize = 0;
    proof {
        assert(time_str@.take(0) =~= Seq::<char>::empty());
    }
    while i < n
        invariant
            0 <= i <= n,
            n == time_str@.len(),
            dur_fold(time_str@.take(i as int)).bad == bad,
            dur_fold(time_str@.take(i as int)).has_cur == has_cur,
            dur_fold(time_str@.take(i as int)).total >= 0,
            dur_fold(time_str@.take(i as int)).cur >= 0,
            total <= 0x1_0000_0000,
            cur <= 0x1_0000_0000,
            dur_fold(time_str@.take(i as int)).total <= u32::MAX ==> total as int == dur_fold(
                time_str@.take(i as int),
            ).total,
            dur_fold(time_str@.take(i as int)).total > u32::MAX ==> total == 0x1_0000_0000,
            dur_fold(time_str@.take(i as int)).cur <= u32::MAX ==> cur as int == dur_fold(
                time_str@.take(i as int),
            ).cur,
            dur_fold(time_str@.take(i as int)).cur > u32::MAX ==> cur == 0x1_0000_0000,
        decreases n - i,
    {
        let ghost st = dur_fold(time_str@.take(i as int));
        proof {
            assert(time_str@.take(i + 1).drop_last() =~= time_str@.take(i as int));
            assert(time_str@.take(i + 1).last() == time_str@[i as int]);
        }
        let c = time_str.get_char(i);
        let u = c as u32;
        if !bad {
            if 48 <= u && u <= 57 {
                let grown = cur * 10 + ((u - 48) as u64);
                cur = if grown > u32::MAX as u64 {
                    0x1_0000_0000
                } else {
                    grown
                };
                has_cur = true;
            } else if c == 'h' || c == 'H' {
                if has_cur {
                    if cur > u32::MAX as u64 {
                        bad = true;
                    } else {
                        let grown = total + cur * 60;
                        total = if grown > u32::MAX as u64 {
                            0x1_0000_0000
                        } else {
                            grown
                        };
                        cur = 0;
                        has_cur = false;
                    }
                }
            } else if (c == 'm' || c == 'M') && has_cur {
                if cur > u32::MAX as u64 {
                    bad = true;
                } else {
                    let grown = total + cur;
                    total = if grown > u32::MAX as u64 {
                        0x1_0000_0000
                    } else {
                        grown
                    };
                    cur = 0;
                    has_cur = false;
                }
            }
        }
        i = i + 1;
    }
    proof {
        assert(time_str@.take(n as int) =~= time_str@);
    }
    if bad {
        return Err(DurationError::OutOfRange);
    }
    let tot = if has_cur {
        if cur > u32::MAX as u64 {
            return Err(DurationError::OutOfRange);
        }
        total + cur
    } else {
        total
    };
    if tot > u32::MAX as u64 {
        return Err(DurationError::OutOfRange);
    }
    Ok(tot as u32)
}

} // verus!
