//! Plain-text icons used by presentation layers.

use vstd::prelude::*;

verus! {

/// The glyph for a numeric weather code: 0 is clear, 1-3 cloudy,
/// 45/48 fog, 51-57 drizzle, 61-67 rain, 71-77 snow, 80-82 showers,
/// 85/86 snow showers, 95-99 thunderstorms; anything else is unknown.
pub open spec fn spec_weather_icon(code: u32) -> Seq<char> {
    if code == 0 {
        "☼"@
    } else if 1 <= code <= 3 {
        "◐"@
    } else if code == 45 || code == 48 {
        "≡"@
    } else if code == 51 || code == 53 || code == 55 || code == 56 || code == 57 || 80 <= code
        <= 82 {
        "~"@
    } else if code == 61 || code == 63 || code == 65 || code == 66 || code == 67 {
        "\\"@
    } else if code == 71 || code == 73 || code == 75 || code == 77 || code == 85 || code == 86 {
        "*"@
    } else if code == 95 || code == 96 || code == 99 {
        "^"@
    } else {
        "?"@
    }
}

pub struct Icons;

impl Icons {
    /// The display glyph for a weather code; see `spec_weather_icon`.
    pub fn weather(code: u32) -> (r: &'static str)
        ensures
            r@ == spec_weather_icon(code),
            r@.len() == 1,
    {
        let r = match code {
            0 => "☼",
            1..=3 => "◐",
            45 | 48 => "≡",
            51 | 53 | 55 => "~",
            56 | 57 => "~",
            61 | 63 | 65 => "\\",
            66 | 67 => "\\",
            71 | 73 | 75 => "*",
            77 => "*",
            80..=82 => "~",
            85 | 86 => "*",
            95 => "^",
            96 | 99 => "^",
            _ => "?",
        };
        proof {
            reveal_strlit("☼");
            reveal_strlit("◐");
            reveal_strlit("≡");
            reveal_strlit("~");
            reveal_strlit("\\");
            reveal_strlit("*");
            reveal_strlit("^");
            reveal_strlit("?");
        }
        r
    }
}

} // verus!
