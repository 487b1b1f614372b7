//! Parsing and rendering of the textual date and date-time forms.
//!
//! Dates are `YYYY-MM-DD`. Date-times are `YYYY-MM-DD HH:MM:SS` with either
//! a space or a `T` between the date and the time, so one parser covers both
//! the nested-JSON export's `T`-separated form and the space-separated form
//! of the other exports. Rendering always uses the space-separated form.

use vstd::prelude::*;

use crate::text::spec_is_digit;
use crate::text::digit_val;
use crate::text::dec2;
use crate::text::dec4;
use crate::time::Date;
use crate::time::Timestamp;
use crate::time::date_valid;
use crate::time::timestamp_valid;

verus! {

/// Whether positions `i` and `i + 1` of `s` hold ASCII digits.
pub open spec fn two_digits_at(s: Seq<char>, i: int) -> bool {
    spec_is_digit(s[i]) && spec_is_digit(s[i + 1])
}

/// The value of the two-digit number at position `i`.
pub open spec fn val2(s: Seq<char>, i: int) -> int {
    10 * digit_val(s[i]) + digit_val(s[i + 1])
}

/// The value of the four-digit number at position `i`.
pub open spec fn val4(s: Seq<char>, i: int) -> int {
    100 * val2(s, i) + val2(s, i + 2)
}

/// Whether `s` has the shape `YYYY-MM-DD` starting at position `i`.
pub open spec fn date_shape_at(s: Seq<char>, i: int) -> bool {
    &&& two_digits_at(s, i)
    &&& two_digits_at(s, i + 2)
    &&& s[i + 4] == '-'
    &&& two_digits_at(s, i + 5)
    &&& s[i + 7] == '-'
    &&& two_digits_at(s, i + 8)
}

/// The date value of the `YYYY-MM-DD` text at position `i`.
pub open spec fn date_at(s: Seq<char>, i: int) -> Date {
    Date { year: val4(s, i) as u32, month: val2(s, i + 5) as u32, day: val2(s, i + 8) as u32 }
}

/// The date denoted by `s` as a whole, if `s` is a well-formed `YYYY-MM-DD`
/// text denoting a valid date.
pub open spec fn spec_parse_date(s: Seq<char>) -> Option<Date> {
    if s.len() == 10 && date_shape_at(s, 0) && date_valid(date_at(s, 0)) {
        Some(date_at(s, 0))
    } else {
        None
    }
}

/// Whether `s` has the shape `HH:MM:SS` starting at position `i`.
pub open spec fn time_shape_at(s: Seq<char>, i: int) -> bool {
    &&& two_digits_at(s, i)
    &&& s[i + 2] == ':'
    &&& two_digits_at(s, i + 3)
    &&& s[i + 5] == ':'
    &&& two_digits_at(s, i + 6)
}

/// The timestamp value of the date-time text at position `i`.
pub open spec fn timestamp_at(s: Seq<char>, i: int) -> Timestamp {
    Timestamp {
        year: val4(s, i) as u32,
        month: val2(s, i + 5) as u32,
        day: val2(s, i + 8) as u32,
        hour: val2(s, i + 11) as u32,
        minute: val2(s, i + 14) as u32,
        second: val2(s, i + 17) as u32,
    }
}

/// Whether `s` has the full date-time shape starting at position `i`.
pub open spec fn datetime_shape_at(s: Seq<char>, i: int) -> bool {
    &&& date_shape_at(s, i)
    &&& (s[i + 10] == ' ' || s[i + 10] == 'T')
    &&& time_shape_at(s, i + 11)
}

/// The timestamp denoted by `s` as a whole, if `s` is a well-formed
/// date-time text denoting a valid timestamp.
pub open spec fn spec_parse_datetime(s: Seq<char>) -> Option<Timestamp> {
    if s.len() == 19 && datetime_shape_at(s, 0) && timestamp_valid(timestamp_at(s, 0)) {
        Some(timestamp_at(s, 0))
    } else {
        None
    }
}

/// Reads the two-digit number at position `i`.
fn read2(v: &Vec<char>, i: usize) -> (r: Option<u32>)
    requires
        i + 2 <= v@.len(),
    ensures
        match r {
            Some(n) => two_digits_at(v@, i as int) && n == val2(v@, i as int),
            None => !two_digits_at(v@, i as int),
        },
{
    let n = v.len();
    assert(n == v@.len());
    let a = v[i];
    let b = v[i + 1];
    if '0' <= a && a <= '9' && '0' <= b && b <= '9' {
        Some(10 * (a as u32 - '0' as u32) + (b as u32 - '0' as u32))
    } else {
        None
    }
}

/// Parses a whole `YYYY-MM-DD` text into a valid date.
pub fn parse_date_chars(v: &Vec<char>) -> (r: Option<Date>)
    ensures
        r == spec_parse_date(v@),
{
    if v.len() != 10 {
        return None;
    }
    if !(v[4] == '-' && v[7] == '-') {
        return None;
    }
    let hi = match read2(v, 0) {
        Some(n) => n,
        None => {
            return None;
        },
    };
    let lo = match read2(v, 2) {
        Some(n) => n,
        None => {
            return None;
        },
    };
    let month = match read2(v, 5) {
        Some(n) => n,
        None => {
            return None;
        },
    };
    let day = match read2(v, 8) {
        Some(n) => n,
        None => {
            return None;
        },
    };
    let d = Date { year: 100 * hi + lo, month, day };
    if 1 <= d.year && 1 <= d.month && d.month <= 12 && 1 <= d.day && d.day <= 31 {
        Some(d)
    } else {
        None
    }
}

/// Parses a whole date-time text into a valid timestamp.
pub fn parse_datetime_chars(v: &Vec<char>) -> (r: Option<Timestamp>)
    ensures
        r == spec_parse_datetime(v@),
{
    if v.len() != 19 {
        return None;
    }
    if !(v[4] == '-' && v[7] == '-' && (v[10] == ' ' || v[10] == 'T') && v[13] == ':' && v[16]
        == ':') {
        return None;
    }
    let hi = match read2(v, 0) {
        Some(n) => n,
        None => {
            return None;
        },
    };
    let lo = match read2(v, 2) {
        Some(n) => n,
        None => {
            return None;
        },
    };
    let month = match read2(v, 5) {
        Some(n) => n,
        None => {
            return None;
        },
    };
    let day = match read2(v, 8) {
        Some(n) => n,
        None => {
            return None;
        },
    };
    let hour = match read2(v, 11) {
        Some(n) => n,
        None => {
            return None;
        },
    };
    let minute = match read2(v, 14) {
        Some(n) => n,
        None => {
            return None;
        },
    };
    let second = match read2(v, 17) {
        Some(n) => n,
        None => {
            return None;
        },
    };
    let t = Timestamp { year: 100 * hi + lo, month, day, hour, minute, second };
    if 1 <= t.year && 1 <= t.month && t.month <= 12 && 1 <= t.day && t.day <= 31 && t.hour <= 23
        && t.minute <= 59 && t.second <= 59 {
        Some(t)
    } else {
        None
    }
}

/// The canonical rendering of a timestamp: `YYYY-MM-DD HH:MM:SS`.
pub open spec fn timestamp_text(t: Timestamp) -> Seq<char> {
    dec4(t.year as int) + seq!['-'] + dec2(t.month as int) + seq!['-'] + dec2(t.day as int)
        + seq![' '] + dec2(t.hour as int) + seq![':'] + dec2(t.minute as int) + seq![':'] + dec2(
        t.second as int,
    )
}

/// Renders a valid timestamp in its canonical form.
pub fn render_timestamp(t: &Timestamp) -> (r: Vec<char>)
    requires
        timestamp_valid(*t),
    ensures
        r@ == timestamp_text(*t),
{
    let mut out = crate::text::render_4(t.year);
    out.push('-');
    let mm = crate::text::render_2(t.month);
    out.push(mm[0]);
    out.push(mm[1]);
    out.push('-');
    let dd = crate::text::render_2(t.day);
    out.push(dd[0]);
    out.push(dd[1]);
    out.push(' ');
    let hh = crate::text::render_2(t.hour);
    out.push(hh[0]);
    out.push(hh[1]);
    out.push(':');
    let mi = crate::text::render_2(t.minute);
    out.push(mi[0]);
    out.push(mi[1]);
    out.push(':');
    let ss = crate::text::render_2(t.second);
    out.push(ss[0]);
    out.push(ss[1]);
    proof {
        assert(out@ =~= timestamp_text(*t));
    }
    out
}

/// Round trip for valid timestamps: parsing the canonical rendering gives
/// the timestamp back.
pub proof fn lemma_timestamp_text_round_trip(t: Timestamp)
    requires
        timestamp_valid(t),
    ensures
        spec_parse_datetime(timestamp_text(t)) == Some(t),
{
    let s = timestamp_text(t);
    assert(s.len() == 19);
    lemma_dec2_vals(t.month as int);
    lemma_dec2_vals(t.day as int);
    lemma_dec2_vals(t.hour as int);
    lemma_dec2_vals(t.minute as int);
    lemma_dec2_vals(t.second as int);
    lemma_dec4_vals(t.year as int);
    assert(datetime_shape_at(s, 0));
    assert(timestamp_at(s, 0) == t);
}

/// The two characters of `dec2(n)` are digits denoting `n`.
proof fn lemma_dec2_vals(n: int)
    requires
        0 <= n <= 99,
    ensures
        spec_is_digit(dec2(n)[0]),
        spec_is_digit(dec2(n)[1]),
        10 * digit_val(dec2(n)[0]) + digit_val(dec2(n)[1]) == n,
{
}

/// The four characters of `dec4(n)` are digits denoting `n`.
proof fn lemma_dec4_vals(n: int)
    requires
        0 <= n <= 9999,
    ensures
        spec_is_digit(dec4(n)[0]),
        spec_is_digit(dec4(n)[1]),
        spec_is_digit(dec4(n)[2]),
        spec_is_digit(dec4(n)[3]),
        1000 * digit_val(dec4(n)[0]) + 100 * digit_val(dec4(n)[1]) + 10 * digit_val(dec4(n)[2])
            + digit_val(dec4(n)[3]) == n,
{
}

} // verus!
