//! Calendar dates in the strict `YYYY-MM-DD` form used by task lines:
//! exactly ten characters, a four-digit year, a two-digit month in 1..=12
//! and a two-digit day in 1..=31.  The day is deliberately not checked
//! against the month's length: the format extracts fields best-effort.

use vstd::prelude::*;

use crate::text::char_is;
use crate::text::chars_of;
use crate::text::digit_char;
use crate::text::digit_char_exec;
use crate::text::digit_val;
use crate::text::is_digit;
use crate::text::string_of;

verus! {

/// A calendar date as plain year, month and day fields.
#[derive(Debug, PartialEq, Eq, Clone, Copy)]
pub struct Date {
    pub year: u16,
    pub month: u8,
    pub day: u8,
}

impl Date {
    /// Field ranges of every date this library parses or renders.
    pub open spec fn valid(self) -> bool {
        self.year <= 9999 && 1 <= self.month <= 12 && 1 <= self.day <= 31
    }

    /// Builds the date with the given fields.
    pub fn from_ymd(year: u16, month: u8, day: u8) -> (d: Date)
        requires
            year <= 9999,
            1 <= month <= 12,
            1 <= day <= 31,
        ensures
            d == (Date { year, month, day }),
            d.valid(),
    {
        Date { year, month, day }
    }

    /// Renders the date as its ten-character `YYYY-MM-DD` form.
    pub fn render(&self) -> (s: String)
        ensures
            s@ == date_chars(*self),
    {
        let mut out: Vec<char> = Vec::new();
        append_date(&mut out, self);
        string_of(&out)
    }

    /// Parses a whole string as a `YYYY-MM-DD` date.
    pub fn from_str(s: &str) -> (r: Result<Date, ()>)
        ensures
            match r {
                Ok(d) => spec_parse_date(s@) == Some(d) && d.valid(),
                Err(_) => spec_parse_date(s@) is None,
            },
    {
        let v = chars_of(s);
        let n = v.len();
        match parse_date_range(&v, 0, n) {
            Some(d) => {
                proof {
                    assert(v@.subrange(0, n as int) =~= s@);
                }
                Ok(d)
            },
            None => {
                proof {
                    assert(v@.subrange(0, n as int) =~= s@);
                }
                Err(())
            },
        }
    }
}

/// The ten-character `YYYY-MM-DD` rendering of a date.
pub open spec fn date_chars(d: Date) -> Seq<char> {
    seq![
        digit_char(d.year as int / 1000 % 10),
        digit_char(d.year as int / 100 % 10),
        digit_char(d.year as int / 10 % 10),
        digit_char(d.year as int % 10),
        '-',
        digit_char(d.month as int / 10 % 10),
        digit_char(d.month as int % 10),
        '-',
        digit_char(d.day as int / 10 % 10),
        digit_char(d.day as int % 10),
    ]
}

/// Reads exactly ten characters `YYYY-MM-DD` as a date; any other shape,
/// a month outside 1..=12 or a day outside 1..=31 fails.
pub open spec fn spec_parse_date(s: Seq<char>) -> Option<Date> {
    if s.len() == 10 && is_digit(s[0]) && is_digit(s[1]) && is_digit(s[2]) && is_digit(s[3])
        && s[4] == '-' && is_digit(s[5]) && is_digit(s[6]) && s[7] == '-' && is_digit(s[8])
        && is_digit(s[9]) {
        let y = digit_val(s[0]) * 1000 + digit_val(s[1]) * 100 + digit_val(s[2]) * 10
            + digit_val(s[3]);
        let m = digit_val(s[5]) * 10 + digit_val(s[6]);
        let d = digit_val(s[8]) * 10 + digit_val(s[9]);
        if 1 <= m <= 12 && 1 <= d <= 31 {
            Some(Date { year: y as u16, month: m as u8, day: d as u8 })
        } else {
            None
        }
    } else {
        None
    }
}

/// Reads the digit at position `i`, if one stands there.
fn digit_at(v: &Vec<char>, i: usize) -> (r: Option<u8>)
    requires
        i < v.len(),
    ensures
        match r {
            Some(n) => is_digit(v@[i as int]) && n as int == digit_val(v@[i as int]) && n < 10,
            None => !is_digit(v@[i as int]),
        },
{
    crate::text::digit_of_char(v[i])
}

/// Parses the characters of `v` in positions `a..b` as a `YYYY-MM-DD` date.
pub fn parse_date_range(v: &Vec<char>, a: usize, b: usize) -> (r: Option<Date>)
    requires
        a <= b <= v.len(),
    ensures
        r == spec_parse_date(v@.subrange(a as int, b as int)),
        r matches Some(d) ==> d.valid(),
{
    let ghost s = v@.subrange(a as int, b as int);
    proof {
        assert forall|k: int| 0 <= k < b - a implies s[k] == v@[a + k] by {}
    }
    if b - a != 10 {
        return None;
    }
    if !(char_is(v, a + 4, '-') && char_is(v, a + 7, '-')) {
        return None;
    }
    let d0 = digit_at(v, a);
    let d1 = digit_at(v, a + 1);
    let d2 = digit_at(v, a + 2);
    let d3 = digit_at(v, a + 3);
    let d5 = digit_at(v, a + 5);
    let d6 = digit_at(v, a + 6);
    let d8 = digit_at(v, a + 8);
    let d9 = digit_at(v, a + 9);
    match (d0, d1, d2, d3, d5, d6, d8, d9) {
        (
            Some(d0),
            Some(d1),
            Some(d2),
            Some(d3),
            Some(d5),
            Some(d6),
            Some(d8),
            Some(d9),
        ) => {
            let year: u16 = d0 as u16 * 1000 + d1 as u16 * 100 + d2 as u16 * 10 + d3 as u16;
            let month: u8 = d5 * 10 + d6;
            let day: u8 = d8 * 10 + d9;
            if 1 <= month && month <= 12 && 1 <= day && day <= 31 {
                Some(Date { year, month, day })
            } else {
                None
            }
        },
        _ => None,
    }
}

/// Rendering a valid date and parsing the rendering yields the date again.
pub proof fn lemma_date_round_trip(d: Date)
    requires
        d.valid(),
    ensures
        spec_parse_date(date_chars(d)) == Some(d),
{
    let s = date_chars(d);
    let y = d.year as int;
    let m = d.month as int;
    let dd = d.day as int;
    crate::text::lemma_digit_char_val(y / 1000 % 10);
    crate::text::lemma_digit_char_val(y / 100 % 10);
    crate::text::lemma_digit_char_val(y / 10 % 10);
    crate::text::lemma_digit_char_val(y % 10);
    crate::text::lemma_digit_char_val(m / 10 % 10);
    crate::text::lemma_digit_char_val(m % 10);
    crate::text::lemma_digit_char_val(dd / 10 % 10);
    crate::text::lemma_digit_char_val(dd % 10);
    assert(y / 1000 % 10 * 1000 + y / 100 % 10 * 100 + y / 10 % 10 * 10 + y % 10 == y) by {
        lemma_decimal_split(y);
    }
    assert(m / 10 % 10 * 10 + m % 10 == m) by {
        lemma_two_digit_split(m);
    }
    assert(dd / 10 % 10 * 10 + dd % 10 == dd) by {
        lemma_two_digit_split(dd);
    }
}

/// A number below 100 is its tens digit times ten plus its ones digit.
proof fn lemma_two_digit_split(n: int)
    requires
        0 <= n < 100,
    ensures
        n / 10 % 10 * 10 + n % 10 == n,
{
    assert(n / 10 % 10 * 10 + n % 10 == n) by (nonlinear_arith)
        requires
            0 <= n < 100,
    ;
}

/// A number below 10000 is the weighted sum of its four decimal digits.
proof fn lemma_decimal_split(n: int)
    requires
        0 <= n < 10000,
    ensures
        n / 1000 % 10 * 1000 + n / 100 % 10 * 100 + n / 10 % 10 * 10 + n % 10 == n,
{
    assert(n / 1000 % 10 * 1000 + n / 100 % 10 * 100 + n / 10 % 10 * 10 + n % 10 == n)
        by (nonlinear_arith)
        requires
            0 <= n < 10000,
    ;
}

/// Appends the ten-character rendering of `d` to `out`.
pub fn append_date(out: &mut Vec<char>, d: &Date)
    ensures
        final(out)@ == old(out)@ + date_chars(*d),
{
    out.push(digit_char_exec(((d.year / 1000) % 10) as u8));
    out.push(digit_char_exec(((d.year / 100) % 10) as u8));
    out.push(digit_char_exec(((d.year / 10) % 10) as u8));
    out.push(digit_char_exec((d.year % 10) as u8));
    out.push('-');
    out.push(digit_char_exec((d.month / 10) % 10));
    out.push(digit_char_exec(d.month % 10));
    out.push('-');
    out.push(digit_char_exec((d.day / 10) % 10));
    out.push(digit_char_exec(d.day % 10));
    proof {
        assert(out@ =~= old(out)@ + date_chars(*d));
    }
}

} // verus!
