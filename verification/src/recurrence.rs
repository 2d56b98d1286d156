//! The recurrence mini-grammar: a compact token such as `+1w` naming a
//! repetition interval.  The grammar is an optional leading `+` (a "hard"
//! rule: the next occurrence is computed from the due date rather than the
//! completion date), a non-empty run of decimal digits, and exactly one
//! trailing kind letter out of `d`, `b`, `m`, `w`, `y`.

use vstd::prelude::*;

use crate::text::all_digits;
use crate::text::append_u16;
use crate::text::char_is;
use crate::text::chars_of;
use crate::text::dec_digits;
use crate::text::digits_val;
use crate::text::lemma_dec_digits_val;
use crate::text::parse_u16;
use crate::text::string_of;

verus! {

/// A recurrence interval: each kind carries the "hard" flag and the period.
#[derive(Debug, PartialEq, Eq, Clone, Copy)]
pub enum Recurrence {
    Daily(bool, u16),
    BDaily(bool, u16),
    Monthly(bool, u16),
    Weekly(bool, u16),
    Yearly(bool, u16),
}

impl Recurrence {
    /// The "hard" flag: strict recurrence computed from the due date.
    pub open spec fn hard(self) -> bool {
        match self {
            Recurrence::Daily(h, _) => h,
            Recurrence::BDaily(h, _) => h,
            Recurrence::Monthly(h, _) => h,
            Recurrence::Weekly(h, _) => h,
            Recurrence::Yearly(h, _) => h,
        }
    }

    /// The period length.
    pub open spec fn num(self) -> u16 {
        match self {
            Recurrence::Daily(_, n) => n,
            Recurrence::BDaily(_, n) => n,
            Recurrence::Monthly(_, n) => n,
            Recurrence::Weekly(_, n) => n,
            Recurrence::Yearly(_, n) => n,
        }
    }

    /// The trailing letter selecting the interval kind.
    pub open spec fn kind_char(self) -> char {
        match self {
            Recurrence::Daily(_, _) => 'd',
            Recurrence::BDaily(_, _) => 'b',
            Recurrence::Monthly(_, _) => 'm',
            Recurrence::Weekly(_, _) => 'w',
            Recurrence::Yearly(_, _) => 'y',
        }
    }

    /// Parses the compact recurrence body, e.g. `+1w` or `10d`.
    pub fn from_str(s: &str) -> (r: Result<Recurrence, ()>)
        ensures
            match r {
                Ok(rec) => spec_parse_rec(s@) == Some(rec),
                Err(_) => spec_parse_rec(s@) is None,
            },
    {
        let v = chars_of(s);
        let n = v.len();
        let r = parse_rec_range(&v, 0, n);
        proof {
            assert(v@.subrange(0, n as int) =~= s@);
        }
        match r {
            Some(rec) => Ok(rec),
            None => Err(()),
        }
    }

    /// Renders the value as `rec:` followed by the compact body.
    pub fn render(&self) -> (s: String)
        ensures
            s@ == rec_chars(*self),
    {
        let mut out: Vec<char> = Vec::new();
        append_rec(&mut out, self);
        string_of(&out)
    }
}

/// The rendering of a recurrence: the literal prefix `rec:`, then `+` if the
/// rule is hard, then the period in decimal digits, then the kind letter.
pub open spec fn rec_chars(r: Recurrence) -> Seq<char> {
    seq!['r', 'e', 'c', ':'] + (if r.hard() {
        seq!['+']
    } else {
        Seq::<char>::empty()
    }) + dec_digits(r.num() as int) + seq![r.kind_char()]
}

/// Reads a compact recurrence body: an optional `+`, a non-empty digit run
/// whose value fits in a `u16`, and one trailing kind letter.
pub open spec fn spec_parse_rec(s: Seq<char>) -> Option<Recurrence> {
    if s.len() == 0 {
        None
    } else {
        let hard = s[0] == '+';
        let start: int = if hard {
            1
        } else {
            0
        };
        if s.len() <= start {
            None
        } else {
            let digits = s.subrange(start, s.len() - 1);
            if digits.len() > 0 && all_digits(digits) && digits_val(digits) <= u16::MAX {
                let n = (digits_val(digits) as u16);
                if s.last() == 'd' {
                    Some(Recurrence::Daily(hard, n))
                } else if s.last() == 'b' {
                    Some(Recurrence::BDaily(hard, n))
                } else if s.last() == 'm' {
                    Some(Recurrence::Monthly(hard, n))
                } else if s.last() == 'w' {
                    Some(Recurrence::Weekly(hard, n))
                } else if s.last() == 'y' {
                    Some(Recurrence::Yearly(hard, n))
                } else {
                    None
                }
            } else {
                None
            }
        }
    }
}

/// Parses the characters of `v` in positions `a..b` as a recurrence body.
pub fn parse_rec_range(v: &Vec<char>, a: usize, b: usize) -> (r: Option<Recurrence>)
    requires
        a <= b <= v.len(),
    ensures
        r == spec_parse_rec(v@.subrange(a as int, b as int)),
{
    let ghost s = v@.subrange(a as int, b as int);
    if a == b {
        return None;
    }
    let hard = char_is(v, a, '+');
    let start = if hard {
        a + 1
    } else {
        a
    };
    if start >= b {
        return None;
    }
    proof {
        assert(s.subrange(start - a, s.len() - 1) =~= v@.subrange(start as int, b - 1));
    }
    match parse_u16(v, start, b - 1) {
        None => None,
        Some(n) => {
            let k = v[b - 1];
            proof {
                assert(s.last() == v@[b - 1]);
            }
            if k == 'd' {
                Some(Recurrence::Daily(hard, n))
            } else if k == 'b' {
                Some(Recurrence::BDaily(hard, n))
            } else if k == 'm' {
                Some(Recurrence::Monthly(hard, n))
            } else if k == 'w' {
                Some(Recurrence::Weekly(hard, n))
            } else if k == 'y' {
                Some(Recurrence::Yearly(hard, n))
            } else {
                None
            }
        },
    }
}

/// Appends the rendering of `r` to `out`.
pub fn append_rec(out: &mut Vec<char>, r: &Recurrence)
    ensures
        final(out)@ == old(out)@ + rec_chars(*r),
{
    out.push('r');
    out.push('e');
    out.push('c');
    out.push(':');
    let (hard, num, k): (bool, u16, char) = match *r {
        Recurrence::Daily(h, n) => (h, n, 'd'),
        Recurrence::BDaily(h, n) => (h, n, 'b'),
        Recurrence::Monthly(h, n) => (h, n, 'm'),
        Recurrence::Weekly(h, n) => (h, n, 'w'),
        Recurrence::Yearly(h, n) => (h, n, 'y'),
    };
    if hard {
        out.push('+');
    }
    append_u16(out, num);
    out.push(k);
    proof {
        assert(out@ =~= old(out)@ + rec_chars(*r));
    }
}

/// The rendering of a recurrence always starts with the four characters
/// `rec:`, and parsing the body after them yields the same value back.
pub proof fn lemma_recurrence_round_trip(r: Recurrence)
    ensures
        rec_chars(r).take(4) =~= seq!['r', 'e', 'c', ':'],
        spec_parse_rec(rec_chars(r).skip(4)) == Some(r),
{
    let body = rec_chars(r).skip(4);
    let n = r.num() as int;
    lemma_dec_digits_val(n);
    let digits = dec_digits(n);
    if r.hard() {
        assert(body =~= seq!['+'] + digits + seq![r.kind_char()]);
        assert(body[0] == '+');
        assert(body.subrange(1, body.len() - 1) =~= digits);
        assert(body.last() == r.kind_char());
    } else {
        assert(body =~= digits + seq![r.kind_char()]);
        assert(body[0] == digits[0]);
        assert(crate::text::is_digit(body[0]));
        assert(body[0] != '+') by {
            assert('+' as int == 43);
        }
        assert(body.subrange(0, body.len() - 1) =~= digits);
        assert(body.last() == r.kind_char());
    }
    match r {
        Recurrence::Daily(h, num) => {
            assert(spec_parse_rec(body) == Some(r));
        },
        Recurrence::BDaily(h, num) => {
            assert(r.kind_char() != 'd');
            assert(spec_parse_rec(body) == Some(r));
        },
        Recurrence::Monthly(h, num) => {
            assert(spec_parse_rec(body) == Some(r));
        },
        Recurrence::Weekly(h, num) => {
            assert(spec_parse_rec(body) == Some(r));
        },
        Recurrence::Yearly(h, num) => {
            assert(spec_parse_rec(body) == Some(r));
        },
    }
}

} // verus!
