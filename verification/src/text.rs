//! Character-level helpers shared by the date, recurrence and task grammars:
//! conversions between `&str`, `String` and `Vec<char>`, and the decimal
//! digit grammar (rendering a number as digits and reading digits back).

use vstd::prelude::*;

verus! {

/// Appends one character to a `String`.
///
/// Relies on `String::push`: appends the given `char` to the end of the string.
pub assume_specification[ String::push ](s: &mut String, ch: char)
    ensures
        final(s)@ == old(s)@.push(ch),
;

/// True of the ten ASCII decimal digit characters.
pub open spec fn is_digit(c: char) -> bool {
    48 <= c as int <= 57
}

/// Numeric value of an ASCII digit character.
pub open spec fn digit_val(c: char) -> int {
    c as int - 48
}

/// The ASCII digit character for a value in `0..=9`.
pub open spec fn digit_char(n: int) -> char {
    ((48 + n) as u8) as char
}

/// True when every character of `s` is an ASCII decimal digit.
pub open spec fn all_digits(s: Seq<char>) -> bool {
    forall|i: int| 0 <= i < s.len() ==> is_digit(s[i])
}

/// Value of a digit sequence read as a decimal number.
pub open spec fn digits_val(s: Seq<char>) -> int
    decreases s.len(),
{
    if s.len() == 0 {
        0
    } else {
        digits_val(s.drop_last()) * 10 + digit_val(s.last())
    }
}

/// The shortest decimal digit sequence denoting `n` (a single `'0'` for zero).
pub open spec fn dec_digits(n: int) -> Seq<char>
    decreases n,
{
    if n < 10 {
        seq![digit_char(if n < 0 { 0 } else { n })]
    } else {
        dec_digits(n / 10).push(digit_char(n % 10))
    }
}

pub proof fn lemma_digit_char_val(n: int)
    requires
        0 <= n <= 9,
    ensures
        is_digit(digit_char(n)),
        digit_val(digit_char(n)) == n,
{
    assert(((48 + n) as u8) == 48 + n);
    assert((((48 + n) as u8) as char) as int == 48 + n);
}

/// Rendering a non-negative number as decimal digits and reading the digits
/// back yields the number again.
pub proof fn lemma_dec_digits_val(n: int)
    requires
        n >= 0,
    ensures
        digits_val(dec_digits(n)) == n,
        all_digits(dec_digits(n)),
        dec_digits(n).len() >= 1,
    decreases n,
{
    if n < 10 {
        lemma_digit_char_val(n);
        let s = dec_digits(n);
        assert(s =~= seq![digit_char(n)]);
        assert(s.drop_last() =~= Seq::<char>::empty());
        assert(digits_val(Seq::<char>::empty()) == 0);
        assert(digits_val(s.drop_last()) == 0);
        assert(s.len() == 1);
        assert(digits_val(s) == digits_val(s.drop_last()) * 10 + digit_val(s.last()));
        assert(s.last() == digit_char(n));
    } else {
        lemma_dec_digits_val(n / 10);
        lemma_digit_char_val(n % 10);
        assert(dec_digits(n).drop_last() =~= dec_digits(n / 10));
        assert(dec_digits(n).last() == digit_char(n % 10));
        assert(digits_val(dec_digits(n)) == digits_val(dec_digits(n / 10)) * 10 + digit_val(
            digit_char(n % 10),
        ));
        assert(n / 10 * 10 + n % 10 == n);
        assert forall|i: int| 0 <= i < dec_digits(n).len() implies is_digit(
            dec_digits(n)[i],
        ) by {
            if i < dec_digits(n / 10).len() {
                assert(dec_digits(n)[i] == dec_digits(n / 10)[i]);
            }
        }
    }
}

pub proof fn lemma_digits_val_nonneg(s: Seq<char>)
    requires
        all_digits(s),
    ensures
        digits_val(s) >= 0,
    decreases s.len(),
{
    if s.len() > 0 {
        assert(all_digits(s.drop_last()));
        lemma_digits_val_nonneg(s.drop_last());
    }
}

/// Reading a prefix of a digit sequence never yields more than the whole.
pub proof fn lemma_digits_val_prefix(s: Seq<char>, i: int)
    requires
        all_digits(s),
        0 <= i <= s.len(),
    ensures
        digits_val(s.take(i)) <= digits_val(s),
    decreases s.len() - i,
{
    if i == s.len() {
        assert(s.take(i) =~= s);
    } else {
        lemma_digits_val_prefix(s, i + 1);
        assert(s.take(i + 1).drop_last() =~= s.take(i));
        assert(all_digits(s.take(i)));
        lemma_digits_val_nonneg(s.take(i));
        assert(digits_val(s.take(i + 1)) == digits_val(s.take(i)) * 10 + digit_val(
            s.take(i + 1).last(),
        ));
    }
}

/// The numeric value of `c` if it is an ASCII decimal digit.
pub fn digit_of_char(c: char) -> (r: Option<u8>)
    ensures
        match r {
            Some(n) => is_digit(c) && digit_val(c) == n as int && n < 10,
            None => !is_digit(c),
        },
{
    match c {
        '0' => Some(0),
        '1' => Some(1),
        '2' => Some(2),
        '3' => Some(3),
        '4' => Some(4),
        '5' => Some(5),
        '6' => Some(6),
        '7' => Some(7),
        '8' => Some(8),
        '9' => Some(9),
        _ => None,
    }
}

/// True when the character at position `i` of `v` is `c`.
pub fn char_is(v: &Vec<char>, i: usize, c: char) -> (r: bool)
    requires
        i < v.len(),
    ensures
        r == (v@[i as int] == c),
{
    v[i] == c
}

/// Collects the characters of a string slice into a vector.
pub fn chars_of(s: &str) -> (v: Vec<char>)
    ensures
        v@ == s@,
{
    let n = s.unicode_len();
    let mut v: Vec<char> = Vec::new();
    let mut i: usize = 0;
    while i < n
        invariant
            i <= n,
            n == s@.len(),
            v@ == s@.take(i as int),
        decreases n - i,
    {
        let c = s.get_char(i);
        v.push(c);
        proof {
            assert(v@ =~= s@.take(i + 1));
        }
        i += 1;
    }
    proof {
        assert(s@.take(n as int) =~= s@);
    }
    v
}

/// Collects a vector of characters into a `String`.
pub fn string_of(v: &Vec<char>) -> (s: String)
    ensures
        s@ == v@,
{
    let mut s = String::new();
    let mut i: usize = 0;
    while i < v.len()
        invariant
            i <= v.len(),
            s@ == v@.take(i as int),
        decreases v.len() - i,
    {
        s.push(v[i]);
        proof {
            assert(s@ =~= v@.take(i + 1));
        }
        i += 1;
    }
    proof {
        assert(v@.take(v.len() as int) =~= v@);
    }
    s
}

/// Copies the characters of `v` in positions `a..b` into a fresh vector.
pub fn sub_chars(v: &Vec<char>, a: usize, b: usize) -> (r: Vec<char>)
    requires
        a <= b <= v.len(),
    ensures
        r@ == v@.subrange(a as int, b as int),
{
    let mut r: Vec<char> = Vec::new();
    let mut i: usize = a;
    while i < b
        invariant
            a <= i <= b <= v.len(),
            r@ == v@.subrange(a as int, i as int),
        decreases b - i,
    {
        r.push(v[i]);
        proof {
            assert(r@ =~= v@.subrange(a as int, i + 1));
        }
        i += 1;
    }
    r
}

/// Appends the characters of `v` to `out`.
pub fn append_chars(out: &mut Vec<char>, v: &Vec<char>)
    ensures
        final(out)@ == old(out)@ + v@,
{
    let mut i: usize = 0;
    while i < v.len()
        invariant
            i <= v.len(),
            out@ == old(out)@ + v@.take(i as int),
        decreases v.len() - i,
    {
        out.push(v[i]);
        proof {
            assert(out@ =~= old(out)@ + v@.take(i + 1));
        }
        i += 1;
    }
    proof {
        assert(old(out)@ + v@.take(v.len() as int) =~= old(out)@ + v@);
    }
}

/// The exec counterpart of [`digit_char`].
pub fn digit_char_exec(n: u8) -> (c: char)
    requires
        n < 10,
    ensures
        c == digit_char(n as int),
{
    (48 + n) as char
}

/// Appends the decimal digits of `n` to `out`.
pub fn append_u16(out: &mut Vec<char>, n: u16)
    ensures
        final(out)@ == old(out)@ + dec_digits(n as int),
    decreases n,
{
    if n < 10 {
        out.push(digit_char_exec(n as u8));
        proof {
            assert(out@ =~= old(out)@ + dec_digits(n as int));
        }
    } else {
        append_u16(out, n / 10);
        out.push(digit_char_exec((n % 10) as u8));
        proof {
            assert(out@ =~= old(out)@ + dec_digits(n as int));
        }
    }
}

/// Reads the characters of `v` in positions `a..b` as an unsigned decimal
/// number, failing on an empty range, a non-digit character or a value that
/// does not fit in a `u16`.
pub fn parse_u16(v: &Vec<char>, a: usize, b: usize) -> (r: Option<u16>)
    requires
        a <= b <= v.len(),
    ensures
        ({
            let s = v@.subrange(a as int, b as int);
            match r {
                Some(n) => a < b && all_digits(s) && digits_val(s) == n as int,
                None => !(a < b && all_digits(s) && digits_val(s) <= u16::MAX),
            }
        }),
{
    if a == b {
        return None;
    }
    let ghost s = v@.subrange(a as int, b as int);
    let mut val: u32 = 0;
    let mut i: usize = a;
    while i < b
        invariant
            a <= i <= b <= v.len(),
            s == v@.subrange(a as int, b as int),
            all_digits(v@.subrange(a as int, i as int)),
            val as int == digits_val(v@.subrange(a as int, i as int)),
            val <= 65535,
        decreases b - i,
    {
        let c = v[i];
        let d = match digit_of_char(c) {
            Some(d) => d,
            None => {
                proof {
                    assert(s[i - a] == v@[i as int]);
                    assert(!is_digit(s[i - a]));
                }
                return None;
            },
        };
        proof {
            assert(v@.subrange(a as int, i + 1).drop_last() =~= v@.subrange(
                a as int,
                i as int,
            ));
            assert(v@.subrange(a as int, i + 1).last() == v@[i as int]);
            assert(is_digit(v@[i as int]));
        }
        val = val * 10 + (d as u32);
        proof {
            assert(all_digits(v@.subrange(a as int, i + 1)));
        }
        if val > 65535 {
            proof {
                if all_digits(s) {
                    lemma_digits_val_prefix(s, i + 1 - a);
                    assert(s.take(i + 1 - a) =~= v@.subrange(a as int, i + 1));
                }
            }
            return None;
        }
        i += 1;
    }
    proof {
        assert(v@.subrange(a as int, i as int) =~= s);
    }
    Some(val as u16)
}

} // verus!
