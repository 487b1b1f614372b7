//! Text helpers shared by the parsers and serializers.
//!
//! Parsing works on `Vec<char>` buffers; serializing builds a `String`
//! character by character. Decimal rendering of the integer fields
//! (identifiers, date components) lives here too.

use vstd::prelude::*;

verus! {

use vstd::std_specs::iter::IteratorSpec;

broadcast use vstd::string::next_postcondition;

/// Whether `c` is an ASCII decimal digit.
pub open spec fn spec_is_digit(c: char) -> bool {
    '0' <= c && c <= '9'
}

/// The numeric value of an ASCII decimal digit.
pub open spec fn digit_val(c: char) -> int {
    c as int - '0' as int
}

/// The ASCII digit character for a value below ten.
pub open spec fn digit_char(n: int) -> char
    recommends
        0 <= n <= 9,
{
    (('0' as u8) + n as u8) as char
}

pub fn is_digit(c: char) -> (r: bool)
    ensures
        r == spec_is_digit(c),
{
    '0' <= c && c <= '9'
}

/// Relies on `String::push`: appends one character to the string.
#[verifier::external_body]
pub fn push_char(s: &mut String, c: char)
    ensures
        final(s)@ == old(s)@.push(c),
{
    s.push(c);
}

/// The characters of `s`, in order, as a vector.
pub fn str_to_chars(s: &str) -> (r: Vec<char>)
    ensures
        r@ == s@,
{
    let mut out: Vec<char> = Vec::new();
    let mut it = s.chars();
    #[verifier::loop_isolation(true)]
    loop
        invariant
            out@ + it.remaining() == s@,
            it.obeys_prophetic_iter_laws(),
            it.decrease() is Some,
        ensures
            out@ + it.remaining() == s@,
            it.remaining().len() == 0,
        decreases it.decrease()->0,
    {
        match it.next() {
            Some(c) => {
                out.push(c);
            },
            None => {
                break ;
            },
        }
    }
    assert(out@ =~= s@);
    out
}

/// The characters of `v`, in order, as a `String`.
pub fn chars_to_string(v: &Vec<char>) -> (r: String)
    ensures
        r@ == v@,
{
    let mut out = String::new();
    let mut i: usize = 0;
    while i < v.len()
        invariant
            i <= v.len(),
            out@ == v@.subrange(0, i as int),
        decreases v.len() - i,
    {
        push_char(&mut out, v[i]);
        proof {
            assert(out@ =~= v@.subrange(0, i + 1 as int));
        }
        i = i + 1;
    }
    proof {
        assert(out@ =~= v@);
    }
    out
}

/// Appends the characters of `v` to the string `s`.
pub fn append_chars(s: &mut String, v: &Vec<char>)
    ensures
        final(s)@ == old(s)@ + v@,
{
    let mut i: usize = 0;
    while i < v.len()
        invariant
            i <= v.len(),
            s@ == old(s)@ + v@.subrange(0, i as int),
        decreases v.len() - i,
    {
        push_char(s, v[i]);
        proof {
            assert(old(s)@ + v@.subrange(0, i as int) + seq![v@[i as int]] =~= old(s)@
                + v@.subrange(0, i + 1 as int));
        }
        i = i + 1;
    }
    proof {
        assert(old(s)@ + v@.subrange(0, v@.len() as int) =~= old(s)@ + v@);
    }
}

/// Decimal digits of a non-negative number, most significant first.
pub open spec fn dec_digits(n: int) -> Seq<char>
    recommends
        n >= 0,
    decreases n,
{
    if n <= 9 {
        seq![digit_char(n)]
    } else {
        dec_digits(n / 10).push(digit_char(n % 10))
    }
}

/// Decimal rendering of a signed number: a minus sign, then the digits of
/// its magnitude.
pub open spec fn dec_i64(n: int) -> Seq<char> {
    if n >= 0 {
        dec_digits(n)
    } else {
        seq!['-'] + dec_digits(-n)
    }
}

/// Renders a `u64` in decimal.
pub fn render_u64(n: u64) -> (r: Vec<char>)
    ensures
        r@ == dec_digits(n as int),
    decreases n,
{
    if n <= 9 {
        let c: char = (('0' as u8) + (n as u8)) as char;
        let mut out: Vec<char> = Vec::new();
        out.push(c);
        assert(out@ =~= dec_digits(n as int));
        out
    } else {
        let mut out = render_u64(n / 10);
        let d: u8 = (n % 10) as u8;
        let c: char = (('0' as u8) + d) as char;
        out.push(c);
        assert(out@ =~= dec_digits(n as int));
        out
    }
}

/// Renders an `i64` in decimal.
pub fn render_i64(n: i64) -> (r: Vec<char>)
    ensures
        r@ == dec_i64(n as int),
{
    if n >= 0 {
        render_u64(n as u64)
    } else {
        let mag: u64 = ((-(n + 1)) as u64) + 1;
        assert(mag as int == -(n as int));
        let digits = render_u64(mag);
        let mut out: Vec<char> = Vec::new();
        out.push('-');
        let mut i: usize = 0;
        while i < digits.len()
            invariant
                i <= digits.len(),
                out@ == seq!['-'] + digits@.subrange(0, i as int),
            decreases digits.len() - i,
        {
            out.push(digits[i]);
            proof {
                assert(seq!['-'] + digits@.subrange(0, i as int) + seq![digits@[i as int]]
                    =~= seq!['-'] + digits@.subrange(0, i + 1 as int));
            }
            i = i + 1;
        }
        proof {
            assert(out@ =~= seq!['-'] + digits@);
        }
        out
    }
}

/// Two-digit zero-padded rendering, for month, day, and time fields.
pub open spec fn dec2(n: int) -> Seq<char>
    recommends
        0 <= n <= 99,
{
    seq![digit_char(n / 10), digit_char(n % 10)]
}

/// Four-digit zero-padded rendering, for years.
pub open spec fn dec4(n: int) -> Seq<char>
    recommends
        0 <= n <= 9999,
{
    seq![
        digit_char(n / 1000),
        digit_char((n / 100) % 10),
        digit_char((n / 10) % 10),
        digit_char(n % 10),
    ]
}

/// Renders a number below one hundred as two zero-padded digits.
pub fn render_2(n: u32) -> (r: Vec<char>)
    requires
        n <= 99,
    ensures
        r@ == dec2(n as int),
{
    let mut out: Vec<char> = Vec::new();
    out.push((('0' as u8) + (n / 10) as u8) as char);
    out.push((('0' as u8) + (n % 10) as u8) as char);
    assert(out@ =~= dec2(n as int));
    out
}

/// Renders a number below ten thousand as four zero-padded digits.
pub fn render_4(n: u32) -> (r: Vec<char>)
    requires
        n <= 9999,
    ensures
        r@ == dec4(n as int),
{
    let mut out: Vec<char> = Vec::new();
    out.push((('0' as u8) + (n / 1000) as u8) as char);
    out.push((('0' as u8) + ((n / 100) % 10) as u8) as char);
    out.push((('0' as u8) + ((n / 10) % 10) as u8) as char);
    out.push((('0' as u8) + (n % 10) as u8) as char);
    assert(out@ =~= dec4(n as int));
    out
}

} // verus!
