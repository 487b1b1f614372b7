//! Parsing structured-document text into the value model.
//!
//! The grammar is the usual one for such documents, restricted as the model
//! is: numbers are integers with magnitude at most `i64::MAX` and no
//! fraction or exponent, and the unicode escape form is `\u00XX`. A
//! document that breaks the grammar parses to `None`.

use vstd::prelude::*;

use crate::json::JsonRep;
use crate::json::JsonValue;
use crate::text::spec_is_digit;
use crate::text::digit_val;

verus! {

/// Whether `c` is insignificant whitespace.
pub open spec fn is_ws(c: char) -> bool {
    c == ' ' || c == '\t' || c == '\n' || c == '\r'
}

/// The first position at or after `i` holding a non-whitespace character.
pub open spec fn skip_ws(s: Seq<char>, i: int) -> int
    decreases s.len() - i,
{
    if 0 <= i < s.len() && is_ws(s[i]) {
        skip_ws(s, i + 1)
    } else {
        i
    }
}

pub proof fn lemma_skip_ws_bounds(s: Seq<char>, i: int)
    requires
        0 <= i <= s.len(),
    ensures
        i <= skip_ws(s, i) <= s.len(),
        skip_ws(s, i) < s.len() ==> !is_ws(s[skip_ws(s, i)]),
    decreases s.len() - i,
{
    if i < s.len() && is_ws(s[i]) {
        lemma_skip_ws_bounds(s, i + 1);
    }
}

/// The first position at or after `i` holding a non-digit character.
pub open spec fn digit_run_end(s: Seq<char>, i: int) -> int
    decreases s.len() - i,
{
    if 0 <= i < s.len() && spec_is_digit(s[i]) {
        digit_run_end(s, i + 1)
    } else {
        i
    }
}

pub proof fn lemma_digit_run_bounds(s: Seq<char>, i: int)
    requires
        0 <= i <= s.len(),
    ensures
        i <= digit_run_end(s, i) <= s.len(),
        digit_run_end(s, i) < s.len() ==> !spec_is_digit(s[digit_run_end(s, i)]),
        forall|j: int| i <= j < digit_run_end(s, i) ==> spec_is_digit(#[trigger] s[j]),
    decreases s.len() - i,
{
    if i < s.len() && spec_is_digit(s[i]) {
        lemma_digit_run_bounds(s, i + 1);
    }
}

/// The value of the digit run `s[a..b]`, most significant digit first.
pub open spec fn digits_val(s: Seq<char>, a: int, b: int) -> int
    decreases b - a,
{
    if a >= b {
        0
    } else {
        digits_val(s, a, b - 1) * 10 + digit_val(s[b - 1])
    }
}

/// The unescaped character denoted by the escape that starts at `i` (the
/// position after the backslash), with the position after it; `None` when
/// the escape is malformed.
pub open spec fn esc_at(s: Seq<char>, i: int) -> Option<(char, int)> {
    if i >= s.len() {
        None
    } else if s[i] == '"' {
        Some(('"', i + 1))
    } else if s[i] == '\\' {
        Some(('\\', i + 1))
    } else if s[i] == '/' {
        Some(('/', i + 1))
    } else if s[i] == 'n' {
        Some(('\n', i + 1))
    } else if s[i] == 'r' {
        Some(('\r', i + 1))
    } else if s[i] == 't' {
        Some(('\t', i + 1))
    } else if s[i] == 'b' {
        Some(('\u{8}', i + 1))
    } else if s[i] == 'f' {
        Some(('\u{c}', i + 1))
    } else if s[i] == 'u' {
        if i + 5 <= s.len() && s[i + 1] == '0' && s[i + 2] == '0' && hex_val(s[i + 3]) is Some
            && hex_val(s[i + 4]) is Some {
            Some(((16 * hex_val(s[i + 3])->0 + hex_val(s[i + 4])->0) as u8 as char, i + 5))
        } else {
            None
        }
    } else {
        None
    }
}

/// The value of a hexadecimal digit character.
pub open spec fn hex_val(c: char) -> Option<int> {
    if spec_is_digit(c) {
        Some(digit_val(c))
    } else if 'a' <= c && c <= 'f' {
        Some(c as int - 'a' as int + 10)
    } else if 'A' <= c && c <= 'F' {
        Some(c as int - 'A' as int + 10)
    } else {
        None
    }
}

/// Parses the body of a string literal from `i` (just after the opening
/// quote) to its closing quote: the denoted characters and the position
/// after the closing quote.
pub open spec fn parse_string(s: Seq<char>, i: int) -> Option<(Seq<char>, int)>
    decreases s.len() - i,
{
    if !(0 <= i < s.len()) {
        None
    } else if s[i] == '"' {
        Some((Seq::empty(), i + 1))
    } else if s[i] == '\\' {
        match esc_at(s, i + 1) {
            Some((c, j)) => match parse_string(s, j) {
                Some((rest, k)) => Some((seq![c] + rest, k)),
                None => None,
            },
            None => None,
        }
    } else if (s[i] as u32) < 32 {
        None
    } else {
        match parse_string(s, i + 1) {
            Some((rest, k)) => Some((seq![s[i]] + rest, k)),
            None => None,
        }
    }
}

/// Parses a number starting at `i`: an optional minus sign, then a digit
/// run without a redundant leading zero, denoting a value of magnitude at
/// most `i64::MAX`.
pub open spec fn parse_number(s: Seq<char>, i: int) -> Option<(JsonRep, int)> {
    let neg = 0 <= i < s.len() && s[i] == '-';
    let a = if neg {
        i + 1
    } else {
        i
    };
    let b = digit_run_end(s, a);
    if !(0 <= a < s.len()) || b == a {
        None
    } else if s[a] == '0' && b > a + 1 {
        None
    } else {
        let n = digits_val(s, a, b);
        if n > i64::MAX {
            None
        } else if neg {
            Some((JsonRep::Int(-n), b))
        } else {
            Some((JsonRep::Int(n), b))
        }
    }
}

/// Parses one value starting at `i`, after optional whitespace: the value
/// and the position just after its text.
pub open spec fn parse_value(s: Seq<char>, i: int) -> Option<(JsonRep, int)>
    decreases s.len() - i, 2int,
{
    let i0 = skip_ws(s, i);
    if !(i <= i0 <= s.len()) {
        // `skip_ws` never moves backwards or out of bounds; this branch is
        // dead, and makes the bound available to the termination check.
        None
    } else if i0 >= s.len() {
        None
    } else if s[i0] == 'n' {
        if s.len() - i0 >= 4 && s[i0 + 1] == 'u' && s[i0 + 2] == 'l' && s[i0 + 3] == 'l' {
            Some((JsonRep::Null, i0 + 4))
        } else {
            None
        }
    } else if s[i0] == 't' {
        if s.len() - i0 >= 4 && s[i0 + 1] == 'r' && s[i0 + 2] == 'u' && s[i0 + 3] == 'e' {
            Some((JsonRep::Bool(true), i0 + 4))
        } else {
            None
        }
    } else if s[i0] == 'f' {
        if i0 + 5 <= s.len() && s[i0 + 1] == 'a' && s[i0 + 2] == 'l' && s[i0 + 3] == 's' && s[i0
            + 4] == 'e' {
            Some((JsonRep::Bool(false), i0 + 5))
        } else {
            None
        }
    } else if s[i0] == '"' {
        match parse_string(s, i0 + 1) {
            Some((chars, j)) => Some((JsonRep::Str(chars), j)),
            None => None,
        }
    } else if s[i0] == '-' || spec_is_digit(s[i0]) {
        parse_number(s, i0)
    } else if s[i0] == '[' {
        let j = skip_ws(s, i0 + 1);
        if !(i0 < j <= s.len()) {
            None
        } else if j < s.len() && s[j] == ']' {
            Some((JsonRep::Arr(Seq::empty()), j + 1))
        } else {
            match parse_elems(s, j) {
                Some((items, k)) => Some((JsonRep::Arr(items), k)),
                None => None,
            }
        }
    } else if s[i0] == '{' {
        let j = skip_ws(s, i0 + 1);
        if !(i0 < j <= s.len()) {
            None
        } else if j < s.len() && s[j] == '}' {
            Some((JsonRep::Obj(Seq::empty()), j + 1))
        } else {
            match parse_members(s, j) {
                Some((fields, k)) => Some((JsonRep::Obj(fields), k)),
                None => None,
            }
        }
    } else {
        None
    }
}

/// Parses the elements of a non-empty array from `i` up to and including
/// the closing bracket.
pub open spec fn parse_elems(s: Seq<char>, i: int) -> Option<(Seq<JsonRep>, int)>
    decreases s.len() - i, 3int,
{
    match parse_value(s, i) {
        Some((v, j)) => {
            if !(i < j <= s.len()) {
                // A parsed value always ends past its start; dead branch for
                // the termination check.
                None
            } else {
                let j2 = skip_ws(s, j);
                if !(j <= j2 <= s.len()) {
                    None
                } else if j2 >= s.len() {
                    None
                } else if s[j2] == ',' {
                    match parse_elems(s, j2 + 1) {
                        Some((rest, k)) => Some((seq![v] + rest, k)),
                        None => None,
                    }
                } else if s[j2] == ']' {
                    Some((seq![v], j2 + 1))
                } else {
                    None
                }
            }
        },
        None => None,
    }
}

/// Parses the members of a non-empty object from `i` up to and including
/// the closing brace.
pub open spec fn parse_members(s: Seq<char>, i: int) -> Option<(Seq<(Seq<char>, JsonRep)>, int)>
    decreases s.len() - i, 3int,
{
    let i0 = skip_ws(s, i);
    if !(i <= i0 <= s.len()) {
        None
    } else if !(i0 < s.len() && s[i0] == '"') {
        None
    } else {
        match parse_string(s, i0 + 1) {
            Some((key, j)) => {
                if !(i0 < j <= s.len()) {
                    None
                } else {
                    let j2 = skip_ws(s, j);
                    if !(j <= j2 <= s.len()) {
                        None
                    } else if !(j2 < s.len() && s[j2] == ':') {
                        None
                    } else {
                        match parse_value(s, j2 + 1) {
                            Some((v, k)) => {
                                if !(j2 < k <= s.len()) {
                                    None
                                } else {
                                    let k2 = skip_ws(s, k);
                                    if !(k <= k2 <= s.len()) {
                                        None
                                    } else if k2 >= s.len() {
                                        None
                                    } else if s[k2] == ',' {
                                        match parse_members(s, k2 + 1) {
                                            Some((rest, e)) => Some((seq![(key, v)] + rest, e)),
                                            None => None,
                                        }
                                    } else if s[k2] == '}' {
                                        Some((seq![(key, v)], k2 + 1))
                                    } else {
                                        None
                                    }
                                }
                            },
                            None => None,
                        }
                    }
                }
            },
            None => None,
        }
    }
}

/// Skips whitespace from `i`.
pub fn skip_ws_chars(s: &Vec<char>, i: usize) -> (r: usize)
    requires
        i <= s@.len(),
    ensures
        r as int == skip_ws(s@, i as int),
        i <= r <= s@.len(),
{
    let mut j = i;
    while j < s.len() && (s[j] == ' ' || s[j] == '\t' || s[j] == '\n' || s[j] == '\r')
        invariant
            i <= j <= s@.len(),
            skip_ws(s@, i as int) == skip_ws(s@, j as int),
        decreases s@.len() - j,
    {
        j = j + 1;
    }
    j
}

/// The value of a hexadecimal digit character.
fn hex_val_char(c: char) -> (r: Option<u32>)
    ensures
        match r {
            Some(n) => hex_val(c) == Some(n as int) && n <= 15,
            None => hex_val(c) is None,
        },
{
    if '0' <= c && c <= '9' {
        Some(c as u32 - '0' as u32)
    } else if 'a' <= c && c <= 'f' {
        Some(c as u32 - 'a' as u32 + 10)
    } else if 'A' <= c && c <= 'F' {
        Some(c as u32 - 'A' as u32 + 10)
    } else {
        None
    }
}

/// Parses a string literal body from `i` (just after the opening quote).
fn parse_string_chars(s: &Vec<char>, i: usize) -> (r: Option<(Vec<char>, usize)>)
    requires
        i <= s@.len(),
    ensures
        match r {
            Some((cs, j)) => parse_string(s@, i as int) == Some((cs@, j as int)) && i < j
                <= s@.len(),
            None => parse_string(s@, i as int) is None,
        },
{
    let mut out: Vec<char> = Vec::new();
    let mut j = i;
    proof {
        if let Some((rest, e)) = parse_string(s@, i as int) {
            assert(Seq::<char>::empty() + rest =~= rest);
        }
    }
    loop
        invariant
            i <= j <= s@.len(),
            match parse_string(s@, j as int) {
                Some((rest, e)) => parse_string(s@, i as int) == Some((out@ + rest, e)),
                None => parse_string(s@, i as int) is None,
            },
        decreases s@.len() - j,
    {
        if j >= s.len() {
            return None;
        }
        let c = s[j];
        if c == '"' {
            proof {
                assert(out@ + Seq::<char>::empty() =~= out@);
            }
            return Some((out, j + 1));
        } else if c == '\\' {
            if s.len() - j <= 1 {
                return None;
            }
            let e = s[j + 1];
            let unescaped: char;
            let next: usize;
            if e == '"' {
                unescaped = '"';
                next = j + 2;
            } else if e == '\\' {
                unescaped = '\\';
                next = j + 2;
            } else if e == '/' {
                unescaped = '/';
                next = j + 2;
            } else if e == 'n' {
                unescaped = '\n';
                next = j + 2;
            } else if e == 'r' {
                unescaped = '\r';
                next = j + 2;
            } else if e == 't' {
                unescaped = '\t';
                next = j + 2;
            } else if e == 'b' {
                unescaped = '\u{8}';
                next = j + 2;
            } else if e == 'f' {
                unescaped = '\u{c}';
                next = j + 2;
            } else if e == 'u' {
                if !(s.len() - j >= 6 && s[j + 2] == '0' && s[j + 3] == '0') {
                    return None;
                }
                let hi = match hex_val_char(s[j + 4]) {
                    Some(n) => n,
                    None => {
                        return None;
                    },
                };
                let lo = match hex_val_char(s[j + 5]) {
                    Some(n) => n,
                    None => {
                        return None;
                    },
                };
                unescaped = ((16 * hi + lo) as u8) as char;
                next = j + 6;
            } else {
                return None;
            }
            proof {
                assert(esc_at(s@, j + 1 as int) == Some((unescaped, next as int)));
            }
            let ghost old_out = out@;
            out.push(unescaped);
            proof {
                lemma_string_step(s@, i as int, j as int, old_out, unescaped, next as int);
            }
            j = next;
        } else if (c as u32) < 32 {
            return None;
        } else {
            let ghost old_out = out@;
            out.push(c);
            proof {
                lemma_string_step(s@, i as int, j as int, old_out, c, j + 1 as int);
            }
            j = j + 1;
        }
    }
}

/// One step of the string-parsing loop: folding the parsed character into
/// the accumulated prefix preserves the continuation relation.
proof fn lemma_string_step(s: Seq<char>, i: int, j: int, old_out: Seq<char>, c: char, next: int)
    requires
        parse_string(s, j) == (match parse_string(s, next) {
            Some((rest2, e2)) => Some::<(Seq<char>, int)>((seq![c] + rest2, e2)),
            None => None::<(Seq<char>, int)>,
        }),
        match parse_string(s, j) {
            Some((rest, e)) => parse_string(s, i) == Some((old_out + rest, e)),
            None => parse_string(s, i) is None,
        },
    ensures
        match parse_string(s, next) {
            Some((rest, e)) => parse_string(s, i) == Some((old_out.push(c) + rest, e)),
            None => parse_string(s, i) is None,
        },
{
    match parse_string(s, next) {
        Some((rest2, e2)) => {
            assert(old_out + (seq![c] + rest2) =~= old_out.push(c) + rest2);
        },
        None => {},
    }
}

/// Finds the end of the digit run starting at `i`.
fn digit_run_end_chars(s: &Vec<char>, i: usize) -> (r: usize)
    requires
        i <= s@.len(),
    ensures
        r as int == digit_run_end(s@, i as int),
        i <= r <= s@.len(),
{
    let mut j = i;
    while j < s.len() && '0' <= s[j] && s[j] <= '9'
        invariant
            i <= j <= s@.len(),
            digit_run_end(s@, i as int) == digit_run_end(s@, j as int),
        decreases s@.len() - j,
    {
        j = j + 1;
    }
    j
}

/// Parses a number starting at `i`.
fn parse_number_chars(s: &Vec<char>, i: usize) -> (r: Option<(i64, usize)>)
    requires
        i <= s@.len(),
    ensures
        match r {
            Some((n, j)) => parse_number(s@, i as int) == Some((JsonRep::Int(n as int), j as int))
                && i < j <= s@.len(),
            None => parse_number(s@, i as int) is None,
        },
{
    let neg = i < s.len() && s[i] == '-';
    let a = if neg {
        i + 1
    } else {
        i
    };
    if a >= s.len() {
        return None;
    }
    let b = digit_run_end_chars(s, a);
    if b == a {
        return None;
    }
    if s[a] == '0' && b > a + 1 {
        return None;
    }
    proof {
        lemma_digit_run_bounds(s@, a as int);
    }
    let mut acc: u64 = 0;
    let mut overflow = false;
    let mut k = a;
    while k < b
        invariant
            a <= k <= b,
            !overflow ==> acc as int == digits_val(s@, a as int, k as int) && acc
                <= i64::MAX as u64,
            overflow ==> digits_val(s@, a as int, k as int) > i64::MAX,
        decreases b - k,
    {
        assert(spec_is_digit(s@[k as int]));
        let d: u64 = (s[k] as u32 - '0' as u32) as u64;
        proof {
            assert(digits_val(s@, a as int, k + 1 as int) == digits_val(s@, a as int, k as int)
                * 10 + digit_val(s@[k as int]));
        }
        if !overflow {
            let limit: u64 = (0x7fff_ffff_ffff_ffffu64 - d) / 10;
            if acc > limit {
                proof {
                    assert(acc as int * 10 + d as int > i64::MAX) by (nonlinear_arith)
                        requires
                            acc as int > (i64::MAX as int - d as int) / 10,
                            0 <= d as int <= 9,
                            acc as int >= 0,
                    ;
                }
                overflow = true;
            } else {
                proof {
                    assert(acc as int * 10 + d as int <= i64::MAX) by (nonlinear_arith)
                        requires
                            acc as int <= (i64::MAX as int - d as int) / 10,
                            0 <= d as int <= 9,
                            acc as int >= 0,
                    ;
                }
                acc = acc * 10 + d;
            }
        } else {
            proof {
                assert(digits_val(s@, a as int, k + 1 as int) > i64::MAX) by (nonlinear_arith)
                    requires
                        digits_val(s@, a as int, k + 1 as int) == digits_val(
                            s@,
                            a as int,
                            k as int,
                        ) * 10 + digit_val(s@[k as int]),
                        digits_val(s@, a as int, k as int) > i64::MAX,
                        digit_val(s@[k as int]) >= 0,
                ;
            }
        }
        k = k + 1;
    }
    if overflow {
        return None;
    }
    let n: i64 = acc as i64;
    if neg {
        Some((-n, b))
    } else {
        Some((n, b))
    }
}

/// Parses one value starting at `i`, after optional whitespace.
pub fn parse_value_chars(s: &Vec<char>, i: usize) -> (r: Option<(JsonValue, usize)>)
    requires
        i <= s@.len(),
    ensures
        match r {
            Some((v, j)) => parse_value(s@, i as int) == Some((v.rep(), j as int)) && i < j
                <= s@.len(),
            None => parse_value(s@, i as int) is None,
        },
    decreases s@.len() - i,
{
    let i0 = skip_ws_chars(s, i);
    if i0 >= s.len() {
        return None;
    }
    let c = s[i0];
    if c == 'n' {
        if s.len() - i0 >= 4 && s[i0 + 1] == 'u' && s[i0 + 2] == 'l' && s[i0 + 3] == 'l' {
            Some((JsonValue::Null, i0 + 4))
        } else {
            None
        }
    } else if c == 't' {
        if s.len() - i0 >= 4 && s[i0 + 1] == 'r' && s[i0 + 2] == 'u' && s[i0 + 3] == 'e' {
            Some((JsonValue::Bool(true), i0 + 4))
        } else {
            None
        }
    } else if c == 'f' {
        if s.len() - i0 >= 5 && s[i0 + 1] == 'a' && s[i0 + 2] == 'l' && s[i0 + 3] == 's' && s[i0
            + 4] == 'e' {
            Some((JsonValue::Bool(false), i0 + 5))
        } else {
            None
        }
    } else if c == '"' {
        match parse_string_chars(s, i0 + 1) {
            Some((cs, j)) => Some((JsonValue::Str(crate::text::chars_to_string(&cs)), j)),
            None => None,
        }
    } else if c == '-' || ('0' <= c && c <= '9') {
        match parse_number_chars(s, i0) {
            Some((n, j)) => Some((JsonValue::Int(n), j)),
            None => None,
        }
    } else if c == '[' {
        let j0 = skip_ws_chars(s, i0 + 1);
        if j0 < s.len() && s[j0] == ']' {
            let items: Vec<JsonValue> = Vec::new();
            let v = JsonValue::Arr(items);
            proof {
                assert(v.rep()->Arr_0 =~= Seq::<JsonRep>::empty());
            }
            return Some((v, j0 + 1));
        }
        let mut items: Vec<JsonValue> = Vec::new();
        let mut cur = j0;
        proof {
            if let Some((rest, e)) = parse_elems(s@, j0 as int) {
                assert(items_rep(items@) + rest =~= rest);
            }
        }
        loop
            invariant
                j0 <= cur <= s@.len(),
                match parse_elems(s@, cur as int) {
                    Some((rest, e)) => parse_elems(s@, j0 as int) == Some(
                        (items_rep(items@) + rest, e),
                    ),
                    None => parse_elems(s@, j0 as int) is None,
                },
            decreases s@.len() - cur,
        {
            let (v, j) = match parse_value_chars(s, cur) {
                Some(p) => p,
                None => {
                    return None;
                },
            };
            let j2 = skip_ws_chars(s, j);
            if j2 >= s.len() {
                return None;
            }
            let ghost old_items = items@;
            items.push(v);
            proof {
                assert(items_rep(items@) =~= items_rep(old_items).push(v.rep()));
            }
            if s[j2] == ',' {
                proof {
                    lemma_elems_step(s@, j0 as int, cur as int, items_rep(old_items), v.rep(), j2 + 1 as int);
                }
                cur = j2 + 1;
            } else if s[j2] == ']' {
                proof {
                    assert(parse_elems(s@, cur as int) == Some(
                        (seq![v.rep()], j2 + 1 as int),
                    ));
                    assert(items_rep(old_items) + seq![v.rep()] =~= items_rep(items@));
                }
                let w = JsonValue::Arr(items);
                proof {
                    assert(w.rep()->Arr_0 =~= items_rep(w->Arr_0@));
                }
                return Some((w, j2 + 1));
            } else {
                return None;
            }
        }
    } else if c == '{' {
        let j0 = skip_ws_chars(s, i0 + 1);
        if j0 < s.len() && s[j0] == '}' {
            let fields: Vec<(String, JsonValue)> = Vec::new();
            let v = JsonValue::Obj(fields);
            proof {
                assert(v.rep()->Obj_0 =~= Seq::<(Seq<char>, JsonRep)>::empty());
            }
            return Some((v, j0 + 1));
        }
        let mut fields: Vec<(String, JsonValue)> = Vec::new();
        let mut cur = j0;
        proof {
            if let Some((rest, e)) = parse_members(s@, j0 as int) {
                assert(crate::json::fields_rep(fields@) + rest =~= rest);
            }
        }
        loop
            invariant
                j0 <= cur <= s@.len(),
                match parse_members(s@, cur as int) {
                    Some((rest, e)) => parse_members(s@, j0 as int) == Some(
                        (crate::json::fields_rep(fields@) + rest, e),
                    ),
                    None => parse_members(s@, j0 as int) is None,
                },
            decreases s@.len() - cur,
        {
            let k0 = skip_ws_chars(s, cur);
            if !(k0 < s.len() && s[k0] == '"') {
                return None;
            }
            let (key, j) = match parse_string_chars(s, k0 + 1) {
                Some(p) => p,
                None => {
                    return None;
                },
            };
            let j2 = skip_ws_chars(s, j);
            if !(j2 < s.len() && s[j2] == ':') {
                return None;
            }
            let (v, k) = match parse_value_chars(s, j2 + 1) {
                Some(p) => p,
                None => {
                    return None;
                },
            };
            let k2 = skip_ws_chars(s, k);
            if k2 >= s.len() {
                return None;
            }
            let ghost old_fields = fields@;
            let key_string = crate::text::chars_to_string(&key);
            fields.push((key_string, v));
            proof {
                assert(crate::json::fields_rep(fields@) =~= crate::json::fields_rep(
                    old_fields,
                ).push((key@, v.rep())));
            }
            if s[k2] == ',' {
                proof {
                    lemma_members_step(
                        s@,
                        j0 as int,
                        cur as int,
                        crate::json::fields_rep(old_fields),
                        (key@, v.rep()),
                        k2 + 1 as int,
                    );
                }
                cur = k2 + 1;
            } else if s[k2] == '}' {
                proof {
                    assert(parse_members(s@, cur as int) == Some(
                        (seq![(key@, v.rep())], k2 + 1 as int),
                    ));
                    assert(crate::json::fields_rep(old_fields) + seq![(key@, v.rep())]
                        =~= crate::json::fields_rep(fields@));
                }
                let w = JsonValue::Obj(fields);
                proof {
                    assert(w.rep()->Obj_0 =~= crate::json::fields_rep(w->Obj_0@));
                }
                return Some((w, k2 + 1));
            } else {
                return None;
            }
        }
    } else {
        None
    }
}

/// The models of an array's elements, in order.
pub open spec fn items_rep(items: Seq<crate::json::JsonValue>) -> Seq<JsonRep> {
    Seq::new(
        items.len(),
        |i: int|
            if 0 <= i < items.len() {
                items[i].rep()
            } else {
                JsonRep::Null
            },
    )
}

/// One step of the array-elements loop.
proof fn lemma_elems_step(
    s: Seq<char>,
    j0: int,
    cur: int,
    old_items: Seq<JsonRep>,
    v: JsonRep,
    next: int,
)
    requires
        parse_elems(s, cur) == (match parse_elems(s, next) {
            Some((rest2, e2)) => Some::<(Seq<JsonRep>, int)>((seq![v] + rest2, e2)),
            None => None::<(Seq<JsonRep>, int)>,
        }),
        match parse_elems(s, cur) {
            Some((rest, e)) => parse_elems(s, j0) == Some((old_items + rest, e)),
            None => parse_elems(s, j0) is None,
        },
    ensures
        match parse_elems(s, next) {
            Some((rest, e)) => parse_elems(s, j0) == Some((old_items.push(v) + rest, e)),
            None => parse_elems(s, j0) is None,
        },
{
    match parse_elems(s, next) {
        Some((rest2, e2)) => {
            assert(old_items + (seq![v] + rest2) =~= old_items.push(v) + rest2);
        },
        None => {},
    }
}

/// One step of the object-members loop.
proof fn lemma_members_step(
    s: Seq<char>,
    j0: int,
    cur: int,
    old_fields: Seq<(Seq<char>, JsonRep)>,
    kv: (Seq<char>, JsonRep),
    next: int,
)
    requires
        parse_members(s, cur) == (match parse_members(s, next) {
            Some((rest2, e2)) => Some::<(Seq<(Seq<char>, JsonRep)>, int)>((seq![kv] + rest2, e2)),
            None => None::<(Seq<(Seq<char>, JsonRep)>, int)>,
        }),
        match parse_members(s, cur) {
            Some((rest, e)) => parse_members(s, j0) == Some((old_fields + rest, e)),
            None => parse_members(s, j0) is None,
        },
    ensures
        match parse_members(s, next) {
            Some((rest, e)) => parse_members(s, j0) == Some((old_fields.push(kv) + rest, e)),
            None => parse_members(s, j0) is None,
        },
{
    match parse_members(s, next) {
        Some((rest2, e2)) => {
            assert(old_fields + (seq![kv] + rest2) =~= old_fields.push(kv) + rest2);
        },
        None => {},
    }
}

/// Parses a whole document: one value surrounded only by whitespace.
pub fn parse_json_chars(s: &Vec<char>) -> (r: Option<JsonValue>)
    ensures
        match r {
            Some(v) => spec_parse_json(s@) == Some(v.rep()),
            None => spec_parse_json(s@) is None,
        },
{
    match parse_value_chars(s, 0) {
        Some((v, j)) => {
            let e = skip_ws_chars(s, j);
            if e == s.len() {
                Some(v)
            } else {
                None
            }
        },
        None => None,
    }
}

/// Parses a whole document: one value, surrounded only by whitespace.
pub open spec fn spec_parse_json(s: Seq<char>) -> Option<JsonRep> {
    match parse_value(s, 0) {
        Some((v, j)) => {
            if 0 <= j <= s.len() && skip_ws(s, j) == s.len() {
                Some(v)
            } else {
                None
            }
        },
        None => None,
    }
}

/// A parsed string body ends past its start and within bounds.
pub proof fn lemma_parse_string_advances(s: Seq<char>, i: int)
    requires
        0 <= i,
        parse_string(s, i) is Some,
    ensures
        i < (parse_string(s, i)->0).1 <= s.len(),
    decreases s.len() - i,
{
    if s[i] == '"' {
    } else if s[i] == '\\' {
        let (c, j) = esc_at(s, i + 1)->0;
        lemma_parse_string_advances(s, j);
    } else {
        lemma_parse_string_advances(s, i + 1);
    }
}

/// A parsed value ends past its start and within bounds.
pub proof fn lemma_parse_value_advances(s: Seq<char>, i: int)
    requires
        0 <= i <= s.len(),
        parse_value(s, i) is Some,
    ensures
        i < (parse_value(s, i)->0).1 <= s.len(),
    decreases s.len() - i, 2int,
{
    lemma_skip_ws_bounds(s, i);
    let i0 = skip_ws(s, i);
    if s[i0] == '"' {
        lemma_parse_string_advances(s, i0 + 1);
    } else if s[i0] == '-' || spec_is_digit(s[i0]) {
        let neg = s[i0] == '-';
        let a = if neg {
            i0 + 1
        } else {
            i0
        };
        if 0 <= a <= s.len() {
            lemma_digit_run_bounds(s, a);
        }
    } else if s[i0] == '[' {
        lemma_skip_ws_bounds(s, i0 + 1);
        let j = skip_ws(s, i0 + 1);
        if !(j < s.len() && s[j] == ']') {
            if parse_elems(s, j) is Some {
                lemma_parse_elems_advances(s, j);
            }
        }
    } else if s[i0] == '{' {
        lemma_skip_ws_bounds(s, i0 + 1);
        let j = skip_ws(s, i0 + 1);
        if !(j < s.len() && s[j] == '}') {
            if parse_members(s, j) is Some {
                lemma_parse_members_advances(s, j);
            }
        }
    }
}

/// A parsed element list ends past its start and within bounds.
pub proof fn lemma_parse_elems_advances(s: Seq<char>, i: int)
    requires
        0 <= i <= s.len(),
        parse_elems(s, i) is Some,
    ensures
        i < (parse_elems(s, i)->0).1 <= s.len(),
    decreases s.len() - i, 3int,
{
    lemma_parse_value_advances(s, i);
    let (v, j) = parse_value(s, i)->0;
    lemma_skip_ws_bounds(s, j);
    let j2 = skip_ws(s, j);
    if s[j2] == ',' {
        lemma_parse_elems_advances(s, j2 + 1);
    }
}

/// A parsed member list ends past its start and within bounds.
pub proof fn lemma_parse_members_advances(s: Seq<char>, i: int)
    requires
        0 <= i <= s.len(),
        parse_members(s, i) is Some,
    ensures
        i < (parse_members(s, i)->0).1 <= s.len(),
    decreases s.len() - i, 3int,
{
    lemma_skip_ws_bounds(s, i);
    let i0 = skip_ws(s, i);
    lemma_parse_string_advances(s, i0 + 1);
    let (key, j) = parse_string(s, i0 + 1)->0;
    lemma_skip_ws_bounds(s, j);
    let j2 = skip_ws(s, j);
    lemma_parse_value_advances(s, j2 + 1);
    let (v, k) = parse_value(s, j2 + 1)->0;
    lemma_skip_ws_bounds(s, k);
    let k2 = skip_ws(s, k);
    if s[k2] == ',' {
        lemma_parse_members_advances(s, k2 + 1);
    }
}

} // verus!
