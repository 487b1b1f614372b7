//! The structured-document value model shared by the JSON-shaped exports
//! and the array-document and line-delimited-document serializers.
//!
//! Numbers are signed 64-bit integers: none of the source exports carries
//! anything wider, and a number outside that range is a parse error. The
//! unicode escape form accepted and produced is `\u00XX` (two hex digits of
//! a code point below 256); all other characters stand for themselves.

use vstd::prelude::*;

use crate::text::dec_i64;
use crate::text::digit_char;

verus! {

/// A structured-document value.
#[derive(Debug)]
pub enum JsonValue {
    Null,
    Bool(bool),
    Int(i64),
    Str(String),
    Arr(Vec<JsonValue>),
    Obj(Vec<(String, JsonValue)>),
}

/// The mathematical model of a [`JsonValue`].
pub ghost enum JsonRep {
    Null,
    Bool(bool),
    Int(int),
    Str(Seq<char>),
    Arr(Seq<JsonRep>),
    Obj(Seq<(Seq<char>, JsonRep)>),
}

impl JsonValue {
    /// The model of this value.
    pub open spec fn rep(&self) -> JsonRep
        decreases self,
    {
        match self {
            JsonValue::Null => JsonRep::Null,
            JsonValue::Bool(b) => JsonRep::Bool(*b),
            JsonValue::Int(n) => JsonRep::Int(*n as int),
            JsonValue::Str(s) => JsonRep::Str(s@),
            JsonValue::Arr(items) => JsonRep::Arr(
                Seq::new(
                    items@.len(),
                    |i: int|
                        if 0 <= i < items@.len() {
                            items@[i].rep()
                        } else {
                            JsonRep::Null
                        },
                ),
            ),
            JsonValue::Obj(fields) => JsonRep::Obj(
                Seq::new(
                    fields@.len(),
                    |i: int|
                        if 0 <= i < fields@.len() {
                            (fields@[i].0@, fields@[i].1.rep())
                        } else {
                            (Seq::empty(), JsonRep::Null)
                        },
                ),
            ),
        }
    }
}

/// The models of an object's fields, in order.
pub open spec fn fields_rep(fields: Seq<(String, JsonValue)>) -> Seq<(Seq<char>, JsonRep)> {
    Seq::new(
        fields.len(),
        |i: int|
            if 0 <= i < fields.len() {
                (fields[i].0@, fields[i].1.rep())
            } else {
                (Seq::empty(), JsonRep::Null)
            },
    )
}

/// Whether an integer fits the signed 64-bit value space of the model.
pub open spec fn int_in_range(n: int) -> bool {
    i64::MIN <= n <= i64::MAX
}

/// Well-formedness of a model value: every number is a 64-bit integer.
pub open spec fn rep_valid(v: JsonRep) -> bool
    decreases v,
{
    match v {
        JsonRep::Null => true,
        JsonRep::Bool(_) => true,
        JsonRep::Int(n) => int_in_range(n),
        JsonRep::Str(_) => true,
        JsonRep::Arr(items) => forall|i: int|
            0 <= i < items.len() ==> rep_valid(#[trigger] items[i]),
        JsonRep::Obj(fields) => forall|i: int|
            0 <= i < fields.len() ==> rep_valid((#[trigger] fields[i]).1),
    }
}

/// The hexadecimal digit character for a value below sixteen.
pub open spec fn hex_digit(n: int) -> char
    recommends
        0 <= n <= 15,
{
    if n < 10 {
        digit_char(n)
    } else {
        (('a' as u8) + (n - 10) as u8) as char
    }
}

/// The escaped rendering of one string character.
pub open spec fn esc_char(c: char) -> Seq<char> {
    if c == '"' {
        seq!['\\', '"']
    } else if c == '\\' {
        seq!['\\', '\\']
    } else if c == '\n' {
        seq!['\\', 'n']
    } else if c == '\r' {
        seq!['\\', 'r']
    } else if c == '\t' {
        seq!['\\', 't']
    } else if (c as u32) < 32 {
        seq!['\\', 'u', '0', '0', hex_digit(c as int / 16), hex_digit(c as int % 16)]
    } else {
        seq![c]
    }
}

/// The escaped rendering of a string's characters, without the quotes.
pub open spec fn escape(s: Seq<char>) -> Seq<char>
    decreases s.len(),
{
    if s.len() == 0 {
        Seq::empty()
    } else {
        escape(s.drop_last()) + esc_char(s.last())
    }
}

/// A quoted, escaped string literal.
pub open spec fn quote_text(s: Seq<char>) -> Seq<char> {
    seq!['"'] + escape(s) + seq!['"']
}

/// Comma-joined concatenation of rendered parts.
pub open spec fn join_comma(parts: Seq<Seq<char>>) -> Seq<char>
    decreases parts.len(),
{
    if parts.len() == 0 {
        Seq::empty()
    } else if parts.len() == 1 {
        parts[0]
    } else {
        join_comma(parts.drop_last()) + seq![','] + parts.last()
    }
}

pub proof fn lemma_join_comma_push(parts: Seq<Seq<char>>, p: Seq<char>)
    ensures
        parts.len() > 0 ==> join_comma(parts.push(p)) == join_comma(parts) + seq![','] + p,
        parts.len() == 0 ==> join_comma(parts.push(p)) == p,
{
    let q = parts.push(p);
    assert(q.drop_last() =~= parts);
    assert(q.last() == p);
}

/// The canonical compact rendering of a model value: no whitespace, fields
/// and elements in their stored order.
pub open spec fn json_text(v: JsonRep) -> Seq<char>
    decreases v, 1int,
{
    match v {
        JsonRep::Null => seq!['n', 'u', 'l', 'l'],
        JsonRep::Bool(b) => if b {
            seq!['t', 'r', 'u', 'e']
        } else {
            seq!['f', 'a', 'l', 's', 'e']
        },
        JsonRep::Int(n) => dec_i64(n),
        JsonRep::Str(s) => quote_text(s),
        JsonRep::Arr(items) => seq!['['] + join_comma(arr_texts(items)) + seq![']'],
        JsonRep::Obj(fields) => seq!['{'] + join_comma(obj_texts(fields)) + seq!['}'],
    }
}

/// The rendered elements of an array, in order.
pub open spec fn arr_texts(items: Seq<JsonRep>) -> Seq<Seq<char>>
    decreases items, 0int,
{
    Seq::new(
        items.len(),
        |i: int|
            if 0 <= i < items.len() {
                json_text(items[i])
            } else {
                Seq::empty()
            },
    )
}

/// The rendered `key:value` fields of an object, in order.
pub open spec fn obj_texts(fields: Seq<(Seq<char>, JsonRep)>) -> Seq<Seq<char>>
    decreases fields, 0int,
{
    Seq::new(
        fields.len(),
        |i: int|
            if 0 <= i < fields.len() {
                quote_text(fields[i].0) + seq![':'] + json_text(fields[i].1)
            } else {
                Seq::empty()
            },
    )
}

/// Appends the escaped form of one character to `out`.
fn write_esc_char(out: &mut String, c: char)
    ensures
        final(out)@ == old(out)@ + esc_char(c),
{
    if c == '"' {
        out.append("\\\"");
        proof {
            reveal_strlit("\\\"");
            assert("\\\""@ =~= esc_char(c));
        }
    } else if c == '\\' {
        out.append("\\\\");
        proof {
            reveal_strlit("\\\\");
            assert("\\\\"@ =~= esc_char(c));
        }
    } else if c == '\n' {
        out.append("\\n");
        proof {
            reveal_strlit("\\n");
            assert("\\n"@ =~= esc_char(c));
        }
    } else if c == '\r' {
        out.append("\\r");
        proof {
            reveal_strlit("\\r");
            assert("\\r"@ =~= esc_char(c));
        }
    } else if c == '\t' {
        out.append("\\t");
        proof {
            reveal_strlit("\\t");
            assert("\\t"@ =~= esc_char(c));
        }
    } else if (c as u32) < 32 {
        out.append("\\u00");
        let n = c as u32;
        let hi: u32 = n / 16;
        let lo: u32 = n % 16;
        let hc: char = if hi < 10 {
            (('0' as u8) + hi as u8) as char
        } else {
            (('a' as u8) + (hi - 10) as u8) as char
        };
        let lc: char = if lo < 10 {
            (('0' as u8) + lo as u8) as char
        } else {
            (('a' as u8) + (lo - 10) as u8) as char
        };
        crate::text::push_char(out, hc);
        crate::text::push_char(out, lc);
        proof {
            reveal_strlit("\\u00");
            assert(old(out)@ + "\\u00"@ + seq![hc] + seq![lc] =~= old(out)@ + esc_char(c));
        }
    } else {
        crate::text::push_char(out, c);
        proof {
            assert(old(out)@.push(c) =~= old(out)@ + esc_char(c));
        }
    }
}

/// Appends the quoted, escaped form of `s` to `out`.
pub fn write_quoted(out: &mut String, s: &str)
    ensures
        final(out)@ == old(out)@ + quote_text(s@),
{
    crate::text::push_char(out, '"');
    let chars = crate::text::str_to_chars(s);
    let mut i: usize = 0;
    while i < chars.len()
        invariant
            i <= chars.len(),
            out@ == old(out)@ + seq!['"'] + escape(chars@.subrange(0, i as int)),
        decreases chars.len() - i,
    {
        let ghost prefix = chars@.subrange(0, i as int);
        write_esc_char(out, chars[i]);
        proof {
            let longer = chars@.subrange(0, i + 1 as int);
            assert(longer.drop_last() =~= prefix);
            assert(longer.last() == chars@[i as int]);
        }
        i = i + 1;
    }
    crate::text::push_char(out, '"');
    proof {
        assert(chars@.subrange(0, chars@.len() as int) =~= s@);
        assert(old(out)@ + seq!['"'] + escape(s@) + seq!['"'] =~= old(out)@ + quote_text(s@));
    }
}

/// Appends the decimal form of `n` to `out`.
pub fn write_int(out: &mut String, n: i64)
    ensures
        final(out)@ == old(out)@ + dec_i64(n as int),
{
    let digits = crate::text::render_i64(n);
    crate::text::append_chars(out, &digits);
}

/// Appends the canonical compact rendering of `v` to `out`.
#[verifier::rlimit(60)]
pub fn write_json_value(v: &JsonValue, out: &mut String)
    ensures
        final(out)@ == old(out)@ + json_text(v.rep()),
    decreases v,
{
    match v {
        JsonValue::Null => {
            out.append("null");
            proof {
                reveal_strlit("null");
                assert("null"@ =~= json_text(v.rep()));
            }
        },
        JsonValue::Bool(b) => {
            if *b {
                out.append("true");
                proof {
                    reveal_strlit("true");
                    assert("true"@ =~= json_text(v.rep()));
                }
            } else {
                out.append("false");
                proof {
                    reveal_strlit("false");
                    assert("false"@ =~= json_text(v.rep()));
                }
            }
        },
        JsonValue::Int(n) => {
            write_int(out, *n);
        },
        JsonValue::Str(s) => {
            write_quoted(out, s.as_str());
        },
        JsonValue::Arr(items) => {
            let ghost texts = Seq::new(items@.len(), |j: int| json_text(items@[j].rep()));
            crate::text::push_char(out, '[');
            let mut i: usize = 0;
            while i < items.len()
                invariant
                    i <= items.len(),
                    out@ == old(out)@ + seq!['['] + join_comma(texts.subrange(0, i as int)),
                decreases items.len() - i,
            {
                if i > 0 {
                    crate::text::push_char(out, ',');
                }
                proof {
                    assert(decreases_to!(*v => items));
                    assert(decreases_to!(items => items@));
                    assert(decreases_to!(items@ => items@[i as int]));
                }
                write_json_value(&items[i], out);
                proof {
                    let prefix = texts.subrange(0, i as int);
                    let longer = texts.subrange(0, i + 1 as int);
                    assert(longer.drop_last() =~= prefix);
                    assert(longer.last() == json_text(items@[i as int].rep()));
                    if i > 0 {
                        assert(longer.len() >= 2);
                        assert(join_comma(longer) == join_comma(prefix) + seq![','] + longer.last());
                    } else {
                        assert(join_comma(longer) == longer.last());
                    }
                }
                i = i + 1;
            }
            crate::text::push_char(out, ']');
            proof {
                assert(texts.subrange(0, texts.len() as int) =~= texts);
                let reps = v.rep()->Arr_0;
                assert(arr_texts(reps) =~= texts);
                assert(old(out)@ + seq!['['] + join_comma(texts) + seq![']'] =~= old(out)@
                    + json_text(v.rep()));
            }
        },
        JsonValue::Obj(fields) => {
            let ghost texts = Seq::new(
                fields@.len(),
                |j: int| quote_text(fields@[j].0@) + seq![':'] + json_text(fields@[j].1.rep()),
            );
            crate::text::push_char(out, '{');
            let mut i: usize = 0;
            while i < fields.len()
                invariant
                    i <= fields.len(),
                    out@ == old(out)@ + seq!['{'] + join_comma(texts.subrange(0, i as int)),
                decreases fields.len() - i,
            {
                if i > 0 {
                    crate::text::push_char(out, ',');
                }
                write_quoted(out, fields[i].0.as_str());
                crate::text::push_char(out, ':');
                proof {
                    assert(decreases_to!(*v => fields));
                    assert(decreases_to!(fields => fields@));
                    assert(decreases_to!(fields@ => fields@[i as int]));
                    assert(decreases_to!(fields@[i as int] => fields@[i as int].1));
                }
                write_json_value(&fields[i].1, out);
                proof {
                    let prefix = texts.subrange(0, i as int);
                    let longer = texts.subrange(0, i + 1 as int);
                    assert(longer.drop_last() =~= prefix);
                    if i > 0 {
                        assert(join_comma(longer) == join_comma(prefix) + seq![','] + longer.last());
                    } else {
                        assert(join_comma(longer) == longer.last());
                    }
                }
                i = i + 1;
            }
            crate::text::push_char(out, '}');
            proof {
                assert(texts.subrange(0, texts.len() as int) =~= texts);
                let freps = v.rep()->Obj_0;
                assert(obj_texts(freps) =~= texts);
                assert(old(out)@ + seq!['{'] + join_comma(texts) + seq!['}'] =~= old(out)@
                    + json_text(v.rep()));
            }
        },
    }
}

/// The value of the first field of `fields` named `k`, if any.
pub open spec fn spec_obj_get(fields: Seq<(Seq<char>, JsonRep)>, k: Seq<char>) -> Option<JsonRep>
    decreases fields.len(),
{
    if fields.len() == 0 {
        None
    } else if fields[0].0 == k {
        Some(fields[0].1)
    } else {
        spec_obj_get(fields.drop_first(), k)
    }
}

/// Looks up the first field named `k` in an object's field list.
pub fn obj_get<'a>(fields: &'a Vec<(String, JsonValue)>, k: &str) -> (r: Option<&'a JsonValue>)
    ensures
        match r {
            Some(x) => spec_obj_get(fields_rep(fields@), k@) == Some(x.rep()),
            None => spec_obj_get(fields_rep(fields@), k@) is None,
        },
{
    let ghost frep = fields_rep(fields@);
    let key = String::from_str(k);
    let mut i: usize = 0;
    proof {
        assert(frep.skip(0) =~= frep);
    }
    while i < fields.len()
        invariant
            i <= fields.len(),
            spec_obj_get(frep, k@) == spec_obj_get(frep.skip(i as int), k@),
        decreases fields.len() - i,
    {
        proof {
            assert(frep.skip(i as int)[0] == frep[i as int]);
        }
        if fields[i].0 == key {
            assert(frep.skip(i as int)[0].0 == k@);
            return Some(&fields[i].1);
        }
        proof {
            assert(frep.skip(i as int).drop_first() =~= frep.skip(i + 1 as int));
        }
        i = i + 1;
    }
    proof {
        assert(frep.skip(fields@.len() as int).len() == 0);
    }
    None
}

} // verus!
