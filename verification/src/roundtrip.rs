//! Round trip between the document serializers and the document parser.
//!
//! The array-document and line-delimited-document serializers emit one
//! field map per record, whose values are strings, integers and nulls.
//! This module proves that re-parsing such output as generic structured
//! data reproduces the original field maps exactly.

use vstd::prelude::*;

use crate::json::JsonRep;
use crate::json::esc_char;
use crate::json::escape;
use crate::json::hex_digit;
use crate::json::join_comma;
use crate::json::json_text;
use crate::json::obj_texts;
use crate::json::quote_text;
use crate::json_parse::digit_run_end;
use crate::json_parse::digits_val;
use crate::json_parse::esc_at;
use crate::json_parse::hex_val;
use crate::json_parse::parse_members;
use crate::json_parse::parse_number;
use crate::json_parse::parse_string;
use crate::json_parse::parse_value;
use crate::json_parse::skip_ws;
use crate::text::dec_digits;
use crate::text::dec_i64;
use crate::text::digit_char;
use crate::text::digit_val;
use crate::text::spec_is_digit;

verus! {

/// A scalar model value as a record's field map holds it, readable back by
/// the parser: the one excluded number is the value whose magnitude
/// exceeds the grammar's cap.
pub open spec fn scalar(v: JsonRep) -> bool {
    match v {
        JsonRep::Null => true,
        JsonRep::Bool(_) => true,
        JsonRep::Int(n) => -(i64::MAX as int) <= n <= i64::MAX as int,
        JsonRep::Str(_) => true,
        _ => false,
    }
}

/// A field map whose values are all readable scalars.
pub open spec fn flat_obj(fields: Seq<(Seq<char>, JsonRep)>) -> bool {
    forall|k: int| 0 <= k < fields.len() ==> scalar((#[trigger] fields[k]).1)
}

/// The text `t` stands in `s` at position `i`.
pub open spec fn text_at(s: Seq<char>, i: int, t: Seq<char>) -> bool {
    &&& 0 <= i
    &&& i + t.len() <= s.len()
    &&& forall|k: int| 0 <= k < t.len() ==> s[i + k] == #[trigger] t[k]
}

/// One character of a text standing somewhere.
proof fn lemma_text_at_char(s: Seq<char>, j: int, t: Seq<char>, k: int)
    requires
        text_at(s, j, t),
        0 <= k < t.len(),
    ensures
        s[j + k] == t[k],
{
}

/// A text standing somewhere splits into its two halves standing there.
proof fn lemma_text_at_split(s: Seq<char>, i: int, a: Seq<char>, b: Seq<char>)
    requires
        text_at(s, i, a + b),
    ensures
        text_at(s, i, a),
        text_at(s, i + a.len(), b),
{
    assert forall|k: int| 0 <= k < a.len() implies s[i + k] == #[trigger] a[k] by {
        assert((a + b)[k] == a[k]);
        assert(s[i + k] == (a + b)[k]);
    }
    assert forall|k: int| 0 <= k < b.len() implies s[i + a.len() + k] == #[trigger] b[k] by {
        assert((a + b)[a.len() + k] == b[k]);
        assert(s[i + (a.len() + k)] == (a + b)[a.len() + k]);
    }
}

/// The escaped text decomposes from the front as well.
proof fn lemma_escape_front(s: Seq<char>)
    requires
        s.len() > 0,
    ensures
        escape(s) == esc_char(s[0]) + escape(s.drop_first()),
    decreases s.len(),
{
    if s.len() == 1 {
        assert(s.drop_last().len() == 0);
        assert(escape(s.drop_last()) == Seq::<char>::empty());
        assert(s.drop_first().len() == 0);
        assert(escape(s.drop_first()) == Seq::<char>::empty());
        assert(s.last() == s[0]);
        assert(escape(s) =~= esc_char(s[0]) + escape(s.drop_first()));
    } else {
        lemma_escape_front(s.drop_last());
        assert(s.drop_last()[0] == s[0]);
        assert(s.drop_last().drop_first() =~= s.drop_first().drop_last());
        assert(s.drop_first().last() == s.last());
        assert(esc_char(s[0]) + escape(s.drop_first().drop_last()) + esc_char(s.last()) =~= esc_char(
            s[0],
        ) + (escape(s.drop_first().drop_last()) + esc_char(s.last())));
        assert(escape(s) =~= esc_char(s[0]) + escape(s.drop_first()));
    }
}

/// The hexadecimal digit characters read back as their values.
proof fn lemma_hex_inverts(n: int)
    requires
        0 <= n <= 15,
    ensures
        hex_val(hex_digit(n)) == Some(n),
{
}

/// An escaped character's text reads back as the character.
proof fn lemma_esc_char_inverts(s: Seq<char>, i: int, c: char)
    requires
        text_at(s, i, esc_char(c)),
        esc_char(c).len() >= 2,
    ensures
        esc_at(s, i + 1) == Some((c, i + esc_char(c).len())),
{
    let t = esc_char(c);
    lemma_text_at_char(s, i, t, 0);
    lemma_text_at_char(s, i, t, 1);
    if c == '"' || c == '\\' || c == '\n' || c == '\r' || c == '\t' {
    } else {
        let n = c as u32;
        lemma_text_at_char(s, i, t, 2);
        lemma_text_at_char(s, i, t, 3);
        lemma_text_at_char(s, i, t, 4);
        lemma_text_at_char(s, i, t, 5);
        assert(s[i + 1] == 'u' && s[i + 2] == '0' && s[i + 3] == '0');
        assert(s[i + 4] == hex_digit(n as int / 16));
        assert(s[i + 5] == hex_digit(n as int % 16));
        lemma_hex_inverts(n as int / 16);
        lemma_hex_inverts(n as int % 16);
        assert(16 * (n as int / 16) + n as int % 16 == n as int);
        assert(((16 * (n as int / 16) + n as int % 16) as u8) as char == c);
    }
}

/// Reading a string literal body written by the serializer gives the
/// original characters back.
proof fn lemma_parse_string_inverts(s: Seq<char>, i: int, body: Seq<char>)
    requires
        text_at(s, i, escape(body) + seq!['"']),
    ensures
        parse_string(s, i) == Some((body, i + escape(body).len() + 1)),
    decreases body.len(),
{
    lemma_text_at_split(s, i, escape(body), seq!['"']);
    if body.len() == 0 {
        assert(escape(body) == Seq::<char>::empty());
        lemma_text_at_char(s, i + escape(body).len(), seq!['"'], 0);
        assert(s[i] == '"');
    } else {
        lemma_escape_front(body);
        let c = body[0];
        let e = esc_char(c);
        assert(escape(body) + seq!['"'] =~= e + (escape(body.drop_first()) + seq!['"']));
        lemma_text_at_split(s, i, e, escape(body.drop_first()) + seq!['"']);
        let i2 = i + e.len();
        lemma_parse_string_inverts(s, i2, body.drop_first());
        assert(seq![c] + body.drop_first() =~= body);
        lemma_text_at_char(s, i, e, 0);
        if c == '"' || c == '\\' || c == '\n' || c == '\r' || c == '\t' || (c as u32) < 32 {
            assert(e[0] == '\\');
            assert(s[i] == '\\');
            lemma_esc_char_inverts(s, i, c);
        } else {
            assert(e =~= seq![c]);
            assert(s[i] == c);
        }
    }
}

/// The decimal digits of a non-negative number: all digits, no redundant
/// leading zero.
proof fn lemma_dec_digits_shape(n: int)
    requires
        n >= 0,
    ensures
        dec_digits(n).len() >= 1,
        forall|k: int| 0 <= k < dec_digits(n).len() ==> spec_is_digit(#[trigger] dec_digits(n)[k]),
        n >= 1 ==> dec_digits(n)[0] != '0',
        n <= 9 ==> dec_digits(n) == seq![digit_char(n)],
    decreases n,
{
    if n > 9 {
        lemma_dec_digits_shape(n / 10);
        assert(dec_digits(n) == dec_digits(n / 10).push(digit_char(n % 10)));
        assert(dec_digits(n)[0] == dec_digits(n / 10)[0]);
        assert forall|k: int| 0 <= k < dec_digits(n).len() implies spec_is_digit(
            #[trigger] dec_digits(n)[k],
        ) by {
            if k < dec_digits(n / 10).len() {
                assert(dec_digits(n)[k] == dec_digits(n / 10)[k]);
            }
        }
    }
}

/// A digit run bounded on both sides ends exactly at the bound.
proof fn lemma_digit_run_exact(s: Seq<char>, i: int, e: int)
    requires
        0 <= i <= e <= s.len(),
        forall|k: int| i <= k < e ==> spec_is_digit(#[trigger] s[k]),
        e == s.len() || !spec_is_digit(s[e]),
    ensures
        digit_run_end(s, i) == e,
    decreases e - i,
{
    if i < e {
        lemma_digit_run_exact(s, i + 1, e);
    }
}

/// The value of a digit run written by the decimal renderer is the number.
proof fn lemma_digits_val_inverts(s: Seq<char>, i: int, n: int)
    requires
        n >= 0,
        text_at(s, i, dec_digits(n)),
    ensures
        digits_val(s, i, i + dec_digits(n).len()) == n,
    decreases n,
{
    if n <= 9 {
        lemma_text_at_char(s, i, dec_digits(n), 0);
        assert(dec_digits(n)[0] == digit_char(n));
        assert(digits_val(s, i, i) == 0);
        assert(digit_val(digit_char(n)) == n);
    } else {
        let hd = dec_digits(n / 10);
        assert(dec_digits(n) =~= hd + seq![digit_char(n % 10)]);
        lemma_text_at_split(s, i, hd, seq![digit_char(n % 10)]);
        lemma_digits_val_inverts(s, i, n / 10);
        lemma_text_at_char(s, i + hd.len(), seq![digit_char(n % 10)], 0);
        assert(s[i + hd.len()] == digit_char(n % 10));
        assert(digit_val(digit_char(n % 10)) == n % 10);
        assert(digits_val(s, i, i + dec_digits(n).len()) == digits_val(s, i, i + hd.len()) * 10
            + digit_val(s[i + hd.len()]));
    }
}

/// Reading a number written by the decimal renderer gives the number back,
/// provided the character that follows it is not a digit.
proof fn lemma_parse_number_inverts(s: Seq<char>, i: int, n: int)
    requires
        // The grammar caps a number's magnitude at `i64::MAX`, so the one
        // value whose magnitude exceeds it does not read back.
        -(i64::MAX as int) <= n <= i64::MAX as int,
        text_at(s, i, dec_i64(n)),
        i + dec_i64(n).len() == s.len() || !spec_is_digit(s[i + dec_i64(n).len()]),
    ensures
        parse_number(s, i) == Some((JsonRep::Int(n), i + dec_i64(n).len())),
{
    let mag = if n >= 0 {
        n
    } else {
        -n
    };
    lemma_dec_digits_shape(mag);
    let a = if n >= 0 {
        i
    } else {
        i + 1
    };
    if n >= 0 {
        assert(dec_i64(n) == dec_digits(mag));
    } else {
        assert(dec_i64(n) == seq!['-'] + dec_digits(mag));
        lemma_text_at_split(s, i, seq!['-'], dec_digits(mag));
        lemma_text_at_char(s, i, seq!['-'], 0);
        assert(s[i] == '-');
    }
    assert(text_at(s, a, dec_digits(mag)));
    assert forall|k: int| a <= k < a + dec_digits(mag).len() implies spec_is_digit(
        #[trigger] s[k],
    ) by {
        lemma_text_at_char(s, a, dec_digits(mag), k - a);
        assert(s[k] == dec_digits(mag)[k - a]);
    }
    lemma_digit_run_exact(s, a, a + dec_digits(mag).len());
    lemma_digits_val_inverts(s, a, mag);
    lemma_text_at_char(s, a, dec_digits(mag), 0);
    assert(s[a] == dec_digits(mag)[0]);
    if n >= 0 {
        assert(spec_is_digit(s[i]));
        assert(s[i] != '-');
    }
    if mag >= 1 {
        assert(s[a] != '0');
    } else {
        assert(dec_digits(mag).len() == 1);
    }
}

/// The comma-joined text decomposes from the front as well.
proof fn lemma_join_front(parts: Seq<Seq<char>>)
    requires
        parts.len() > 0,
    ensures
        parts.len() == 1 ==> join_comma(parts) == parts[0],
        parts.len() > 1 ==> join_comma(parts) == parts[0] + seq![','] + join_comma(
            parts.drop_first(),
        ),
    decreases parts.len(),
{
    if parts.len() > 1 {
        lemma_join_front(parts.drop_last());
        assert(parts.drop_last()[0] == parts[0]);
        assert(parts.drop_first().last() == parts.last());
        if parts.len() == 2 {
            assert(parts.drop_first().len() == 1);
            assert(join_comma(parts.drop_first()) == parts.drop_first()[0]);
            assert(join_comma(parts) =~= parts[0] + seq![','] + join_comma(parts.drop_first()));
        } else {
            assert(parts.drop_last().drop_first() =~= parts.drop_first().drop_last());
            assert(join_comma(parts) == join_comma(parts.drop_last()) + seq![','] + parts.last());
            assert(join_comma(parts.drop_first()) == join_comma(parts.drop_first().drop_last())
                + seq![','] + parts.drop_first().last());
            assert(join_comma(parts) =~= parts[0] + seq![','] + join_comma(parts.drop_first()));
        }
    }
}

/// `skip_ws` does not move off a non-whitespace character.
proof fn lemma_skip_ws_stays(s: Seq<char>, i: int)
    requires
        0 <= i,
        i < s.len() ==> !crate::json_parse::is_ws(s[i]),
    ensures
        skip_ws(s, i) == i,
{
}

/// The first character of a scalar's text, for branch dispatch.
proof fn lemma_scalar_first_char(v: JsonRep)
    requires
        scalar(v),
    ensures
        json_text(v).len() > 0,
        !crate::json_parse::is_ws(json_text(v)[0]),
        json_text(v)[0] != '{' && json_text(v)[0] != '[' && json_text(v)[0] != '}' && json_text(
            v,
        )[0] != ']' && json_text(v)[0] != ',' && json_text(v)[0] != ':',
        v is Str ==> json_text(v)[0] == '"',
        v is Int ==> (json_text(v)[0] == '-' || spec_is_digit(json_text(v)[0])),
        v is Null ==> json_text(v)[0] == 'n',
        v is Bool ==> (json_text(v)[0] == 't' || json_text(v)[0] == 'f'),
{
    match v {
        JsonRep::Int(n) => {
            let mag = if n >= 0 {
                n
            } else {
                -n
            };
            lemma_dec_digits_shape(mag);
            if n >= 0 {
                assert(json_text(v)[0] == dec_digits(mag)[0]);
            } else {
                assert(json_text(v)[0] == '-');
            }
        },
        JsonRep::Str(body) => {
            assert(json_text(v) == quote_text(body));
            assert(quote_text(body)[0] == '"');
        },
        _ => {},
    }
}

/// Reading a scalar's text gives the scalar back, provided a number's text
/// is not followed by another digit.
proof fn lemma_parse_scalar(s: Seq<char>, i: int, v: JsonRep)
    requires
        scalar(v),
        text_at(s, i, json_text(v)),
        v is Int ==> (i + json_text(v).len() == s.len() || !spec_is_digit(
            s[i + json_text(v).len()],
        )),
    ensures
        parse_value(s, i) == Some((v, i + json_text(v).len())),
{
    let t = json_text(v);
    lemma_scalar_first_char(v);
    lemma_text_at_char(s, i, t, 0);
    lemma_skip_ws_stays(s, i);
    match v {
        JsonRep::Null => {
            lemma_text_at_char(s, i, t, 1);
            lemma_text_at_char(s, i, t, 2);
            lemma_text_at_char(s, i, t, 3);
            assert(s[i + 1] == 'u' && s[i + 2] == 'l' && s[i + 3] == 'l');
        },
        JsonRep::Bool(b) => {
            lemma_text_at_char(s, i, t, 1);
            lemma_text_at_char(s, i, t, 2);
            lemma_text_at_char(s, i, t, 3);
            if !b {
                lemma_text_at_char(s, i, t, 4);
            }
        },
        JsonRep::Int(n) => {
            lemma_parse_number_inverts(s, i, n);
            assert(s[i] != '"' && s[i] != 'n' && s[i] != 't' && s[i] != 'f');
        },
        JsonRep::Str(body) => {
            assert(t =~= seq!['"'] + (escape(body) + seq!['"']));
            lemma_text_at_split(s, i, seq!['"'], escape(body) + seq!['"']);
            lemma_parse_string_inverts(s, i + 1, body);
        },
        _ => {},
    }
}

/// The members text of a field map: the joined `key:value` parts, then the
/// closing brace.
pub open spec fn members_text(fields: Seq<(Seq<char>, JsonRep)>) -> Seq<char> {
    join_comma(obj_texts(fields)) + seq!['}']
}

/// Reading the members text of a non-empty field map with readable scalar
/// values gives the field list back.
proof fn lemma_parse_members_inverts(s: Seq<char>, i: int, fields: Seq<(Seq<char>, JsonRep)>)
    requires
        fields.len() > 0,
        flat_obj(fields),
        text_at(s, i, members_text(fields)),
    ensures
        parse_members(s, i) == Some((fields, i + members_text(fields).len())),
    decreases fields.len(),
{
    let key = fields[0].0;
    let v = fields[0].1;
    let part0 = quote_text(key) + seq![':'] + json_text(v);
    assert(obj_texts(fields)[0] == part0);
    lemma_join_front(obj_texts(fields));
    let sep: Seq<char> = if fields.len() == 1 {
        seq!['}']
    } else {
        seq![',']
    };
    let rest_text: Seq<char> = if fields.len() == 1 {
        Seq::empty()
    } else {
        assert(obj_texts(fields).drop_first() =~= obj_texts(fields.drop_first()));
        members_text(fields.drop_first())
    };
    assert(members_text(fields) =~= part0 + sep + rest_text);
    assert(members_text(fields) =~= seq!['"'] + ((escape(key) + seq!['"']) + (seq![':'] + (
    json_text(v) + (sep + rest_text)))));
    lemma_text_at_split(s, i, seq!['"'], (escape(key) + seq!['"']) + (seq![':'] + (json_text(v) + (
    sep + rest_text))));
    lemma_text_at_char(s, i, seq!['"'], 0);
    lemma_skip_ws_stays(s, i);
    lemma_text_at_split(
        s,
        i + 1,
        escape(key) + seq!['"'],
        seq![':'] + (json_text(v) + (sep + rest_text)),
    );
    lemma_parse_string_inverts(s, i + 1, key);
    let j = i + 1 + escape(key).len() + 1;
    lemma_text_at_split(s, j, seq![':'], json_text(v) + (sep + rest_text));
    lemma_text_at_char(s, j, seq![':'], 0);
    lemma_skip_ws_stays(s, j);
    lemma_text_at_split(s, j + 1, json_text(v), sep + rest_text);
    let k = j + 1 + json_text(v).len();
    lemma_text_at_split(s, k, sep, rest_text);
    lemma_text_at_char(s, k, sep, 0);
    assert(scalar(v));
    lemma_parse_scalar(s, j + 1, v);
    lemma_skip_ws_stays(s, k);
    if fields.len() == 1 {
        assert(s[k] == '}');
        assert(seq![(key, v)] =~= fields);
    } else {
        assert(s[k] == ',');
        assert(flat_obj(fields.drop_first()));
        lemma_parse_members_inverts(s, k + 1, fields.drop_first());
        assert(seq![(key, v)] + fields.drop_first() =~= fields);
    }
}

/// Reading the text of a field map with readable scalar values gives the
/// map back.
proof fn lemma_parse_flat_obj(s: Seq<char>, i: int, fields: Seq<(Seq<char>, JsonRep)>)
    requires
        flat_obj(fields),
        text_at(s, i, json_text(JsonRep::Obj(fields))),
    ensures
        parse_value(s, i) == Some(
            (JsonRep::Obj(fields), i + json_text(JsonRep::Obj(fields)).len()),
        ),
{
    let t = json_text(JsonRep::Obj(fields));
    if fields.len() == 0 {
        assert(join_comma(obj_texts(fields)).len() == 0);
        assert(t =~= seq!['{', '}']);
        lemma_text_at_char(s, i, t, 0);
        lemma_text_at_char(s, i, t, 1);
        lemma_skip_ws_stays(s, i);
        lemma_skip_ws_stays(s, i + 1);
        assert(s[i] == '{' && s[i + 1] == '}');
        assert(JsonRep::Obj(fields) == JsonRep::Obj(Seq::<(Seq<char>, JsonRep)>::empty())) by {
            assert(fields =~= Seq::<(Seq<char>, JsonRep)>::empty());
        }
    } else {
        assert(t =~= seq!['{'] + members_text(fields));
        lemma_text_at_split(s, i, seq!['{'], members_text(fields));
        lemma_text_at_char(s, i, seq!['{'], 0);
        lemma_skip_ws_stays(s, i);
        let key = fields[0].0;
        let v = fields[0].1;
        let part0 = quote_text(key) + seq![':'] + json_text(v);
        assert(obj_texts(fields)[0] == part0);
        lemma_join_front(obj_texts(fields));
        assert(members_text(fields)[0] == '"') by {
            if fields.len() == 1 {
                assert(members_text(fields) =~= part0 + seq!['}']);
            }
            assert(part0[0] == quote_text(key)[0]);
        }
        lemma_text_at_char(s, i + 1, members_text(fields), 0);
        lemma_skip_ws_stays(s, i + 1);
        assert(s[i + 1] == '"');
        lemma_parse_members_inverts(s, i + 1, fields);
    }
}

/// A list of field maps with readable scalar values: the shape of a
/// serialized record sequence.
pub open spec fn flat_items(items: Seq<JsonRep>) -> bool {
    forall|k: int|
        0 <= k < items.len() ==> (#[trigger] items[k]) is Obj && flat_obj(items[k]->Obj_0)
}

/// The elements text of an array: the joined parts, then the closing
/// bracket.
pub open spec fn elems_text(items: Seq<JsonRep>) -> Seq<char> {
    join_comma(crate::json::arr_texts(items)) + seq![']']
}

/// Reading the elements text of a non-empty list of field maps gives the
/// list back.
proof fn lemma_parse_arr_elems(s: Seq<char>, i: int, items: Seq<JsonRep>)
    requires
        items.len() > 0,
        flat_items(items),
        text_at(s, i, elems_text(items)),
    ensures
        crate::json_parse::parse_elems(s, i) == Some((items, i + elems_text(items).len())),
    decreases items.len(),
{
    let v = items[0];
    let part0 = json_text(v);
    assert(crate::json::arr_texts(items)[0] == part0);
    lemma_join_front(crate::json::arr_texts(items));
    let sep: Seq<char> = if items.len() == 1 {
        seq![']']
    } else {
        seq![',']
    };
    let rest_text: Seq<char> = if items.len() == 1 {
        Seq::empty()
    } else {
        assert(crate::json::arr_texts(items).drop_first() =~= crate::json::arr_texts(
            items.drop_first(),
        ));
        elems_text(items.drop_first())
    };
    assert(elems_text(items) =~= part0 + (sep + rest_text));
    lemma_text_at_split(s, i, part0, sep + rest_text);
    let j = i + part0.len();
    lemma_text_at_split(s, j, sep, rest_text);
    lemma_text_at_char(s, j, sep, 0);
    assert(v is Obj && flat_obj(v->Obj_0));
    lemma_parse_flat_obj(s, i, v->Obj_0);
    assert(parse_value(s, i) == Some((v, j)));
    lemma_skip_ws_stays(s, j);
    if items.len() == 1 {
        assert(s[j] == ']');
        assert(seq![v] =~= items);
    } else {
        assert(s[j] == ',');
        assert(flat_items(items.drop_first()));
        lemma_parse_arr_elems(s, j + 1, items.drop_first());
        assert(seq![v] + items.drop_first() =~= items);
    }
}

/// Reading the text of a list of field maps gives the list back.
proof fn lemma_parse_flat_array(s: Seq<char>, i: int, items: Seq<JsonRep>)
    requires
        flat_items(items),
        text_at(s, i, json_text(JsonRep::Arr(items))),
    ensures
        parse_value(s, i) == Some(
            (JsonRep::Arr(items), i + json_text(JsonRep::Arr(items)).len()),
        ),
{
    let t = json_text(JsonRep::Arr(items));
    if items.len() == 0 {
        assert(join_comma(crate::json::arr_texts(items)).len() == 0);
        assert(t =~= seq!['[', ']']);
        lemma_text_at_char(s, i, t, 0);
        lemma_text_at_char(s, i, t, 1);
        lemma_skip_ws_stays(s, i);
        lemma_skip_ws_stays(s, i + 1);
        assert(s[i] == '[' && s[i + 1] == ']');
        assert(JsonRep::Arr(items) == JsonRep::Arr(Seq::<JsonRep>::empty())) by {
            assert(items =~= Seq::<JsonRep>::empty());
        }
    } else {
        assert(t =~= seq!['['] + elems_text(items));
        lemma_text_at_split(s, i, seq!['['], elems_text(items));
        lemma_text_at_char(s, i, seq!['['], 0);
        lemma_skip_ws_stays(s, i);
        let v = items[0];
        assert(crate::json::arr_texts(items)[0] == json_text(v));
        lemma_join_front(crate::json::arr_texts(items));
        assert(elems_text(items)[0] == '{') by {
            if items.len() == 1 {
                assert(elems_text(items) =~= json_text(v) + seq![']']);
            }
            assert(json_text(v).len() >= 1 && json_text(v)[0] == '{');
        }
        lemma_text_at_char(s, i + 1, elems_text(items), 0);
        lemma_skip_ws_stays(s, i + 1);
        assert(s[i + 1] == '{');
        lemma_parse_arr_elems(s, i + 1, items);
    }
}

/// Reading a whole document whose single value reads back gives the value.
proof fn lemma_whole_document(s: Seq<char>, v: JsonRep)
    requires
        parse_value(s, 0) == Some((v, s.len() as int)),
    ensures
        crate::json_parse::spec_parse_json(s) == Some(v),
{
    lemma_skip_ws_stays(s, s.len() as int);
}

/// Whether a record's identifiers read back: the grammar caps a number's
/// magnitude, which excludes exactly one identifier value.
pub open spec fn ids_readable(m: crate::record::MsgView) -> bool {
    &&& (m.id matches Some(n) ==> n != i64::MIN)
    &&& (m.reply_to matches Some(n) ==> n != i64::MIN)
}

/// A record's field map holds readable scalars only.
proof fn lemma_record_obj_flat(m: crate::record::MsgView, cfg: crate::record::OutputConfig)
    requires
        ids_readable(m),
    ensures
        crate::render::record_obj(m, cfg) is Obj,
        flat_obj(crate::render::record_obj(m, cfg)->Obj_0),
{
    let fields = crate::render::record_obj(m, cfg)->Obj_0;
    assert forall|k: int| 0 <= k < fields.len() implies scalar((#[trigger] fields[k]).1) by {
        assert(fields[0].1 == JsonRep::Str(m.sender));
        assert(fields[1].1 == JsonRep::Str(m.content));
    }
}

/// Serializer round trip for the array-document format: re-parsing the
/// rendered document as generic structured data yields exactly the
/// records' field maps, in order.
pub proof fn lemma_render_json_round_trip(
    msgs: Seq<crate::record::MsgView>,
    cfg: crate::record::OutputConfig,
)
    requires
        forall|k: int| 0 <= k < msgs.len() ==> ids_readable(#[trigger] msgs[k]),
    ensures
        crate::json_parse::spec_parse_json(crate::render::spec_render_json(msgs, cfg)) == Some(
            JsonRep::Arr(
                Seq::new(msgs.len(), |i: int| crate::render::record_obj(msgs[i], cfg)),
            ),
        ),
{
    let items = Seq::new(msgs.len(), |i: int| crate::render::record_obj(msgs[i], cfg));
    assert forall|k: int|
        0 <= k < items.len() implies (#[trigger] items[k]) is Obj && flat_obj(
        items[k]->Obj_0,
    ) by {
        lemma_record_obj_flat(msgs[k], cfg);
    }
    let s = json_text(JsonRep::Arr(items));
    assert(text_at(s, 0, s)) by {
        assert(forall|k: int| 0 <= k < s.len() ==> s[0 + k] == #[trigger] s[k]);
    }
    lemma_parse_flat_array(s, 0, items);
    lemma_whole_document(s, JsonRep::Arr(items));
}

/// Serializer round trip for the line-delimited-document format: each
/// rendered line re-parses to exactly its record's field map.
pub proof fn lemma_render_jsonl_line_round_trip(
    m: crate::record::MsgView,
    cfg: crate::record::OutputConfig,
)
    requires
        ids_readable(m),
    ensures
        crate::json_parse::spec_parse_json(json_text(crate::render::record_obj(m, cfg))) == Some(
            crate::render::record_obj(m, cfg),
        ),
{
    lemma_record_obj_flat(m, cfg);
    let v = crate::render::record_obj(m, cfg);
    let s = json_text(v);
    assert(text_at(s, 0, s)) by {
        assert(forall|k: int| 0 <= k < s.len() ==> s[0 + k] == #[trigger] s[k]);
    }
    lemma_parse_flat_obj(s, 0, v->Obj_0);
    lemma_whole_document(s, v);
}

/// Looking a key up in a concatenation tries the left part first.
proof fn lemma_obj_get_concat(
    a: Seq<(Seq<char>, JsonRep)>,
    b: Seq<(Seq<char>, JsonRep)>,
    key: Seq<char>,
)
    ensures
        crate::json::spec_obj_get(a + b, key) == (match crate::json::spec_obj_get(a, key) {
            Some(v) => Some(v),
            None => crate::json::spec_obj_get(b, key),
        }),
    decreases a.len(),
{
    if a.len() == 0 {
        assert(a + b =~= b);
    } else {
        assert((a + b)[0] == a[0]);
        assert((a + b).len() > 0);
        assert((a + b).drop_first() =~= a.drop_first() + b);
        lemma_obj_get_concat(a.drop_first(), b, key);
    }
}

/// Looking a key up in an empty or singleton field list.
proof fn lemma_obj_get_small(p: Seq<(Seq<char>, JsonRep)>, key: Seq<char>)
    requires
        p.len() <= 1,
    ensures
        p.len() == 0 ==> crate::json::spec_obj_get(p, key) is None,
        p.len() == 1 && p[0].0 == key ==> crate::json::spec_obj_get(p, key) == Some(p[0].1),
        p.len() == 1 && p[0].0 != key ==> crate::json::spec_obj_get(p, key) is None,
{
    if p.len() == 1 {
        assert(p.drop_first().len() == 0);
        assert(crate::json::spec_obj_get(p.drop_first(), key) is None);
    }
}

/// Re-extracting the active fields of a record's field map reproduces the
/// record's values exactly: `sender` and `content` always, and each
/// toggled-on optional field, with an absent optional value appearing as an
/// explicit null.
pub proof fn lemma_record_fields_extract(
    m: crate::record::MsgView,
    cfg: crate::record::OutputConfig,
)
    ensures
        crate::json::spec_obj_get(crate::render::record_obj(m, cfg)->Obj_0, "sender"@) == Some(
            JsonRep::Str(m.sender),
        ),
        crate::json::spec_obj_get(crate::render::record_obj(m, cfg)->Obj_0, "content"@) == Some(
            JsonRep::Str(m.content),
        ),
        cfg.timestamps ==> crate::json::spec_obj_get(
            crate::render::record_obj(m, cfg)->Obj_0,
            "timestamp"@,
        ) == Some(JsonRep::Str(crate::datetime::timestamp_text(m.timestamp))),
        cfg.ids ==> crate::json::spec_obj_get(crate::render::record_obj(m, cfg)->Obj_0, "id"@)
            == Some(
            match m.id {
                Some(n) => JsonRep::Int(n as int),
                None => JsonRep::Null,
            },
        ),
        cfg.replies ==> crate::json::spec_obj_get(
            crate::render::record_obj(m, cfg)->Obj_0,
            "reply_to"@,
        ) == Some(
            match m.reply_to {
                Some(n) => JsonRep::Int(n as int),
                None => JsonRep::Null,
            },
        ),
        cfg.edited ==> crate::json::spec_obj_get(
            crate::render::record_obj(m, cfg)->Obj_0,
            "edited_at"@,
        ) == Some(
            match m.edited_at {
                Some(t) => JsonRep::Str(crate::datetime::timestamp_text(t)),
                None => JsonRep::Null,
            },
        ),
{
    reveal_strlit("sender");
    reveal_strlit("content");
    reveal_strlit("timestamp");
    reveal_strlit("id");
    reveal_strlit("reply_to");
    reveal_strlit("edited_at");
    let fs = crate::render::record_obj(m, cfg)->Obj_0;
    let base = seq![
        ("sender"@, JsonRep::Str(m.sender)),
        ("content"@, JsonRep::Str(m.content)),
    ];
    let p_ts: Seq<(Seq<char>, JsonRep)> = if cfg.timestamps {
        seq![("timestamp"@, JsonRep::Str(crate::datetime::timestamp_text(m.timestamp)))]
    } else {
        Seq::empty()
    };
    let p_id: Seq<(Seq<char>, JsonRep)> = if cfg.ids {
        seq![
            (
                "id"@,
                match m.id {
                    Some(n) => JsonRep::Int(n as int),
                    None => JsonRep::Null,
                },
            ),
        ]
    } else {
        Seq::empty()
    };
    let p_reply: Seq<(Seq<char>, JsonRep)> = if cfg.replies {
        seq![
            (
                "reply_to"@,
                match m.reply_to {
                    Some(n) => JsonRep::Int(n as int),
                    None => JsonRep::Null,
                },
            ),
        ]
    } else {
        Seq::empty()
    };
    let p_edit: Seq<(Seq<char>, JsonRep)> = if cfg.edited {
        seq![
            (
                "edited_at"@,
                match m.edited_at {
                    Some(t) => JsonRep::Str(crate::datetime::timestamp_text(t)),
                    None => JsonRep::Null,
                },
            ),
        ]
    } else {
        Seq::empty()
    };
    assert(fs == base + p_ts + p_id + p_reply + p_edit);
    assert("sender"@.len() == 6);
    assert("content"@.len() == 7);
    assert("timestamp"@.len() == 9);
    assert("id"@.len() == 2);
    assert("reply_to"@.len() == 8);
    assert("edited_at"@.len() == 9);
    assert("sender"@ != "content"@ && "sender"@ != "timestamp"@ && "sender"@ != "id"@ && "sender"@
        != "reply_to"@ && "sender"@ != "edited_at"@);
    assert("content"@ != "timestamp"@ && "content"@ != "id"@ && "content"@ != "reply_to"@
        && "content"@ != "edited_at"@);
    assert("timestamp"@ != "id"@ && "timestamp"@ != "reply_to"@);
    assert("timestamp"@ != "edited_at"@) by {
        assert("timestamp"@[0] == 't' && "edited_at"@[0] == 'e');
    }
    assert("id"@ != "reply_to"@ && "id"@ != "edited_at"@);
    assert("reply_to"@ != "edited_at"@);
    lemma_extract_key(base, p_ts, p_id, p_reply, p_edit, "sender"@);
    lemma_extract_key(base, p_ts, p_id, p_reply, p_edit, "content"@);
    lemma_extract_key(base, p_ts, p_id, p_reply, p_edit, "timestamp"@);
    lemma_extract_key(base, p_ts, p_id, p_reply, p_edit, "id"@);
    lemma_extract_key(base, p_ts, p_id, p_reply, p_edit, "reply_to"@);
    lemma_extract_key(base, p_ts, p_id, p_reply, p_edit, "edited_at"@);
    assert(crate::json::spec_obj_get(base, "sender"@) == Some(JsonRep::Str(m.sender)));
    assert(base.drop_first()[0] == ("content"@, JsonRep::Str(m.content)));
    assert(crate::json::spec_obj_get(base.drop_first(), "content"@) == Some(
        JsonRep::Str(m.content),
    ));
    assert(crate::json::spec_obj_get(base, "content"@) == Some(JsonRep::Str(m.content)));
    if cfg.timestamps {
        lemma_base_misses(base, "timestamp"@);
        lemma_obj_get_small(p_ts, "timestamp"@);
    }
    if cfg.ids {
        lemma_base_misses(base, "id"@);
        lemma_obj_get_small(p_ts, "id"@);
        lemma_obj_get_small(p_id, "id"@);
    }
    if cfg.replies {
        lemma_base_misses(base, "reply_to"@);
        lemma_obj_get_small(p_ts, "reply_to"@);
        lemma_obj_get_small(p_id, "reply_to"@);
        lemma_obj_get_small(p_reply, "reply_to"@);
    }
    if cfg.edited {
        lemma_base_misses(base, "edited_at"@);
        lemma_obj_get_small(p_ts, "edited_at"@);
        lemma_obj_get_small(p_id, "edited_at"@);
        lemma_obj_get_small(p_reply, "edited_at"@);
        lemma_obj_get_small(p_edit, "edited_at"@);
    }
}

/// A key other than the two required names misses the required prefix.
proof fn lemma_base_misses(base: Seq<(Seq<char>, JsonRep)>, key: Seq<char>)
    requires
        base.len() == 2,
        base[0].0 != key,
        base[1].0 != key,
    ensures
        crate::json::spec_obj_get(base, key) is None,
{
    assert(base.drop_first()[0] == base[1]);
    assert(base.drop_first().len() == 1);
    assert(base.drop_first().drop_first().len() == 0);
    assert(crate::json::spec_obj_get(base.drop_first().drop_first(), key) is None);
    assert(crate::json::spec_obj_get(base.drop_first(), key) is None);
}

/// Unfolds one key's lookup across the five concatenated segments of a
/// record's field map.
proof fn lemma_extract_key(
    base: Seq<(Seq<char>, JsonRep)>,
    p_ts: Seq<(Seq<char>, JsonRep)>,
    p_id: Seq<(Seq<char>, JsonRep)>,
    p_reply: Seq<(Seq<char>, JsonRep)>,
    p_edit: Seq<(Seq<char>, JsonRep)>,
    key: Seq<char>,
)
    ensures
        crate::json::spec_obj_get(base + p_ts + p_id + p_reply + p_edit, key) == (
        match crate::json::spec_obj_get(base, key) {
            Some(v) => Some(v),
            None => match crate::json::spec_obj_get(p_ts, key) {
                Some(v) => Some(v),
                None => match crate::json::spec_obj_get(p_id, key) {
                    Some(v) => Some(v),
                    None => match crate::json::spec_obj_get(p_reply, key) {
                        Some(v) => Some(v),
                        None => crate::json::spec_obj_get(p_edit, key),
                    },
                },
            },
        }),
{
    lemma_obj_get_concat(base + p_ts + p_id + p_reply, p_edit, key);
    lemma_obj_get_concat(base + p_ts + p_id, p_reply, key);
    lemma_obj_get_concat(base + p_ts, p_id, key);
    lemma_obj_get_concat(base, p_ts, key);
}

} // verus!
