//! The three serializers: delimited-text, array-document, and
//! line-delimited-document.
//!
//! All three consume the same ordered record sequence and the same
//! [`OutputConfig`], and emit the same field set in one fixed column order:
//! `sender`, `content`, then the toggled-on optional fields `timestamp`,
//! `id`, `reply_to`, `edited_at`. A toggled-on field whose value is absent
//! renders as an empty delimited-text field or an explicit document null,
//! never as an omitted key, so the schema of one run's output is uniform.

use vstd::prelude::*;

use crate::json::JsonRep;
use crate::json::JsonValue;
use crate::json::fields_rep;
use crate::json::join_comma;
use crate::json::json_text;
use crate::datetime::timestamp_text;
use crate::record::Message;
use crate::record::MsgView;
use crate::record::OutputConfig;
use crate::text::dec_i64;
use crate::time::timestamp_valid;

verus! {

/// The names of the active fields, in the fixed column order.
pub open spec fn field_names(cfg: OutputConfig) -> Seq<Seq<char>> {
    seq!["sender"@, "content"@] + (if cfg.timestamps {
        seq!["timestamp"@]
    } else {
        Seq::empty()
    }) + (if cfg.ids {
        seq!["id"@]
    } else {
        Seq::empty()
    }) + (if cfg.replies {
        seq!["reply_to"@]
    } else {
        Seq::empty()
    }) + (if cfg.edited {
        seq!["edited_at"@]
    } else {
        Seq::empty()
    })
}

/// The textual value of an optional identifier: empty when absent.
pub open spec fn opt_id_text(id: Option<i64>) -> Seq<char> {
    match id {
        Some(n) => dec_i64(n as int),
        None => Seq::empty(),
    }
}

/// The textual value of an optional timestamp: empty when absent.
pub open spec fn opt_ts_text(t: Option<crate::time::Timestamp>) -> Seq<char> {
    match t {
        Some(ts) => timestamp_text(ts),
        None => Seq::empty(),
    }
}

/// The active field values of one record, in the fixed column order.
pub open spec fn record_fields(m: MsgView, cfg: OutputConfig) -> Seq<Seq<char>> {
    seq![m.sender, m.content] + (if cfg.timestamps {
        seq![timestamp_text(m.timestamp)]
    } else {
        Seq::empty()
    }) + (if cfg.ids {
        seq![opt_id_text(m.id)]
    } else {
        Seq::empty()
    }) + (if cfg.replies {
        seq![opt_id_text(m.reply_to)]
    } else {
        Seq::empty()
    }) + (if cfg.edited {
        seq![opt_ts_text(m.edited_at)]
    } else {
        Seq::empty()
    })
}

/// Whether a delimited-text field value must be quoted: it contains the
/// delimiter, the quote character, or a line break.
pub open spec fn csv_needs_quoting(s: Seq<char>) -> bool {
    exists|i: int|
        0 <= i < s.len() && ((#[trigger] s[i]) == ',' || s[i] == '"' || s[i] == '\n' || s[i]
            == '\r')
}

/// The field's characters with each quote character doubled.
pub open spec fn csv_doubled(s: Seq<char>) -> Seq<char>
    decreases s.len(),
{
    if s.len() == 0 {
        Seq::empty()
    } else {
        csv_doubled(s.drop_last()) + (if s.last() == '"' {
            seq!['"', '"']
        } else {
            seq![s.last()]
        })
    }
}

/// The rendering of one delimited-text field: quoted with doubled quote
/// characters when quoting is needed, verbatim otherwise.
pub open spec fn csv_field(s: Seq<char>) -> Seq<char> {
    if csv_needs_quoting(s) {
        seq!['"'] + csv_doubled(s) + seq!['"']
    } else {
        s
    }
}

/// One delimited-text row: the escaped values joined by commas, terminated
/// by a line break.
pub open spec fn csv_row(vals: Seq<Seq<char>>) -> Seq<char> {
    join_comma(
        Seq::new(
            vals.len(),
            |i: int|
                if 0 <= i < vals.len() {
                    csv_field(vals[i])
                } else {
                    Seq::empty()
                },
        ),
    ) + seq!['\n']
}

/// The data rows for `msgs`, in order.
pub open spec fn csv_rows(msgs: Seq<MsgView>, cfg: OutputConfig) -> Seq<char>
    decreases msgs.len(),
{
    if msgs.len() == 0 {
        Seq::empty()
    } else {
        csv_rows(msgs.drop_last(), cfg) + csv_row(record_fields(msgs.last(), cfg))
    }
}

/// The whole delimited-text document: a header row naming the active
/// fields, then one row per record.
pub open spec fn spec_render_csv(msgs: Seq<MsgView>, cfg: OutputConfig) -> Seq<char> {
    csv_row(field_names(cfg)) + csv_rows(msgs, cfg)
}

/// The field map of one record in the structured-document model: exactly
/// the active fields; an absent optional value is an explicit null.
pub open spec fn record_obj(m: MsgView, cfg: OutputConfig) -> JsonRep {
    JsonRep::Obj(
        seq![("sender"@, JsonRep::Str(m.sender)), ("content"@, JsonRep::Str(m.content))] + (
        if cfg.timestamps {
            seq![("timestamp"@, JsonRep::Str(timestamp_text(m.timestamp)))]
        } else {
            Seq::empty()
        }) + (if cfg.ids {
            seq![
                (
                    "id"@,
                    match m.id {
                        Some(n) => JsonRep::Int(n as int),
                        None => JsonRep::Null,
                    },
                ),
            ]
        } else {
            Seq::empty()
        }) + (if cfg.replies {
            seq![
                (
                    "reply_to"@,
                    match m.reply_to {
                        Some(n) => JsonRep::Int(n as int),
                        None => JsonRep::Null,
                    },
                ),
            ]
        } else {
            Seq::empty()
        }) + (if cfg.edited {
            seq![
                (
                    "edited_at"@,
                    match m.edited_at {
                        Some(t) => JsonRep::Str(timestamp_text(t)),
                        None => JsonRep::Null,
                    },
                ),
            ]
        } else {
            Seq::empty()
        }),
    )
}

/// The array-document rendering: one top-level list of field maps.
pub open spec fn spec_render_json(msgs: Seq<MsgView>, cfg: OutputConfig) -> Seq<char> {
    json_text(JsonRep::Arr(Seq::new(msgs.len(), |i: int| record_obj(msgs[i], cfg))))
}

/// The line-delimited rendering: one field map per line, each line
/// terminated by a line break.
pub open spec fn spec_render_jsonl(msgs: Seq<MsgView>, cfg: OutputConfig) -> Seq<char>
    decreases msgs.len(),
{
    if msgs.len() == 0 {
        Seq::empty()
    } else {
        spec_render_jsonl(msgs.drop_last(), cfg) + json_text(record_obj(msgs.last(), cfg))
            + seq!['\n']
    }
}

/// Appends one escaped delimited-text field to `out`.
fn write_csv_field(out: &mut String, s: &str)
    ensures
        final(out)@ == old(out)@ + csv_field(s@),
{
    let chars = crate::text::str_to_chars(s);
    let mut needs: bool = false;
    let mut i: usize = 0;
    while i < chars.len()
        invariant
            i <= chars.len(),
            needs == csv_needs_quoting(chars@.subrange(0, i as int)),
        decreases chars.len() - i,
    {
        let c = chars[i];
        let ghost prefix = chars@.subrange(0, i as int);
        if c == ',' || c == '"' || c == '\n' || c == '\r' {
            needs = true;
        }
        proof {
            let longer = chars@.subrange(0, i + 1 as int);
            if needs {
                if csv_needs_quoting(prefix) {
                    let j = choose|j: int|
                        0 <= j < prefix.len() && ((#[trigger] prefix[j]) == ',' || prefix[j] == '"'
                            || prefix[j] == '\n' || prefix[j] == '\r');
                    assert(longer[j] == prefix[j]);
                } else {
                    assert(longer[i as int] == c);
                }
            } else {
                assert forall|j: int| 0 <= j < longer.len() implies !((#[trigger] longer[j]) == ','
                    || longer[j] == '"' || longer[j] == '\n' || longer[j] == '\r') by {
                    if j < i {
                        assert(longer[j] == prefix[j]);
                    }
                }
            }
        }
        i = i + 1;
    }
    proof {
        assert(chars@.subrange(0, chars@.len() as int) =~= s@);
    }
    if !needs {
        out.append(s);
    } else {
        crate::text::push_char(out, '"');
        let mut j: usize = 0;
        while j < chars.len()
            invariant
                j <= chars.len(),
                out@ == old(out)@ + seq!['"'] + csv_doubled(chars@.subrange(0, j as int)),
            decreases chars.len() - j,
        {
            let c = chars[j];
            let ghost prefix = chars@.subrange(0, j as int);
            if c == '"' {
                out.append("\"\"");
                proof {
                    reveal_strlit("\"\"");
                    assert("\"\""@ =~= seq!['"', '"']);
                }
            } else {
                crate::text::push_char(out, c);
            }
            proof {
                let longer = chars@.subrange(0, j + 1 as int);
                assert(longer.drop_last() =~= prefix);
                assert(longer.last() == c);
                if c == '"' {
                    assert(out@ =~= old(out)@ + seq!['"'] + csv_doubled(longer));
                } else {
                    assert(out@ =~= old(out)@ + seq!['"'] + csv_doubled(longer));
                }
            }
            j = j + 1;
        }
        crate::text::push_char(out, '"');
        proof {
            assert(out@ =~= old(out)@ + csv_field(s@));
        }
    }
}

/// Appends one data row (or with `vals` the header names, the header row).
fn write_csv_row(out: &mut String, vals: &Vec<String>)
    ensures
        final(out)@ == old(out)@ + csv_row(Seq::new(vals@.len(), |i: int| vals@[i]@)),
{
    let ghost names = Seq::new(vals@.len(), |i: int| vals@[i]@);
    let ghost escaped = Seq::new(
        names.len(),
        |i: int|
            if 0 <= i < names.len() {
                csv_field(names[i])
            } else {
                Seq::empty()
            },
    );
    let mut i: usize = 0;
    while i < vals.len()
        invariant
            i <= vals.len(),
            out@ == old(out)@ + join_comma(escaped.subrange(0, i as int)),
        decreases vals.len() - i,
    {
        if i > 0 {
            crate::text::push_char(out, ',');
        }
        write_csv_field(out, vals[i].as_str());
        proof {
            let prefix = escaped.subrange(0, i as int);
            let longer = escaped.subrange(0, i + 1 as int);
            assert(longer.drop_last() =~= prefix);
            assert(longer.last() == csv_field(names[i as int]));
            if i > 0 {
                assert(join_comma(longer) == join_comma(prefix) + seq![','] + longer.last());
            } else {
                assert(join_comma(longer) == longer.last());
            }
        }
        i = i + 1;
    }
    crate::text::push_char(out, '\n');
    proof {
        assert(escaped.subrange(0, escaped.len() as int) =~= escaped);
        assert(out@ =~= old(out)@ + csv_row(names));
    }
}

/// The active field values of `m` as rendered text, in column order.
fn record_field_values(m: &Message, cfg: &OutputConfig) -> (r: Vec<String>)
    requires
        timestamp_valid(m@.timestamp),
        m@.edited_at is Some ==> timestamp_valid(m@.edited_at->0),
    ensures
        Seq::new(r@.len(), |i: int| r@[i]@) =~= record_fields(m@, *cfg),
{
    let mut vals: Vec<String> = Vec::new();
    vals.push(m.sender.clone());
    vals.push(m.content.clone());
    if cfg.timestamps {
        let ts = crate::datetime::render_timestamp(&m.timestamp);
        vals.push(crate::text::chars_to_string(&ts));
    }
    if cfg.ids {
        match m.id {
            Some(n) => {
                let digits = crate::text::render_i64(n);
                vals.push(crate::text::chars_to_string(&digits));
            },
            None => {
                vals.push(String::new());
            },
        }
    }
    if cfg.replies {
        match m.reply_to {
            Some(n) => {
                let digits = crate::text::render_i64(n);
                vals.push(crate::text::chars_to_string(&digits));
            },
            None => {
                vals.push(String::new());
            },
        }
    }
    if cfg.edited {
        match m.edited_at {
            Some(t) => {
                let ts = crate::datetime::render_timestamp(&t);
                vals.push(crate::text::chars_to_string(&ts));
            },
            None => {
                vals.push(String::new());
            },
        }
    }
    vals
}

/// Renders `msgs` as a delimited-text document.
pub fn render_csv(msgs: &Vec<Message>, cfg: &OutputConfig) -> (r: String)
    requires
        crate::record::msgs_valid(msgs.deep_view()),
    ensures
        r@ == spec_render_csv(msgs.deep_view(), *cfg),
{
    let mut out = String::new();
    let mut header: Vec<String> = Vec::new();
    header.push(String::from_str("sender"));
    header.push(String::from_str("content"));
    if cfg.timestamps {
        header.push(String::from_str("timestamp"));
    }
    if cfg.ids {
        header.push(String::from_str("id"));
    }
    if cfg.replies {
        header.push(String::from_str("reply_to"));
    }
    if cfg.edited {
        header.push(String::from_str("edited_at"));
    }
    proof {
        assert(Seq::new(header@.len(), |i: int| header@[i]@) =~= field_names(*cfg));
    }
    write_csv_row(&mut out, &header);
    let mut i: usize = 0;
    while i < msgs.len()
        invariant
            i <= msgs.len(),
            out@ == csv_row(field_names(*cfg)) + csv_rows(
                msgs.deep_view().subrange(0, i as int),
                *cfg,
            ),
        decreases msgs.len() - i,
    {
        assert(msg_valid_at(msgs.deep_view(), i as int));
        let vals = record_field_values(&msgs[i], cfg);
        write_csv_row(&mut out, &vals);
        proof {
            let prefix = msgs.deep_view().subrange(0, i as int);
            let longer = msgs.deep_view().subrange(0, i + 1 as int);
            assert(longer.drop_last() =~= prefix);
            assert(longer.last() == msgs.deep_view()[i as int]);
        }
        i = i + 1;
    }
    proof {
        assert(msgs.deep_view().subrange(0, msgs.deep_view().len() as int) =~= msgs.deep_view());
    }
    out
}

/// Helper trigger shape for record validity at an index.
pub open spec fn msg_valid_at(s: Seq<MsgView>, i: int) -> bool {
    crate::record::msg_valid(s[i])
}

/// The field map of `m` as a buildable value.
fn record_to_json(m: &Message, cfg: &OutputConfig) -> (r: JsonValue)
    requires
        timestamp_valid(m@.timestamp),
        m@.edited_at is Some ==> timestamp_valid(m@.edited_at->0),
    ensures
        r.rep() == record_obj(m@, *cfg),
{
    let mut fields: Vec<(String, JsonValue)> = Vec::new();
    let ghost mut grep: Seq<(Seq<char>, JsonRep)> = Seq::empty();
    let v0 = JsonValue::Str(m.sender.clone());
    assert(v0.rep() == JsonRep::Str(m@.sender));
    fields.push((String::from_str("sender"), v0));
    proof {
        grep = grep.push(("sender"@, JsonRep::Str(m@.sender)));
        assert(fields_rep(fields@) =~= grep);
    }
    let v1 = JsonValue::Str(m.content.clone());
    assert(v1.rep() == JsonRep::Str(m@.content));
    fields.push((String::from_str("content"), v1));
    proof {
        grep = grep.push(("content"@, JsonRep::Str(m@.content)));
        assert(fields_rep(fields@) =~= grep);
    }
    if cfg.timestamps {
        let ts = crate::datetime::render_timestamp(&m.timestamp);
        let v = JsonValue::Str(crate::text::chars_to_string(&ts));
        assert(v.rep() == JsonRep::Str(timestamp_text(m@.timestamp)));
        fields.push((String::from_str("timestamp"), v));
        proof {
            grep = grep.push(("timestamp"@, JsonRep::Str(timestamp_text(m@.timestamp))));
            assert(fields_rep(fields@) =~= grep);
        }
    }
    if cfg.ids {
        let v = match m.id {
            Some(n) => JsonValue::Int(n),
            None => JsonValue::Null,
        };
        assert(v.rep() == match m@.id {
            Some(n) => JsonRep::Int(n as int),
            None => JsonRep::Null,
        });
        fields.push((String::from_str("id"), v));
        proof {
            grep = grep.push(
                (
                    "id"@,
                    match m@.id {
                        Some(n) => JsonRep::Int(n as int),
                        None => JsonRep::Null,
                    },
                ),
            );
            assert(fields_rep(fields@) =~= grep);
        }
    }
    if cfg.replies {
        let v = match m.reply_to {
            Some(n) => JsonValue::Int(n),
            None => JsonValue::Null,
        };
        assert(v.rep() == match m@.reply_to {
            Some(n) => JsonRep::Int(n as int),
            None => JsonRep::Null,
        });
        fields.push((String::from_str("reply_to"), v));
        proof {
            grep = grep.push(
                (
                    "reply_to"@,
                    match m@.reply_to {
                        Some(n) => JsonRep::Int(n as int),
                        None => JsonRep::Null,
                    },
                ),
            );
            assert(fields_rep(fields@) =~= grep);
        }
    }
    if cfg.edited {
        let v = match m.edited_at {
            Some(t) => {
                let ts = crate::datetime::render_timestamp(&t);
                JsonValue::Str(crate::text::chars_to_string(&ts))
            },
            None => JsonValue::Null,
        };
        assert(v.rep() == match m@.edited_at {
            Some(t) => JsonRep::Str(timestamp_text(t)),
            None => JsonRep::Null,
        });
        fields.push((String::from_str("edited_at"), v));
        proof {
            grep = grep.push(
                (
                    "edited_at"@,
                    match m@.edited_at {
                        Some(t) => JsonRep::Str(timestamp_text(t)),
                        None => JsonRep::Null,
                    },
                ),
            );
            assert(fields_rep(fields@) =~= grep);
        }
    }
    let ghost gf = fields@;
    let r = JsonValue::Obj(fields);
    proof {
        assert(r.rep()->Obj_0 =~= fields_rep(gf));
        assert(grep =~= record_obj(m@, *cfg)->Obj_0);
    }
    r
}

/// Renders `msgs` as one array document.
pub fn render_json(msgs: &Vec<Message>, cfg: &OutputConfig) -> (r: String)
    requires
        crate::record::msgs_valid(msgs.deep_view()),
    ensures
        r@ == spec_render_json(msgs.deep_view(), *cfg),
{
    let mut arr: Vec<JsonValue> = Vec::new();
    let mut i: usize = 0;
    while i < msgs.len()
        invariant
            i <= msgs.len(),
            arr@.len() == i,
            forall|j: int|
                0 <= j < i ==> (#[trigger] arr@[j]).rep() == record_obj(
                    msgs.deep_view()[j],
                    *cfg,
                ),
        decreases msgs.len() - i,
    {
        assert(msg_valid_at(msgs.deep_view(), i as int));
        let obj = record_to_json(&msgs[i], cfg);
        arr.push(obj);
        i = i + 1;
    }
    let doc = JsonValue::Arr(arr);
    let mut out = String::new();
    crate::json::write_json_value(&doc, &mut out);
    proof {
        assert(doc.rep()->Arr_0 =~= Seq::new(
            msgs.deep_view().len(),
            |i: int| record_obj(msgs.deep_view()[i], *cfg),
        ));
    }
    out
}

/// Renders `msgs` as a line-delimited document.
pub fn render_jsonl(msgs: &Vec<Message>, cfg: &OutputConfig) -> (r: String)
    requires
        crate::record::msgs_valid(msgs.deep_view()),
    ensures
        r@ == spec_render_jsonl(msgs.deep_view(), *cfg),
{
    let mut out = String::new();
    let mut i: usize = 0;
    while i < msgs.len()
        invariant
            i <= msgs.len(),
            out@ == spec_render_jsonl(msgs.deep_view().subrange(0, i as int), *cfg),
        decreases msgs.len() - i,
    {
        assert(msg_valid_at(msgs.deep_view(), i as int));
        let obj = record_to_json(&msgs[i], cfg);
        crate::json::write_json_value(&obj, &mut out);
        crate::text::push_char(&mut out, '\n');
        proof {
            let prefix = msgs.deep_view().subrange(0, i as int);
            let longer = msgs.deep_view().subrange(0, i + 1 as int);
            assert(longer.drop_last() =~= prefix);
            assert(longer.last() == msgs.deep_view()[i as int]);
            assert(out@ =~= spec_render_jsonl(prefix, *cfg) + json_text(
                record_obj(msgs.deep_view()[i as int], *cfg),
            ) + seq!['\n']);
        }
        i = i + 1;
    }
    proof {
        assert(msgs.deep_view().subrange(0, msgs.deep_view().len() as int) =~= msgs.deep_view());
    }
    out
}

} // verus!
