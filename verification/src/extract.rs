//! Per-event record extraction for the JSON-shaped exports.
//!
//! Each platform's rule turns one event of the export's message list into
//! a canonical record, a skip (service events), or a record-level error.
//! One shared extraction function per platform serves both the eager parser
//! and the lazy source, so the two modes cannot drift apart.

use vstd::prelude::*;

use crate::json::JsonRep;
use crate::json::JsonValue;
use crate::json::fields_rep;
use crate::json::spec_obj_get;
use crate::json::obj_get;
use crate::json::int_in_range;
use crate::json_parse::items_rep;
use crate::datetime::spec_parse_datetime;
use crate::datetime::parse_datetime_chars;
use crate::record::Message;
use crate::record::MsgView;
use crate::time::Timestamp;

verus! {

/// What one event of a message list yields.
pub ghost enum EventOut {
    /// A service or system event: not a message, silently skipped.
    Skip,
    /// A canonical record.
    Msg(MsgView),
    /// A malformed record.
    Bad,
}

/// The executable counterpart of [`EventOut`].
pub enum ExtractOut {
    Skip,
    Msg(Message),
    Bad,
}

/// Whether an executable extraction matches its model.
pub open spec fn extract_matches(r: ExtractOut, spec_out: EventOut) -> bool {
    match r {
        ExtractOut::Skip => spec_out == EventOut::Skip,
        ExtractOut::Msg(m) => spec_out == EventOut::Msg(m@),
        ExtractOut::Bad => spec_out == EventOut::Bad,
    }
}

/// The string value of a field, if present with that shape.
pub open spec fn field_str(f: Seq<(Seq<char>, JsonRep)>, key: Seq<char>) -> Option<Seq<char>> {
    match spec_obj_get(f, key) {
        Some(JsonRep::Str(s)) => Some(s),
        _ => None,
    }
}

/// The timestamp denoted by a required date-time string field.
pub open spec fn field_ts(f: Seq<(Seq<char>, JsonRep)>, key: Seq<char>) -> Option<Timestamp> {
    match field_str(f, key) {
        Some(d) => spec_parse_datetime(d),
        None => None,
    }
}

/// An optional integer field: `None` when malformed, `Some(None)` when
/// absent.
pub open spec fn field_opt_int(f: Seq<(Seq<char>, JsonRep)>, key: Seq<char>) -> Option<
    Option<i64>,
> {
    match spec_obj_get(f, key) {
        None => Some(None),
        Some(JsonRep::Int(n)) => if int_in_range(n) {
            Some(Some(n as i64))
        } else {
            None
        },
        Some(_) => None,
    }
}

/// An optional date-time string field: `None` when malformed, `Some(None)`
/// when absent.
pub open spec fn field_opt_ts(f: Seq<(Seq<char>, JsonRep)>, key: Seq<char>) -> Option<
    Option<Timestamp>,
> {
    match spec_obj_get(f, key) {
        None => Some(None),
        Some(JsonRep::Str(d)) => match spec_parse_datetime(d) {
            Some(t) => Some(Some(t)),
            None => None,
        },
        Some(_) => None,
    }
}

/// The concatenated plain text of a rich text list: each element is either
/// a bare string or an object carrying a `text` string field.
pub open spec fn rich_text(items: Seq<JsonRep>, i: int) -> Option<Seq<char>>
    decreases items.len() - i,
{
    if !(0 <= i < items.len()) {
        Some(Seq::empty())
    } else {
        let piece = match items[i] {
            JsonRep::Str(s) => Some(s),
            JsonRep::Obj(f2) => field_str(f2, "text"@),
            _ => None,
        };
        match piece {
            Some(p) => match rich_text(items, i + 1) {
                Some(rest) => Some(p + rest),
                None => None,
            },
            None => None,
        }
    }
}

/// The text body of a nested-JSON event: a bare string, or a rich text
/// list concatenated into one string.
pub open spec fn tg_text(o: Option<JsonRep>) -> Option<Seq<char>> {
    match o {
        Some(JsonRep::Str(s)) => Some(s),
        Some(JsonRep::Arr(items)) => rich_text(items, 0),
        _ => None,
    }
}

/// Extraction rule of the nested-JSON export: events typed other than
/// `message` are service events and are skipped; sender comes from `from`,
/// the body from `text` (rich text concatenated), and `id`,
/// `reply_to_message_id` and `edited` map directly when present.
pub open spec fn telegram_event(e: JsonRep) -> EventOut {
    if !(e is Obj) {
        EventOut::Bad
    } else {
        let f = e->Obj_0;
        let ty = spec_obj_get(f, "type"@);
        if ty is Some && !(ty->0 is Str) {
            EventOut::Bad
        } else if ty is Some && ty->0->Str_0 != "message"@ {
            EventOut::Skip
        } else {
            match field_str(f, "from"@) {
                Some(sender) => if sender.len() == 0 {
                    EventOut::Bad
                } else {
                    match field_ts(f, "date"@) {
                        Some(ts) => match tg_text(spec_obj_get(f, "text"@)) {
                            Some(content) => match field_opt_int(f, "id"@) {
                                Some(id) => match field_opt_int(f, "reply_to_message_id"@) {
                                    Some(reply_to) => match field_opt_ts(f, "edited"@) {
                                        Some(edited_at) => EventOut::Msg(
                                            MsgView {
                                                sender,
                                                content,
                                                timestamp: ts,
                                                id,
                                                reply_to,
                                                edited_at,
                                            },
                                        ),
                                        None => EventOut::Bad,
                                    },
                                    None => EventOut::Bad,
                                },
                                None => EventOut::Bad,
                            },
                            None => EventOut::Bad,
                        },
                        None => EventOut::Bad,
                    }
                },
                None => EventOut::Bad,
            }
        }
    }
}

/// Extraction rule of the flatter JSON export: sender comes from
/// `sender_name`, the timestamp from `timestamp`, the body from an optional
/// `content` string (absent means an empty body); the format carries no
/// identifiers, no reply references and no edit marks.
pub open spec fn instagram_event(e: JsonRep) -> EventOut {
    if !(e is Obj) {
        EventOut::Bad
    } else {
        let f = e->Obj_0;
        let content_field = spec_obj_get(f, "content"@);
        if !(content_field is None || content_field->0 is Str) {
            EventOut::Bad
        } else {
            let content = match content_field {
                Some(JsonRep::Str(s)) => s,
                _ => Seq::empty(),
            };
            match field_str(f, "sender_name"@) {
                Some(sender) => if sender.len() == 0 {
                    EventOut::Bad
                } else {
                    match field_ts(f, "timestamp"@) {
                        Some(ts) => EventOut::Msg(
                            MsgView {
                                sender,
                                content,
                                timestamp: ts,
                                id: None,
                                reply_to: None,
                                edited_at: None,
                            },
                        ),
                        None => EventOut::Bad,
                    }
                },
                None => EventOut::Bad,
            }
        }
    }
}

/// Extraction rule of the hybrid export's JSON form: sender is the `name`
/// of the `author` object, the timestamp comes from `timestamp`, the body
/// from `content`; `id`, `reply_to` and `edited_timestamp` map directly
/// when present.
pub open spec fn discord_event(e: JsonRep) -> EventOut {
    if !(e is Obj) {
        EventOut::Bad
    } else {
        let f = e->Obj_0;
        match spec_obj_get(f, "author"@) {
            Some(JsonRep::Obj(af)) => match field_str(af, "name"@) {
                Some(sender) => if sender.len() == 0 {
                    EventOut::Bad
                } else {
                    match field_ts(f, "timestamp"@) {
                        Some(ts) => match field_str(f, "content"@) {
                            Some(content) => match field_opt_int(f, "id"@) {
                                Some(id) => match field_opt_int(f, "reply_to"@) {
                                    Some(reply_to) => match field_opt_ts(f, "edited_timestamp"@) {
                                        Some(edited_at) => EventOut::Msg(
                                            MsgView {
                                                sender,
                                                content,
                                                timestamp: ts,
                                                id,
                                                reply_to,
                                                edited_at,
                                            },
                                        ),
                                        None => EventOut::Bad,
                                    },
                                    None => EventOut::Bad,
                                },
                                None => EventOut::Bad,
                            },
                            None => EventOut::Bad,
                        },
                        None => EventOut::Bad,
                    }
                },
                None => EventOut::Bad,
            },
            _ => EventOut::Bad,
        }
    }
}

/// Reads a required non-empty string field.
fn get_req_str(fields: &Vec<(String, JsonValue)>, key: &str) -> (r: Option<String>)
    ensures
        match r {
            Some(s) => field_str(fields_rep(fields@), key@) == Some(s@) && s@.len() > 0,
            None => field_str(fields_rep(fields@), key@) is None || field_str(
                fields_rep(fields@),
                key@,
            )->0.len() == 0,
        },
{
    match obj_get(fields, key) {
        Some(JsonValue::Str(s)) => {
            if s.as_str().is_empty() {
                None
            } else {
                Some(s.clone())
            }
        },
        _ => None,
    }
}

/// Reads a required date-time string field.
fn get_req_ts(fields: &Vec<(String, JsonValue)>, key: &str) -> (r: Option<Timestamp>)
    ensures
        r == field_ts(fields_rep(fields@), key@),
{
    match obj_get(fields, key) {
        Some(JsonValue::Str(s)) => {
            let chars = crate::text::str_to_chars(s.as_str());
            parse_datetime_chars(&chars)
        },
        _ => None,
    }
}

/// Reads an optional integer field.
fn get_opt_int(fields: &Vec<(String, JsonValue)>, key: &str) -> (r: Option<Option<i64>>)
    ensures
        r == field_opt_int(fields_rep(fields@), key@),
{
    match obj_get(fields, key) {
        None => Some(None),
        Some(JsonValue::Int(n)) => Some(Some(*n)),
        Some(_) => None,
    }
}

/// Reads an optional date-time string field.
fn get_opt_ts(fields: &Vec<(String, JsonValue)>, key: &str) -> (r: Option<Option<Timestamp>>)
    ensures
        r == field_opt_ts(fields_rep(fields@), key@),
{
    match obj_get(fields, key) {
        None => Some(None),
        Some(JsonValue::Str(s)) => {
            let chars = crate::text::str_to_chars(s.as_str());
            match parse_datetime_chars(&chars) {
                Some(t) => Some(Some(t)),
                None => None,
            }
        },
        Some(_) => None,
    }
}

/// Extracts one nested-JSON event.
pub fn telegram_event_exec(e: &JsonValue) -> (r: ExtractOut)
    ensures
        extract_matches(r, telegram_event(e.rep())),
{
    let fields = match e {
        JsonValue::Obj(fields) => fields,
        _ => {
            return ExtractOut::Bad;
        },
    };
    proof {
        assert(e.rep()->Obj_0 =~= fields_rep(fields@));
    }
    match obj_get(fields, "type") {
        None => {},
        Some(JsonValue::Str(t)) => {
            if !(*t == String::from_str("message")) {
                return ExtractOut::Skip;
            }
        },
        Some(_) => {
            return ExtractOut::Bad;
        },
    }
    let sender = match get_req_str(fields, "from") {
        Some(s) => s,
        None => {
            return ExtractOut::Bad;
        },
    };
    let ts = match get_req_ts(fields, "date") {
        Some(t) => t,
        None => {
            return ExtractOut::Bad;
        },
    };
    let content = match tg_text_exec(fields) {
        Some(c) => c,
        None => {
            return ExtractOut::Bad;
        },
    };
    let id = match get_opt_int(fields, "id") {
        Some(v) => v,
        None => {
            return ExtractOut::Bad;
        },
    };
    let reply_to = match get_opt_int(fields, "reply_to_message_id") {
        Some(v) => v,
        None => {
            return ExtractOut::Bad;
        },
    };
    let edited_at = match get_opt_ts(fields, "edited") {
        Some(v) => v,
        None => {
            return ExtractOut::Bad;
        },
    };
    ExtractOut::Msg(Message { sender, content, timestamp: ts, id, reply_to, edited_at })
}

/// Extracts the text body of a nested-JSON event.
fn tg_text_exec(fields: &Vec<(String, JsonValue)>) -> (r: Option<String>)
    ensures
        match r {
            Some(s) => tg_text(spec_obj_get(fields_rep(fields@), "text"@)) == Some(s@),
            None => tg_text(spec_obj_get(fields_rep(fields@), "text"@)) is None,
        },
{
    match obj_get(fields, "text") {
        Some(JsonValue::Str(s)) => Some(s.clone()),
        Some(JsonValue::Arr(items)) => {
            let ghost irep = items_rep(items@);
            proof {
                if let Some(v) = spec_obj_get(fields_rep(fields@), "text"@) {
                    assert(v->Arr_0 =~= irep);
                }
            }
            let mut out = String::new();
            let mut i: usize = 0;
            while i < items.len()
                invariant
                    i <= items@.len(),
                    irep == items_rep(items@),
                    match rich_text(irep, i as int) {
                        Some(rest) => rich_text(irep, 0) == Some(out@ + rest),
                        None => rich_text(irep, 0) is None,
                    },
                decreases items@.len() - i,
            {
                let piece = match &items[i] {
                    JsonValue::Str(s) => s.clone(),
                    JsonValue::Obj(f2) => {
                        proof {
                            assert(irep[i as int]->Obj_0 =~= fields_rep(f2@));
                        }
                        match obj_get(f2, "text") {
                            Some(JsonValue::Str(s)) => s.clone(),
                            _ => {
                                return None;
                            },
                        }
                    },
                    _ => {
                        return None;
                    },
                };
                let ghost old_out = out@;
                out.append(piece.as_str());
                proof {
                    lemma_rich_step(irep, i as int, old_out, piece@);
                }
                i = i + 1;
            }
            proof {
                assert(out@ + Seq::<char>::empty() =~= out@);
            }
            Some(out)
        },
        _ => None,
    }
}

/// One step of the rich-text concatenation loop.
proof fn lemma_rich_step(items: Seq<JsonRep>, i: int, old_out: Seq<char>, piece: Seq<char>)
    requires
        rich_text(items, i) == (match rich_text(items, i + 1) {
            Some(rest2) => Some::<Seq<char>>(piece + rest2),
            None => None::<Seq<char>>,
        }),
        match rich_text(items, i) {
            Some(rest) => rich_text(items, 0) == Some(old_out + rest),
            None => rich_text(items, 0) is None,
        },
    ensures
        match rich_text(items, i + 1) {
            Some(rest) => rich_text(items, 0) == Some(old_out + piece + rest),
            None => rich_text(items, 0) is None,
        },
{
    match rich_text(items, i + 1) {
        Some(rest2) => {
            assert(old_out + (piece + rest2) =~= old_out + piece + rest2);
        },
        None => {},
    }
}

/// Extracts one event of the flatter JSON export.
pub fn instagram_event_exec(e: &JsonValue) -> (r: ExtractOut)
    ensures
        extract_matches(r, instagram_event(e.rep())),
{
    let fields = match e {
        JsonValue::Obj(fields) => fields,
        _ => {
            return ExtractOut::Bad;
        },
    };
    proof {
        assert(e.rep()->Obj_0 =~= fields_rep(fields@));
    }
    let content = match obj_get(fields, "content") {
        None => String::new(),
        Some(JsonValue::Str(s)) => s.clone(),
        Some(_) => {
            return ExtractOut::Bad;
        },
    };
    let sender = match get_req_str(fields, "sender_name") {
        Some(s) => s,
        None => {
            return ExtractOut::Bad;
        },
    };
    let ts = match get_req_ts(fields, "timestamp") {
        Some(t) => t,
        None => {
            return ExtractOut::Bad;
        },
    };
    ExtractOut::Msg(
        Message { sender, content, timestamp: ts, id: None, reply_to: None, edited_at: None },
    )
}

/// Extracts one event of the hybrid export's JSON form.
pub fn discord_event_exec(e: &JsonValue) -> (r: ExtractOut)
    ensures
        extract_matches(r, discord_event(e.rep())),
{
    let fields = match e {
        JsonValue::Obj(fields) => fields,
        _ => {
            return ExtractOut::Bad;
        },
    };
    proof {
        assert(e.rep()->Obj_0 =~= fields_rep(fields@));
    }
    let sender = match obj_get(fields, "author") {
        Some(JsonValue::Obj(af)) => {
            proof {
                if let Some(v) = spec_obj_get(fields_rep(fields@), "author"@) {
                    assert(v->Obj_0 =~= fields_rep(af@));
                }
            }
            match get_req_str(af, "name") {
                Some(s) => s,
                None => {
                    return ExtractOut::Bad;
                },
            }
        },
        _ => {
            return ExtractOut::Bad;
        },
    };
    let ts = match get_req_ts(fields, "timestamp") {
        Some(t) => t,
        None => {
            return ExtractOut::Bad;
        },
    };
    let content = match obj_get(fields, "content") {
        Some(JsonValue::Str(s)) => s.clone(),
        _ => {
            return ExtractOut::Bad;
        },
    };
    let id = match get_opt_int(fields, "id") {
        Some(v) => v,
        None => {
            return ExtractOut::Bad;
        },
    };
    let reply_to = match get_opt_int(fields, "reply_to") {
        Some(v) => v,
        None => {
            return ExtractOut::Bad;
        },
    };
    let edited_at = match get_opt_ts(fields, "edited_timestamp") {
        Some(v) => v,
        None => {
            return ExtractOut::Bad;
        },
    };
    ExtractOut::Msg(Message { sender, content, timestamp: ts, id, reply_to, edited_at })
}

} // verus!
