//! The whole pipeline: raw export text to output text, in either execution
//! mode.
//!
//! Both modes rest on one extraction model per platform. Eager execution
//! materializes all records before the downstream stages run; lazy
//! execution pulls records one at a time and applies the filter predicate
//! and the merge fold per record. The contract of [`run_pipeline`] does not
//! mention the mode at all: both modes meet the same model of the result,
//! which is the cross-mode equivalence guarantee.

use vstd::prelude::*;

use crate::extract::EventOut;
use crate::extract::telegram_event;
use crate::extract::instagram_event;
use crate::extract::discord_event;
use crate::filter::keeps;
use crate::filter::keeps_record;
use crate::filter::spec_filter;
use crate::json::JsonRep;
use crate::json::JsonValue;
use crate::json::spec_obj_get;
use crate::json_parse::items_rep;
use crate::json_parse::spec_parse_json;
use crate::lines::csv_header_line;
use crate::lines::csv_outputs;
use crate::lines::spec_split_lines;
use crate::lines::text_outputs;
use crate::merge::merge_step;
use crate::merge::spec_merge;
use crate::platform::Format;
use crate::platform::Platform;
use crate::record::FilterConfig;
use crate::record::FilterView;
use crate::record::Message;
use crate::record::MsgView;
use crate::record::OutputConfig;
use crate::record::ParseError;
use crate::record::msg_valid;
use crate::record::msgs_valid;
use crate::render::spec_render_csv;
use crate::render::spec_render_json;
use crate::render::spec_render_jsonl;
use crate::stream::MessageStream;
use crate::stream::StreamKind;
use crate::stream::json_outputs;
use crate::stream::kind_extractor;

verus! {

/// The event list of a JSON-shaped export document: the `messages` list of
/// the top-level object.
pub open spec fn doc_events(doc: JsonRep) -> Option<Seq<JsonRep>> {
    if doc is Obj {
        match spec_obj_get(doc->Obj_0, "messages"@) {
            Some(JsonRep::Arr(evts)) => Some(evts),
            _ => None,
        }
    } else {
        None
    }
}

/// The record stream of a JSON-shaped export, or the structural error when
/// the document or its top-level shape is unrecognizable.
pub open spec fn json_platform_outputs(
    s: Seq<char>,
    ex: spec_fn(JsonRep) -> EventOut,
) -> Result<Seq<Result<MsgView, ParseError>>, ParseError> {
    match spec_parse_json(s) {
        Some(doc) => match doc_events(doc) {
            Some(evts) => Ok(json_outputs(evts, 0, ex)),
            None => Err(ParseError::Document),
        },
        None => Err(ParseError::Document),
    }
}

/// The concrete sub-format of a hybrid export, sniffed from content.
pub ghost enum HybridMode {
    Json,
    DelimitedText,
    Text,
}

/// Sniffing rule: an object opener after leading whitespace means JSON
/// (the JSON form is an object, its messages under a `messages` key; a
/// bracket cannot open it, which keeps the line-oriented header's leading
/// bracket unambiguous); otherwise a first line equal to the
/// delimited-text header row means delimited text; anything else is
/// line-oriented text.
pub open spec fn hybrid_mode(s: Seq<char>) -> HybridMode {
    let i = crate::json_parse::skip_ws(s, 0);
    if 0 <= i < s.len() && s[i] == '{' {
        HybridMode::Json
    } else if spec_split_lines(s).len() > 0 && spec_split_lines(s)[0] == csv_header_line() {
        HybridMode::DelimitedText
    } else {
        HybridMode::Text
    }
}

/// The record stream of one export text under one platform's rules, or a
/// structural error.
pub open spec fn platform_outputs(p: Platform, s: Seq<char>) -> Result<
    Seq<Result<MsgView, ParseError>>,
    ParseError,
> {
    match p {
        Platform::Telegram => json_platform_outputs(s, kind_extractor(StreamKind::TelegramJson)),
        Platform::Instagram => json_platform_outputs(
            s,
            kind_extractor(StreamKind::InstagramJson),
        ),
        Platform::WhatsApp => Ok(text_outputs(spec_split_lines(s), 0)),
        Platform::Discord => match hybrid_mode(s) {
            HybridMode::Json => json_platform_outputs(s, kind_extractor(StreamKind::DiscordJson)),
            HybridMode::DelimitedText => Ok(csv_outputs(spec_split_lines(s), 1)),
            HybridMode::Text => Ok(text_outputs(spec_split_lines(s), 0)),
        },
    }
}

/// Eager reading of a record stream: all records when every pull succeeds,
/// the first record-level error otherwise. No partial eager result exists.
pub open spec fn eager_of(outs: Seq<Result<MsgView, ParseError>>) -> Result<
    Seq<MsgView>,
    ParseError,
>
    decreases outs.len(),
{
    if outs.len() == 0 {
        Ok(Seq::empty())
    } else {
        match outs[0] {
            Err(e) => Err(e),
            Ok(m) => match eager_of(outs.drop_first()) {
                Ok(rest) => Ok(seq![m] + rest),
                Err(e) => Err(e),
            },
        }
    }
}

/// The complete ordered record sequence of one export, or the error that
/// aborts the eager parse.
pub open spec fn spec_parse_export(p: Platform, s: Seq<char>) -> Result<Seq<MsgView>, ParseError> {
    match platform_outputs(p, s) {
        Ok(outs) => eager_of(outs),
        Err(e) => Err(e),
    }
}

/// The chosen serializer's rendering.
pub open spec fn spec_render(fmt: Format, msgs: Seq<MsgView>, cfg: OutputConfig) -> Seq<char> {
    match fmt {
        Format::Csv => spec_render_csv(msgs, cfg),
        Format::Json => spec_render_json(msgs, cfg),
        Format::Jsonl => spec_render_jsonl(msgs, cfg),
    }
}

/// The whole run: parse, filter, optionally merge, serialize. On any error
/// no output text exists at all.
pub open spec fn spec_pipeline(
    p: Platform,
    s: Seq<char>,
    f: FilterView,
    cfg: OutputConfig,
    fmt: Format,
    do_merge: bool,
) -> Result<Seq<char>, ParseError> {
    match spec_parse_export(p, s) {
        Err(e) => Err(e),
        Ok(msgs) => {
            let kept = spec_filter(f, msgs);
            let processed = if do_merge {
                spec_merge(kept)
            } else {
                kept
            };
            Ok(spec_render(fmt, processed, cfg))
        },
    }
}

/// Takes the `messages` event list out of a parsed document.
fn take_messages(doc: JsonValue) -> (r: Option<Vec<JsonValue>>)
    ensures
        match r {
            Some(evts) => doc_events(doc.rep()) == Some(items_rep(evts@)),
            None => doc_events(doc.rep()) is None,
        },
{
    let ghost drep = doc.rep();
    let mut fields = match doc {
        JsonValue::Obj(fields) => fields,
        _ => {
            return None;
        },
    };
    proof {
        assert(drep->Obj_0 =~= crate::json::fields_rep(fields@));
    }
    let ghost frep = crate::json::fields_rep(fields@);
    let key = String::from_str("messages");
    let mut i: usize = 0;
    proof {
        assert(frep.skip(0) =~= frep);
    }
    while i < fields.len()
        invariant
            i <= fields@.len(),
            frep == crate::json::fields_rep(fields@),
            spec_obj_get(frep, "messages"@) == spec_obj_get(frep.skip(i as int), "messages"@),
        decreases fields@.len() - i,
    {
        proof {
            assert(frep.skip(i as int)[0] == frep[i as int]);
        }
        if fields[i].0 == key {
            let pair = fields.remove(i);
            let v = pair.1;
            let ghost vrep = v.rep();
            proof {
                assert(vrep == frep[i as int].1);
            }
            match v {
                JsonValue::Arr(evts) => {
                    proof {
                        assert(vrep->Arr_0 =~= items_rep(evts@));
                    }
                    return Some(evts);
                },
                _ => {
                    return None;
                },
            }
        }
        proof {
            assert(frep.skip(i as int).drop_first() =~= frep.skip(i + 1 as int));
        }
        i = i + 1;
    }
    proof {
        assert(frep.skip(fields@.len() as int).len() == 0);
    }
    None
}

/// Checks whether a line is exactly the delimited-text header row.
fn is_csv_header(line: &Vec<char>) -> (r: bool)
    ensures
        r == (line@ == csv_header_line()),
{
    let expected = crate::text::str_to_chars("Author,Date,Content");
    proof {
        reveal_strlit("Author,Date,Content");
        assert("Author,Date,Content"@ =~= csv_header_line());
    }
    if line.len() != expected.len() {
        return false;
    }
    let mut i: usize = 0;
    while i < expected.len()
        invariant
            i <= expected@.len(),
            line@.len() == expected@.len(),
            expected@ == csv_header_line(),
            forall|j: int| 0 <= j < i ==> line@[j] == csv_header_line()[j],
        decreases expected@.len() - i,
    {
        if line[i] != expected[i] {
            proof {
                assert(line@[i as int] != csv_header_line()[i as int]);
            }
            return false;
        }
        i = i + 1;
    }
    proof {
        assert(line@ =~= csv_header_line());
    }
    true
}

/// Opens a lazy source over one export text. Fails exactly on a structural
/// parse error: an unrecognizable document or top-level shape.
pub fn open_stream(platform: Platform, content: &str) -> (r: Result<MessageStream, ParseError>)
    ensures
        match r {
            Ok(st) => st.wf() && platform_outputs(platform, content@) == Ok::<
                Seq<Result<MsgView, ParseError>>,
                ParseError,
            >(st.outputs()),
            Err(e) => platform_outputs(platform, content@) == Err::<
                Seq<Result<MsgView, ParseError>>,
                ParseError,
            >(e),
        },
{
    let chars = crate::text::str_to_chars(content);
    match platform {
        Platform::Telegram => open_json_stream(&chars, StreamKind::TelegramJson),
        Platform::Instagram => open_json_stream(&chars, StreamKind::InstagramJson),
        Platform::WhatsApp => {
            let lines = crate::lines::split_lines_chars(&chars);
            Ok(MessageStream::from_lines(lines))
        },
        Platform::Discord => {
            let i = crate::json_parse::skip_ws_chars(&chars, 0);
            if i < chars.len() && chars[i] == '{' {
                open_json_stream(&chars, StreamKind::DiscordJson)
            } else {
                let lines = crate::lines::split_lines_chars(&chars);
                if lines.len() > 0 && is_csv_header(&lines[0]) {
                    proof {
                        assert(lines.deep_view()[0] =~= lines@[0]@);
                    }
                    Ok(MessageStream::from_csv_lines(lines))
                } else {
                    proof {
                        if lines@.len() > 0 {
                            assert(lines.deep_view()[0] =~= lines@[0]@);
                        }
                    }
                    Ok(MessageStream::from_lines(lines))
                }
            }
        },
    }
}

/// Opens a lazy source over a JSON-shaped export.
fn open_json_stream(chars: &Vec<char>, kind: StreamKind) -> (r: Result<MessageStream, ParseError>)
    requires
        kind == StreamKind::TelegramJson || kind == StreamKind::InstagramJson || kind
            == StreamKind::DiscordJson,
    ensures
        match r {
            Ok(st) => st.wf() && json_platform_outputs(chars@, kind_extractor(kind)) == Ok::<
                Seq<Result<MsgView, ParseError>>,
                ParseError,
            >(st.outputs()),
            Err(e) => json_platform_outputs(chars@, kind_extractor(kind)) == Err::<
                Seq<Result<MsgView, ParseError>>,
                ParseError,
            >(e),
        },
{
    let doc = match crate::json_parse::parse_json_chars(chars) {
        Some(d) => d,
        None => {
            return Err(ParseError::Document);
        },
    };
    match take_messages(doc) {
        Some(evts) => Ok(MessageStream::from_events(kind, evts)),
        None => Err(ParseError::Document),
    }
}

/// Drains a lazy source eagerly: all records, or the first record-level
/// error with no partial result.
pub fn collect_stream(st: &mut MessageStream) -> (r: Result<Vec<Message>, ParseError>)
    requires
        old(st).wf(),
    ensures
        final(st).wf(),
        match r {
            Ok(v) => eager_of(old(st).outputs()) == Ok::<Seq<MsgView>, ParseError>(v.deep_view()),
            Err(e) => eager_of(old(st).outputs()) == Err::<Seq<MsgView>, ParseError>(e),
        },
{
    let ghost total = old(st).outputs();
    let mut out: Vec<Message> = Vec::new();
    proof {
        if let Ok(rest) = eager_of(total) {
            assert(Seq::<MsgView>::empty() + rest =~= rest);
        }
    }
    loop
        invariant
            st.wf(),
            match eager_of(st.outputs()) {
                Ok(rest) => eager_of(total) == Ok::<Seq<MsgView>, ParseError>(
                    out.deep_view() + rest,
                ),
                Err(e) => eager_of(total) == Err::<Seq<MsgView>, ParseError>(e),
            },
        decreases st.outputs().len(),
    {
        let ghost before = st.outputs();
        match st.next() {
            None => {
                proof {
                    assert(out.deep_view() + Seq::<MsgView>::empty() =~= out.deep_view());
                }
                return Ok(out);
            },
            Some(Err(e)) => {
                return Err(e);
            },
            Some(Ok(m)) => {
                let ghost old_out = out.deep_view();
                out.push(m);
                proof {
                    assert(out.deep_view() =~= old_out.push(m@));
                    assert(before[0] == Ok::<MsgView, ParseError>(m@));
                    if let Ok(rest2) = eager_of(before.drop_first()) {
                        assert(eager_of(before) == Ok::<Seq<MsgView>, ParseError>(
                            seq![m@] + rest2,
                        ));
                        assert(old_out + (seq![m@] + rest2) =~= old_out.push(m@) + rest2);
                    }
                }
            },
        }
    }
}

/// Produces the complete ordered record sequence of one export, or fails
/// with the structural error or the first record-level error.
pub fn parse_export(platform: Platform, content: &str) -> (r: Result<Vec<Message>, ParseError>)
    ensures
        match r {
            Ok(v) => spec_parse_export(platform, content@) == Ok::<Seq<MsgView>, ParseError>(
                v.deep_view(),
            ),
            Err(e) => spec_parse_export(platform, content@) == Err::<Seq<MsgView>, ParseError>(e),
        },
{
    let mut st = match open_stream(platform, content) {
        Ok(st) => st,
        Err(e) => {
            return Err(e);
        },
    };
    collect_stream(&mut st)
}

/// Renders with the chosen serializer.
pub fn render_output(msgs: &Vec<Message>, cfg: &OutputConfig, format: Format) -> (r: String)
    requires
        msgs_valid(msgs.deep_view()),
    ensures
        r@ == spec_render(format, msgs.deep_view(), *cfg),
{
    match format {
        Format::Csv => crate::render::render_csv(msgs, cfg),
        Format::Json => crate::render::render_json(msgs, cfg),
        Format::Jsonl => crate::render::render_jsonl(msgs, cfg),
    }
}

/// Runs the whole pipeline over one export text.
///
/// `streaming` selects lazy execution, which pulls one record at a time and
/// applies the filter predicate and the merge fold per record; eager
/// execution materializes everything first. The contract does not mention
/// `streaming`: both modes return exactly the model's result, so the two
/// modes produce identical output — the cross-mode equivalence guarantee.
pub fn run_pipeline(
    platform: Platform,
    content: &str,
    filter: &FilterConfig,
    cfg: &OutputConfig,
    format: Format,
    do_merge: bool,
    streaming: bool,
) -> (r: Result<String, ParseError>)
    ensures
        match r {
            Ok(text) => spec_pipeline(platform, content@, filter@, *cfg, format, do_merge)
                == Ok::<Seq<char>, ParseError>(text@),
            Err(e) => spec_pipeline(platform, content@, filter@, *cfg, format, do_merge) == Err::<
                Seq<char>,
                ParseError,
            >(e),
        },
{
    proof {
        lemma_outputs_valid(platform, content@);
    }
    if streaming {
        let mut st = match open_stream(platform, content) {
            Ok(st) => st,
            Err(e) => {
                return Err(e);
            },
        };
        let ghost total = st.outputs();
        let ghost fv = filter@;
        let mut processed: Vec<Message> = Vec::new();
        let ghost mut consumed: Seq<MsgView> = Seq::empty();
        proof {
            if let Ok(rest) = eager_of(total) {
                assert(Seq::<MsgView>::empty() + rest =~= rest);
            }
            reveal(Seq::filter);
        }
        loop
            invariant
                st.wf(),
                forall|k: int|
                    0 <= k < total.len() && total[k] is Ok ==> msg_valid(
                        (#[trigger] total[k])->Ok_0,
                    ),
                match eager_of(st.outputs()) {
                    Ok(rest) => eager_of(total) == Ok::<Seq<MsgView>, ParseError>(consumed + rest),
                    Err(e) => eager_of(total) == Err::<Seq<MsgView>, ParseError>(e),
                },
                processed.deep_view() == (if do_merge {
                    spec_merge(spec_filter(fv, consumed))
                } else {
                    spec_filter(fv, consumed)
                }),
            decreases st.outputs().len(),
        {
            let ghost before = st.outputs();
            match st.next() {
                None => {
                    proof {
                        assert(consumed + Seq::<MsgView>::empty() =~= consumed);
                        lemma_eager_prefix(total, consumed);
                        lemma_filter_keeps_valid(fv, consumed);
                        if do_merge {
                            lemma_merge_keeps_valid(spec_filter(fv, consumed));
                        }
                    }
                    let text = render_output(&processed, cfg, format);
                    return Ok(text);
                },
                Some(Err(e)) => {
                    return Err(e);
                },
                Some(Ok(m)) => {
                    proof {
                        assert(before[0] == Ok::<MsgView, ParseError>(m@));
                        if let Ok(rest2) = eager_of(before.drop_first()) {
                            assert(eager_of(before) == Ok::<Seq<MsgView>, ParseError>(
                                seq![m@] + rest2,
                            ));
                            assert(consumed + (seq![m@] + rest2) =~= consumed.push(m@) + rest2);
                        }
                    }
                    let keep = keeps_record(filter, &m);
                    proof {
                        reveal(Seq::filter);
                        let longer = consumed.push(m@);
                        assert(longer.drop_last() =~= consumed);
                        assert(longer.last() == m@);
                        if keep {
                            assert(spec_filter(fv, longer) == spec_filter(fv, consumed).push(m@));
                        } else {
                            assert(spec_filter(fv, longer) == spec_filter(fv, consumed));
                        }
                    }
                    if keep {
                        if do_merge {
                            crate::merge::merge_push(&mut processed, &m);
                            proof {
                                let kept = spec_filter(fv, consumed.push(m@));
                                assert(kept.drop_last() =~= spec_filter(fv, consumed));
                                assert(kept.last() == m@);
                                assert(spec_merge(kept) == merge_step(
                                    spec_merge(spec_filter(fv, consumed)),
                                    m@,
                                ));
                            }
                        } else {
                            processed.push(m);
                            proof {
                                assert(processed.deep_view() =~= spec_filter(
                                    fv,
                                    consumed,
                                ).push(m@));
                            }
                        }
                    }
                    proof {
                        consumed = consumed.push(m@);
                    }
                },
            }
        }
    } else {
        let msgs = match parse_export(platform, content) {
            Ok(v) => v,
            Err(e) => {
                return Err(e);
            },
        };
        proof {
            lemma_eager_all(platform_outputs(platform, content@)->Ok_0, msgs.deep_view());
            lemma_filter_keeps_valid(filter@, msgs.deep_view());
        }
        let kept = crate::filter::apply_filters(msgs, filter);
        let processed = if do_merge {
            proof {
                lemma_merge_keeps_valid(kept.deep_view());
            }
            crate::merge::merge_consecutive(kept)
        } else {
            kept
        };
        let text = render_output(&processed, cfg, format);
        Ok(text)
    }
}

/// Cross-mode equivalence, at the record level: eager reading of a record
/// stream succeeds exactly when every pull succeeds, and then yields
/// exactly the pulled records in order. Together with the contracts of
/// [`MessageStream::next`] and [`parse_export`], which tie both execution
/// modes to one extraction model, eager and lazy execution followed by the
/// same serializer produce identical output.
pub proof fn lemma_cross_mode_equivalence(outs: Seq<Result<MsgView, ParseError>>)
    ensures
        eager_of(outs) is Ok <==> (forall|i: int| 0 <= i < outs.len() ==> (#[trigger] outs[i])
            is Ok),
        eager_of(outs) is Ok ==> eager_of(outs)->Ok_0 == Seq::new(
            outs.len(),
            |i: int| outs[i]->Ok_0,
        ),
    decreases outs.len(),
{
    if outs.len() > 0 {
        lemma_cross_mode_equivalence(outs.drop_first());
        match outs[0] {
            Ok(m) => {
                if eager_of(outs.drop_first()) is Ok {
                    assert forall|i: int| 0 <= i < outs.len() implies (#[trigger] outs[i])
                        is Ok by {
                        if i > 0 {
                            assert(outs.drop_first()[i - 1] is Ok);
                        }
                    }
                    assert(eager_of(outs)->Ok_0 =~= Seq::new(outs.len(), |i: int| outs[i]->Ok_0));
                } else {
                    let j = choose|j: int|
                        0 <= j < outs.drop_first().len() && !((#[trigger] outs.drop_first()[j])
                            is Ok);
                    assert(!(outs[j + 1] is Ok));
                }
            },
            Err(e) => {
                assert(!(outs[0] is Ok));
            },
        }
    }
}

/// A successful eager read of a stream whose records are all valid yields
/// valid records.
proof fn lemma_eager_all(outs: Seq<Result<MsgView, ParseError>>, msgs: Seq<MsgView>)
    requires
        forall|k: int| 0 <= k < outs.len() && outs[k] is Ok ==> msg_valid((#[trigger] outs[k])->Ok_0),
        eager_of(outs) == Ok::<Seq<MsgView>, ParseError>(msgs),
    ensures
        msgs_valid(msgs),
    decreases outs.len(),
{
    if outs.len() > 0 {
        let rest = eager_of(outs.drop_first())->Ok_0;
        assert(forall|k: int|
            0 <= k < outs.drop_first().len() && outs.drop_first()[k] is Ok ==> msg_valid(
                (#[trigger] outs.drop_first()[k])->Ok_0,
            ));
        lemma_eager_all(outs.drop_first(), rest);
        assert forall|k: int| 0 <= k < msgs.len() implies msg_valid(#[trigger] msgs[k]) by {
            if k > 0 {
                assert(msgs[k] == rest[k - 1]);
            }
        }
    }
}

/// The records consumed so far from a stream whose eager read is still
/// possible are all valid.
proof fn lemma_eager_prefix(total: Seq<Result<MsgView, ParseError>>, consumed: Seq<MsgView>)
    requires
        forall|k: int|
            0 <= k < total.len() && total[k] is Ok ==> msg_valid((#[trigger] total[k])->Ok_0),
        eager_of(total) == Ok::<Seq<MsgView>, ParseError>(consumed),
    ensures
        msgs_valid(consumed),
{
    lemma_eager_all(total, consumed);
}

/// The filter stage keeps only records of its input, so it preserves
/// validity.
proof fn lemma_filter_keeps_valid(f: FilterView, s: Seq<MsgView>)
    requires
        msgs_valid(s),
    ensures
        msgs_valid(spec_filter(f, s)),
    decreases s.len(),
{
    reveal(Seq::filter);
    if s.len() > 0 {
        assert(forall|k: int| 0 <= k < s.drop_last().len() ==> msg_valid(#[trigger] s.drop_last()[k]));
        lemma_filter_keeps_valid(f, s.drop_last());
        let pred = |m: MsgView| keeps(f, m);
        let out = s.filter(pred);
        let prev = s.drop_last().filter(pred);
        assert forall|k: int| 0 <= k < out.len() implies msg_valid(#[trigger] out[k]) by {
            if pred(s.last()) {
                if k < out.len() - 1 {
                    assert(out[k] == prev[k]);
                }
                assert(msg_valid(s.last()));
            } else {
                assert(out[k] == prev[k]);
            }
        }
    }
}

/// The merge stage folds valid records into valid records.
proof fn lemma_merge_keeps_valid(s: Seq<MsgView>)
    requires
        msgs_valid(s),
    ensures
        msgs_valid(spec_merge(s)),
    decreases s.len(),
{
    if s.len() > 0 {
        assert(forall|k: int| 0 <= k < s.drop_last().len() ==> msg_valid(#[trigger] s.drop_last()[k]));
        lemma_merge_keeps_valid(s.drop_last());
        let prev = spec_merge(s.drop_last());
        let out = spec_merge(s);
        let m = s.last();
        assert(msg_valid(m));
        assert forall|k: int| 0 <= k < out.len() implies msg_valid(#[trigger] out[k]) by {
            if prev.len() > 0 && prev.last().sender == m.sender {
                if k < out.len() - 1 {
                    assert(out[k] == prev[k]);
                } else {
                    assert(msg_valid(prev.last()));
                }
            } else {
                if k < out.len() - 1 {
                    assert(out[k] == prev[k]);
                }
            }
        }
    }
}

/// Every record a platform's extraction rules emit is well-formed: a
/// non-empty sender and valid date-time fields.
pub proof fn lemma_outputs_valid(p: Platform, s: Seq<char>)
    ensures
        platform_outputs(p, s) matches Ok(outs) ==> forall|k: int|
            0 <= k < outs.len() && outs[k] is Ok ==> msg_valid((#[trigger] outs[k])->Ok_0),
{
    match p {
        Platform::Telegram => {
            let ex = kind_extractor(StreamKind::TelegramJson);
            assert forall|e: JsonRep| (#[trigger] ex(e)) is Msg implies msg_valid(
                ex(e)->Msg_0,
            ) by {
                lemma_extractors_valid(e);
            }
            lemma_json_platform_valid(s, ex);
        },
        Platform::Instagram => {
            let ex = kind_extractor(StreamKind::InstagramJson);
            assert forall|e: JsonRep| (#[trigger] ex(e)) is Msg implies msg_valid(
                ex(e)->Msg_0,
            ) by {
                lemma_extractors_valid(e);
            }
            lemma_json_platform_valid(s, ex);
        },
        Platform::WhatsApp => {
            lemma_text_outputs_valid(spec_split_lines(s), 0);
        },
        Platform::Discord => {
            match hybrid_mode(s) {
                HybridMode::Json => {
                    let ex = kind_extractor(StreamKind::DiscordJson);
                    assert forall|e: JsonRep| (#[trigger] ex(e)) is Msg implies msg_valid(
                        ex(e)->Msg_0,
                    ) by {
                        lemma_extractors_valid(e);
                    }
                    lemma_json_platform_valid(s, ex);
                },
                HybridMode::DelimitedText => {
                    lemma_csv_outputs_valid(spec_split_lines(s), 1);
                },
                HybridMode::Text => {
                    lemma_text_outputs_valid(spec_split_lines(s), 0);
                },
            }
        },
    }
}

/// Any of the three JSON extraction rules emits only well-formed records.
proof fn lemma_extractors_valid(e: JsonRep)
    ensures
        telegram_event(e) matches EventOut::Msg(m) ==> msg_valid(m),
        instagram_event(e) matches EventOut::Msg(m) ==> msg_valid(m),
        discord_event(e) matches EventOut::Msg(m) ==> msg_valid(m),
{
}

proof fn lemma_json_platform_valid(s: Seq<char>, ex: spec_fn(JsonRep) -> EventOut)
    requires
        forall|e: JsonRep| (#[trigger] ex(e)) is Msg ==> msg_valid(ex(e)->Msg_0),
    ensures
        json_platform_outputs(s, ex) matches Ok(outs) ==> forall|k: int|
            0 <= k < outs.len() && outs[k] is Ok ==> msg_valid((#[trigger] outs[k])->Ok_0),
{
    if let Some(doc) = spec_parse_json(s) {
        if let Some(evts) = doc_events(doc) {
            lemma_json_outputs_valid(evts, 0, ex);
        }
    }
}

proof fn lemma_json_outputs_valid(events: Seq<JsonRep>, i: int, ex: spec_fn(JsonRep) -> EventOut)
    requires
        forall|e: JsonRep| (#[trigger] ex(e)) is Msg ==> msg_valid(ex(e)->Msg_0),
    ensures
        forall|k: int|
            0 <= k < json_outputs(events, i, ex).len() && json_outputs(events, i, ex)[k] is Ok
                ==> msg_valid((#[trigger] json_outputs(events, i, ex)[k])->Ok_0),
    decreases events.len() - i,
{
    if 0 <= i < events.len() {
        lemma_json_outputs_valid(events, i + 1, ex);
        let rest = json_outputs(events, i + 1, ex);
        let out = json_outputs(events, i, ex);
        match ex(events[i]) {
            EventOut::Skip => {},
            EventOut::Msg(m) => {
                assert forall|k: int| 0 <= k < out.len() && out[k] is Ok implies msg_valid(
                    (#[trigger] out[k])->Ok_0,
                ) by {
                    if k > 0 {
                        assert(out[k] == rest[k - 1]);
                    }
                }
            },
            EventOut::Bad => {
                assert forall|k: int| 0 <= k < out.len() && out[k] is Ok implies msg_valid(
                    (#[trigger] out[k])->Ok_0,
                ) by {
                    if k > 0 {
                        assert(out[k] == rest[k - 1]);
                    }
                }
            },
        }
    }
}

/// A record opened by a header line and extended by continuation folds is
/// well-formed.
proof fn lemma_text_outputs_valid(lines: Seq<Seq<char>>, i: int)
    ensures
        forall|k: int|
            0 <= k < text_outputs(lines, i).len() && text_outputs(lines, i)[k] is Ok ==> msg_valid(
                (#[trigger] text_outputs(lines, i)[k])->Ok_0,
            ),
    decreases lines.len() - i,
{
    if 0 <= i < lines.len() {
        let out = text_outputs(lines, i);
        match crate::lines::header_parse(lines[i]) {
            None => {
                lemma_text_outputs_valid(lines, i + 1);
                let rest = text_outputs(lines, i + 1);
                assert forall|k: int| 0 <= k < out.len() && out[k] is Ok implies msg_valid(
                    (#[trigger] out[k])->Ok_0,
                ) by {
                    if k > 0 {
                        assert(out[k] == rest[k - 1]);
                    }
                }
            },
            Some((ts, sender, c0)) => {
                let e = crate::lines::cont_end(lines, i + 1);
                if i < e <= lines.len() {
                    lemma_text_outputs_valid(lines, e);
                    let rest = text_outputs(lines, e);
                    let line = lines[i];
                    lemma_find_sep_ge(line, 23);
                    let k = crate::lines::find_sep(line, 23)->0;
                    assert(k >= 23);
                    assert(sender == line.subrange(22, k));
                    assert(sender.len() > 0);
                    assert(crate::time::timestamp_valid(ts));
                    let m0 = crate::lines::header_msg(ts, sender, c0);
                    assert(msg_valid(m0));
                    lemma_wa_fold_valid(lines, i + 1, e, m0);
                    assert forall|k: int| 0 <= k < out.len() && out[k] is Ok implies msg_valid(
                        (#[trigger] out[k])->Ok_0,
                    ) by {
                        if k > 0 {
                            assert(out[k] == rest[k - 1]);
                        }
                    }
                }
            },
        }
    }
}

/// The separator search starts no earlier than where it was asked to.
proof fn lemma_find_sep_ge(line: Seq<char>, k: int)
    ensures
        crate::lines::find_sep(line, k) matches Some(p) ==> k <= p < line.len(),
    decreases line.len() - k,
{
    if 0 <= k < line.len() {
        if !(line[k] == ':' && k + 1 < line.len() && line[k + 1] == ' ') {
            lemma_find_sep_ge(line, k + 1);
        }
    }
}

/// Folding continuation lines preserves well-formedness.
proof fn lemma_wa_fold_valid(lines: Seq<Seq<char>>, j: int, end: int, m: MsgView)
    requires
        msg_valid(m),
    ensures
        msg_valid(crate::lines::wa_fold(lines, j, end, m)),
    decreases end - j,
{
    if 0 <= j < end {
        lemma_wa_fold_valid(lines, j + 1, end, crate::lines::append_cont(m, lines[j]));
    }
}

/// Every record read from a delimited-text row is well-formed.
proof fn lemma_csv_outputs_valid(lines: Seq<Seq<char>>, i: int)
    ensures
        forall|k: int|
            0 <= k < csv_outputs(lines, i).len() && csv_outputs(lines, i)[k] is Ok ==> msg_valid(
                (#[trigger] csv_outputs(lines, i)[k])->Ok_0,
            ),
    decreases lines.len() - i,
{
    if 0 <= i < lines.len() {
        lemma_csv_outputs_valid(lines, i + 1);
        let out = csv_outputs(lines, i);
        let rest = csv_outputs(lines, i + 1);
        assert forall|k: int| 0 <= k < out.len() && out[k] is Ok implies msg_valid(
            (#[trigger] out[k])->Ok_0,
        ) by {
            if k > 0 {
                assert(out[k] == rest[k - 1]);
            }
        }
    }
}

} // verus!
