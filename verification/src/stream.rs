//! The lazy record source: a finite, single-pass, non-restartable producer
//! of canonical records.
//!
//! Each pull yields the next record, a record-level error (the source stays
//! pullable afterwards), or the end of input. The source holds only the
//! already-parsed document structure and one index; the record being
//! assembled is built inside one pull. Pulling from one source from two
//! places at once is a misuse: the source is a single-consumer value, and
//! Rust's ownership rules already forbid sharing it.

use vstd::prelude::*;

use crate::extract::EventOut;
use crate::extract::ExtractOut;
use crate::extract::telegram_event;
use crate::extract::instagram_event;
use crate::extract::discord_event;
use crate::json::JsonRep;
use crate::json::JsonValue;
use crate::json_parse::items_rep;
use crate::lines::append_cont;
use crate::lines::cont_end;
use crate::lines::csv_outputs;
use crate::lines::header_msg;
use crate::lines::header_parse;
use crate::lines::text_outputs;
use crate::lines::wa_fold;
use crate::record::Message;
use crate::record::MsgView;
use crate::record::ParseError;

verus! {

/// Which extraction rule a source applies.
#[derive(Clone, Copy, Debug, PartialEq, Eq, Structural)]
pub enum StreamKind {
    TelegramJson,
    InstagramJson,
    DiscordJson,
    Text,
    DelimitedText,
}

/// The extraction rule of a JSON-shaped source, as a model function.
pub open spec fn kind_extractor(k: StreamKind) -> spec_fn(JsonRep) -> EventOut {
    match k {
        StreamKind::TelegramJson => |e: JsonRep| telegram_event(e),
        StreamKind::InstagramJson => |e: JsonRep| instagram_event(e),
        _ => |e: JsonRep| discord_event(e),
    }
}

/// The record stream of a JSON-shaped source from event `i` on: skipped
/// events yield nothing, messages yield records, malformed events yield
/// record-level errors carrying the event index.
pub open spec fn json_outputs(
    events: Seq<JsonRep>,
    i: int,
    ex: spec_fn(JsonRep) -> EventOut,
) -> Seq<Result<MsgView, ParseError>>
    decreases events.len() - i,
{
    if !(0 <= i < events.len()) {
        Seq::empty()
    } else {
        match ex(events[i]) {
            EventOut::Skip => json_outputs(events, i + 1, ex),
            EventOut::Msg(m) => seq![Ok(m)] + json_outputs(events, i + 1, ex),
            EventOut::Bad => seq![Err(ParseError::Record(i as usize))] + json_outputs(
                events,
                i + 1,
                ex,
            ),
        }
    }
}

/// A lazy source of canonical records over one parsed export.
pub struct MessageStream {
    kind: StreamKind,
    events: Vec<JsonValue>,
    lines: Vec<Vec<char>>,
    idx: usize,
}

impl MessageStream {
    /// The source's position stays within its input.
    pub closed spec fn wf(&self) -> bool {
        match self.kind {
            StreamKind::Text => self.idx <= self.lines@.len(),
            StreamKind::DelimitedText => self.idx <= self.lines@.len(),
            _ => self.idx <= self.events@.len(),
        }
    }

    /// The records and record-level errors this source will still yield,
    /// in order.
    pub closed spec fn outputs(&self) -> Seq<Result<MsgView, ParseError>> {
        match self.kind {
            StreamKind::Text => text_outputs(self.lines.deep_view(), self.idx as int),
            StreamKind::DelimitedText => csv_outputs(self.lines.deep_view(), self.idx as int),
            _ => json_outputs(items_rep(self.events@), self.idx as int, kind_extractor(self.kind)),
        }
    }

    /// A source over the events of a JSON-shaped export.
    pub fn from_events(kind: StreamKind, events: Vec<JsonValue>) -> (r: MessageStream)
        requires
            kind == StreamKind::TelegramJson || kind == StreamKind::InstagramJson || kind
                == StreamKind::DiscordJson,
        ensures
            r.wf(),
            r.outputs() == json_outputs(items_rep(events@), 0, kind_extractor(kind)),
    {
        MessageStream { kind, events, lines: Vec::new(), idx: 0 }
    }

    /// A source over the lines of a line-oriented export.
    pub fn from_lines(lines: Vec<Vec<char>>) -> (r: MessageStream)
        ensures
            r.wf(),
            r.outputs() == text_outputs(lines.deep_view(), 0),
    {
        MessageStream { kind: StreamKind::Text, events: Vec::new(), lines, idx: 0 }
    }

    /// A source over the data rows of a delimited-text export, below its
    /// header row.
    pub fn from_csv_lines(lines: Vec<Vec<char>>) -> (r: MessageStream)
        requires
            lines@.len() >= 1,
        ensures
            r.wf(),
            r.outputs() == csv_outputs(lines.deep_view(), 1),
    {
        MessageStream { kind: StreamKind::DelimitedText, events: Vec::new(), lines, idx: 1 }
    }

    /// Pulls the next record. Yields the next canonical record, a
    /// record-level error after which the source stays pullable, or `None`
    /// at the end of input.
    pub fn next(&mut self) -> (r: Option<Result<Message, ParseError>>)
        requires
            old(self).wf(),
        ensures
            final(self).wf(),
            old(self).outputs().len() == 0 ==> r is None && final(self).outputs()
                == old(self).outputs(),
            old(self).outputs().len() > 0 ==> {
                &&& r is Some
                &&& (match r->0 {
                    Ok(m) => old(self).outputs()[0] == Ok::<MsgView, ParseError>(m@),
                    Err(e) => old(self).outputs()[0] == Err::<MsgView, ParseError>(e),
                })
                &&& final(self).outputs() == old(self).outputs().drop_first()
            },
    {
        match self.kind {
            StreamKind::Text => self.next_text(),
            StreamKind::DelimitedText => self.next_csv(),
            _ => self.next_json(),
        }
    }

    /// One pull over a JSON-shaped source.
    fn next_json(&mut self) -> (r: Option<Result<Message, ParseError>>)
        requires
            old(self).wf(),
            !(old(self).kind is Text),
            !(old(self).kind is DelimitedText),
        ensures
            final(self).wf(),
            old(self).outputs().len() == 0 ==> r is None && final(self).outputs()
                == old(self).outputs(),
            old(self).outputs().len() > 0 ==> {
                &&& r is Some
                &&& (match r->0 {
                    Ok(m) => old(self).outputs()[0] == Ok::<MsgView, ParseError>(m@),
                    Err(e) => old(self).outputs()[0] == Err::<MsgView, ParseError>(e),
                })
                &&& final(self).outputs() == old(self).outputs().drop_first()
            },
    {
        let ghost erep = items_rep(self.events@);
        let ghost ex = kind_extractor(self.kind);
        let mut i = self.idx;
        loop
            invariant
                self == old(self),
                self.idx <= i <= self.events@.len(),
                json_outputs(erep, i as int, ex) == old(self).outputs(),
            decreases self.events@.len() - i,
        {
            if i >= self.events.len() {
                self.idx = i;
                return None;
            }
            let out = match self.kind {
                StreamKind::TelegramJson => crate::extract::telegram_event_exec(&self.events[i]),
                StreamKind::InstagramJson => crate::extract::instagram_event_exec(&self.events[i]),
                _ => crate::extract::discord_event_exec(&self.events[i]),
            };
            proof {
                assert(erep[i as int] == self.events@[i as int].rep());
            }
            match out {
                ExtractOut::Skip => {
                    i = i + 1;
                },
                ExtractOut::Msg(m) => {
                    proof {
                        assert((seq![Ok::<MsgView, ParseError>(m@)] + json_outputs(
                            erep,
                            i + 1 as int,
                            ex,
                        )).drop_first() =~= json_outputs(erep, i + 1 as int, ex));
                    }
                    self.idx = i + 1;
                    return Some(Ok(m));
                },
                ExtractOut::Bad => {
                    let e = ParseError::Record(i);
                    proof {
                        assert((seq![Err::<MsgView, ParseError>(e)] + json_outputs(
                            erep,
                            i + 1 as int,
                            ex,
                        )).drop_first() =~= json_outputs(erep, i + 1 as int, ex));
                    }
                    self.idx = i + 1;
                    return Some(Err(e));
                },
            }
        }
    }

    /// One pull over a line-oriented source: a header line opens a record
    /// and absorbs the continuation lines that follow it.
    fn next_text(&mut self) -> (r: Option<Result<Message, ParseError>>)
        requires
            old(self).wf(),
            old(self).kind is Text,
        ensures
            final(self).wf(),
            old(self).outputs().len() == 0 ==> r is None && final(self).outputs()
                == old(self).outputs(),
            old(self).outputs().len() > 0 ==> {
                &&& r is Some
                &&& (match r->0 {
                    Ok(m) => old(self).outputs()[0] == Ok::<MsgView, ParseError>(m@),
                    Err(e) => old(self).outputs()[0] == Err::<MsgView, ParseError>(e),
                })
                &&& final(self).outputs() == old(self).outputs().drop_first()
            },
    {
        let ghost lns = self.lines.deep_view();
        let a = self.idx;
        if a >= self.lines.len() {
            return None;
        }
        proof {
            assert(lns[a as int] =~= self.lines@[a as int]@);
        }
        match crate::lines::header_parse_chars(&self.lines[a]) {
            None => {
                let e = ParseError::Record(a);
                proof {
                    assert((seq![Err::<MsgView, ParseError>(e)] + text_outputs(
                        lns,
                        a + 1 as int,
                    )).drop_first() =~= text_outputs(lns, a + 1 as int));
                }
                self.idx = a + 1;
                Some(Err(e))
            },
            Some((ts, sender, c0)) => {
                let (c, e0) = crate::lines::strip_edited_chars(&c0);
                let ghost m0 = header_msg(ts, sender@, c0@);
                let mut content = crate::text::chars_to_string(&c);
                let mut edited: Option<crate::time::Timestamp> = if e0 {
                    Some(ts)
                } else {
                    None
                };
                let mut j = a + 1;
                while j < self.lines.len() && !is_header_line(&self.lines[j])
                    invariant
                        a + 1 <= j <= lns.len(),
                        cont_end(lns, a + 1 as int) == cont_end(lns, j as int),
                        wa_fold(lns, a + 1 as int, j as int, m0) == (MsgView {
                            sender: sender@,
                            content: content@,
                            timestamp: ts,
                            id: None,
                            reply_to: None,
                            edited_at: edited,
                        }),
                    decreases lns.len() - j,
                {
                    proof {
                        assert(lns[j as int] =~= self.lines@[j as int]@);
                    }
                    let (cj, ej) = crate::lines::strip_edited_chars(&self.lines[j]);
                    content.append("\n");
                    crate::text::append_chars(&mut content, &cj);
                    if ej {
                        edited = Some(ts);
                    }
                    proof {
                        reveal_strlit("\n");
                        assert("\n"@ =~= seq!['\n']);
                        lemma_wa_fold_extend(lns, a + 1 as int, j as int, m0);
                        assert(append_cont(
                            wa_fold(lns, a + 1 as int, j as int, m0),
                            lns[j as int],
                        ).content =~= content@);
                    }
                    j = j + 1;
                }
                let msg = Message {
                    sender: crate::text::chars_to_string(&sender),
                    content,
                    timestamp: ts,
                    id: None,
                    reply_to: None,
                    edited_at: edited,
                };
                proof {
                    crate::lines::lemma_cont_end_bounds(lns, a + 1 as int);
                    if j < self.lines.len() {
                        assert(lns[j as int] =~= self.lines@[j as int]@);
                    }
                    assert(cont_end(lns, j as int) == j);
                    assert((seq![Ok::<MsgView, ParseError>(msg@)] + text_outputs(
                        lns,
                        j as int,
                    )).drop_first() =~= text_outputs(lns, j as int));
                }
                self.idx = j;
                Some(Ok(msg))
            },
        }
    }

    /// One pull over a delimited-text source.
    fn next_csv(&mut self) -> (r: Option<Result<Message, ParseError>>)
        requires
            old(self).wf(),
            old(self).kind is DelimitedText,
        ensures
            final(self).wf(),
            old(self).outputs().len() == 0 ==> r is None && final(self).outputs()
                == old(self).outputs(),
            old(self).outputs().len() > 0 ==> {
                &&& r is Some
                &&& (match r->0 {
                    Ok(m) => old(self).outputs()[0] == Ok::<MsgView, ParseError>(m@),
                    Err(e) => old(self).outputs()[0] == Err::<MsgView, ParseError>(e),
                })
                &&& final(self).outputs() == old(self).outputs().drop_first()
            },
    {
        let ghost lns = self.lines.deep_view();
        let a = self.idx;
        if a >= self.lines.len() {
            return None;
        }
        proof {
            assert(lns[a as int] =~= self.lines@[a as int]@);
        }
        match crate::lines::csv_row_msg_chars(&self.lines[a]) {
            Some(m) => {
                proof {
                    assert((seq![Ok::<MsgView, ParseError>(m@)] + csv_outputs(
                        lns,
                        a + 1 as int,
                    )).drop_first() =~= csv_outputs(lns, a + 1 as int));
                }
                self.idx = a + 1;
                Some(Ok(m))
            },
            None => {
                let e = ParseError::Record(a);
                proof {
                    assert((seq![Err::<MsgView, ParseError>(e)] + csv_outputs(
                        lns,
                        a + 1 as int,
                    )).drop_first() =~= csv_outputs(lns, a + 1 as int));
                }
                self.idx = a + 1;
                Some(Err(e))
            },
        }
    }
}

/// Whether a line matches the header shape.
fn is_header_line(line: &Vec<char>) -> (r: bool)
    ensures
        r == (header_parse(line@) is Some),
{
    match crate::lines::header_parse_chars(line) {
        Some(_) => true,
        None => false,
    }
}

/// Extending a partial continuation fold by one line folds that line in.
proof fn lemma_wa_fold_extend(lines: Seq<Seq<char>>, a: int, j: int, m: MsgView)
    requires
        0 <= a <= j,
    ensures
        wa_fold(lines, a, j + 1, m) == append_cont(wa_fold(lines, a, j, m), lines[j]),
    decreases j - a,
{
    if a < j {
        lemma_wa_fold_extend(lines, a + 1, j, append_cont(m, lines[a]));
    } else {
        if 0 <= a {
            assert(wa_fold(lines, a, a + 1, m) == wa_fold(lines, a + 1, a + 1, append_cont(m, lines[a])));
        }
    }
}

} // verus!
