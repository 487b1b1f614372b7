//! The canonical message record, the configuration values that drive the
//! filter stage and the serializers, and the engine's error type.

use vstd::prelude::*;

use crate::time::Date;
use crate::time::Timestamp;
use crate::time::date_valid;
use crate::time::timestamp_valid;
use crate::text::str_to_chars;
use crate::datetime::parse_date_chars;

verus! {

/// One normalized chat message, as produced by every parser variant.
///
/// `sender` and `content` are always present (`content` may be empty for
/// non-text events). `id` and `reply_to` share one identifier space;
/// a dangling `reply_to` is preserved as-is. `edited_at` is present only if
/// the source marks the message as edited. Records are immutable once
/// produced: the merge stage builds new records rather than mutating.
#[derive(Debug)]
pub struct Message {
    pub sender: String,
    pub content: String,
    pub timestamp: Timestamp,
    pub id: Option<i64>,
    pub reply_to: Option<i64>,
    pub edited_at: Option<Timestamp>,
}

/// The mathematical model of a [`Message`]: the same fields over sequences
/// of characters.
pub ghost struct MsgView {
    pub sender: Seq<char>,
    pub content: Seq<char>,
    pub timestamp: Timestamp,
    pub id: Option<i64>,
    pub reply_to: Option<i64>,
    pub edited_at: Option<Timestamp>,
}

impl View for Message {
    type V = MsgView;

    open spec fn view(&self) -> MsgView {
        MsgView {
            sender: self.sender@,
            content: self.content@,
            timestamp: self.timestamp,
            id: self.id,
            reply_to: self.reply_to,
            edited_at: self.edited_at,
        }
    }
}

impl DeepView for Message {
    type V = MsgView;

    open spec fn deep_view(&self) -> MsgView {
        self.view()
    }
}

/// Well-formedness of a canonical record: a non-empty sender and valid
/// date-time fields.
pub open spec fn msg_valid(m: MsgView) -> bool {
    &&& m.sender.len() > 0
    &&& timestamp_valid(m.timestamp)
    &&& m.edited_at is Some ==> timestamp_valid(m.edited_at->0)
}

pub open spec fn msgs_valid(s: Seq<MsgView>) -> bool {
    forall|i: int| 0 <= i < s.len() ==> #[trigger] msg_valid(s[i])
}

impl Message {
    /// A copy of this record.
    pub fn duplicate(&self) -> (r: Message)
        ensures
            r@ == self@,
    {
        Message {
            sender: self.sender.clone(),
            content: self.content.clone(),
            timestamp: self.timestamp,
            id: self.id,
            reply_to: self.reply_to,
            edited_at: self.edited_at,
        }
    }
}

/// Where in the pipeline an error arose.
///
/// `Document` is a structural parse error: the export's top-level shape is
/// unrecognizable, and the whole run aborts. `Record(i)` is a record-level
/// error at record index `i` (counting from zero over the source's message
/// events): fatal in eager mode, surfaced per record in lazy mode.
#[derive(Clone, Copy, Debug, PartialEq, Eq, Structural)]
pub enum ParseError {
    Document,
    Record(usize),
}

impl ParseError {
    /// A short human-readable description of the error.
    pub fn describe(&self) -> (r: String)
        ensures
            match *self {
                ParseError::Document => r@ == "malformed document structure"@,
                ParseError::Record(i) => r@ == "malformed record at index "@
                    + crate::text::dec_digits(i as int),
            },
    {
        match self {
            ParseError::Document => String::from_str("malformed document structure"),
            ParseError::Record(i) => {
                let mut s = String::from_str("malformed record at index ");
                let digits = crate::text::render_u64(*i as u64);
                crate::text::append_chars(&mut s, &digits);
                s
            },
        }
    }
}

/// The error returned when a filter bound is built from malformed date text.
#[derive(Clone, Copy, Debug, PartialEq, Eq, Structural)]
pub enum ConfigError {
    DateFormat,
}

impl ConfigError {
    /// A short human-readable description of the error.
    pub fn describe(&self) -> (r: String)
        ensures
            r@ == "invalid date, expected YYYY-MM-DD"@,
    {
        String::from_str("invalid date, expected YYYY-MM-DD")
    }
}

/// An immutable value holding the filter stage's predicates: an optional
/// inclusive lower-bound date, an optional inclusive upper-bound date, and
/// an optional sender-equality constraint.
#[derive(Debug)]
pub struct FilterConfig {
    pub date_from: Option<Date>,
    pub date_to: Option<Date>,
    pub sender: Option<String>,
}

/// The mathematical model of a [`FilterConfig`].
pub ghost struct FilterView {
    pub date_from: Option<Date>,
    pub date_to: Option<Date>,
    pub sender: Option<Seq<char>>,
}

impl View for FilterConfig {
    type V = FilterView;

    open spec fn view(&self) -> FilterView {
        FilterView {
            date_from: self.date_from,
            date_to: self.date_to,
            sender: match self.sender {
                Some(ref s) => Some(s@),
                None => None,
            },
        }
    }
}

pub open spec fn filter_valid(f: FilterView) -> bool {
    &&& f.date_from is Some ==> date_valid(f.date_from->0)
    &&& f.date_to is Some ==> date_valid(f.date_to->0)
}

impl FilterConfig {
    /// A configuration with no predicates set: it keeps every record.
    pub fn new() -> (r: FilterConfig)
        ensures
            r@.date_from is None,
            r@.date_to is None,
            r@.sender is None,
    {
        FilterConfig { date_from: None, date_to: None, sender: None }
    }

    /// Sets the inclusive lower-bound date from text in `YYYY-MM-DD` form.
    /// Fails with a formatting error exactly on malformed input.
    pub fn with_date_from(self, s: &str) -> (r: Result<FilterConfig, ConfigError>)
        ensures
            match r {
                Ok(f) => {
                    &&& crate::datetime::spec_parse_date(s@) is Some
                    &&& f@.date_from == Some(crate::datetime::spec_parse_date(s@)->0)
                    &&& f@.date_to == self@.date_to
                    &&& f@.sender == self@.sender
                },
                Err(e) => {
                    &&& crate::datetime::spec_parse_date(s@) is None
                    &&& e == ConfigError::DateFormat
                },
            },
    {
        let chars = str_to_chars(s);
        match parse_date_chars(&chars) {
            Some(d) => Ok(FilterConfig { date_from: Some(d), ..self }),
            None => Err(ConfigError::DateFormat),
        }
    }

    /// Sets the inclusive upper-bound date from text in `YYYY-MM-DD` form.
    /// Fails with a formatting error exactly on malformed input.
    pub fn with_date_to(self, s: &str) -> (r: Result<FilterConfig, ConfigError>)
        ensures
            match r {
                Ok(f) => {
                    &&& crate::datetime::spec_parse_date(s@) is Some
                    &&& f@.date_to == Some(crate::datetime::spec_parse_date(s@)->0)
                    &&& f@.date_from == self@.date_from
                    &&& f@.sender == self@.sender
                },
                Err(e) => {
                    &&& crate::datetime::spec_parse_date(s@) is None
                    &&& e == ConfigError::DateFormat
                },
            },
    {
        let chars = str_to_chars(s);
        match parse_date_chars(&chars) {
            Some(d) => Ok(FilterConfig { date_to: Some(d), ..self }),
            None => Err(ConfigError::DateFormat),
        }
    }

    /// Sets the sender-equality constraint.
    pub fn with_sender(self, sender: &str) -> (r: FilterConfig)
        ensures
            r@.sender == Some(sender@),
            r@.date_from == self@.date_from,
            r@.date_to == self@.date_to,
    {
        FilterConfig { sender: Some(String::from_str(sender)), ..self }
    }
}

/// An immutable set of independent toggles selecting which optional fields
/// the serializers emit. Field presence in the output is driven solely by
/// this set; a toggled-on field whose value is absent renders as an explicit
/// empty or null marker, never omitted.
#[derive(Clone, Copy, Debug, PartialEq, Eq, Structural)]
pub struct OutputConfig {
    pub timestamps: bool,
    pub ids: bool,
    pub replies: bool,
    pub edited: bool,
}

impl OutputConfig {
    /// A configuration with every optional field toggled off.
    pub fn new() -> (r: OutputConfig)
        ensures
            r == (OutputConfig { timestamps: false, ids: false, replies: false, edited: false }),
    {
        OutputConfig { timestamps: false, ids: false, replies: false, edited: false }
    }

    /// Toggles message timestamps on.
    pub fn with_timestamps(self) -> (r: OutputConfig)
        ensures
            r == (OutputConfig { timestamps: true, ..self }),
    {
        OutputConfig { timestamps: true, ..self }
    }

    /// Toggles message identifiers on.
    pub fn with_ids(self) -> (r: OutputConfig)
        ensures
            r == (OutputConfig { ids: true, ..self }),
    {
        OutputConfig { ids: true, ..self }
    }

    /// Toggles reply references on.
    pub fn with_replies(self) -> (r: OutputConfig)
        ensures
            r == (OutputConfig { replies: true, ..self }),
    {
        OutputConfig { replies: true, ..self }
    }

    /// Toggles edit timestamps on.
    pub fn with_edited(self) -> (r: OutputConfig)
        ensures
            r == (OutputConfig { edited: true, ..self }),
    {
        OutputConfig { edited: true, ..self }
    }
}

} // verus!
