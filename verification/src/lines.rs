//! Line-oriented input: splitting text into lines, the header-plus-
//! continuation rule of the line-oriented export, and the delimited-text
//! reading rule of the hybrid export.
//!
//! A line-oriented message starts with a header line of the fixed shape
//! `[YYYY-MM-DD HH:MM:SS] Sender: content`; any following line that does
//! not match the header shape continues the previous message's content,
//! joined with a line break. A line before any header is a record-level
//! error. The optional trailing marker ` <edited>` on any content line is
//! stripped and marks the message as edited at its own timestamp.

use vstd::prelude::*;

use crate::datetime::spec_parse_datetime;
use crate::record::MsgView;
use crate::record::ParseError;
use crate::time::Timestamp;

verus! {

/// The first position at or after `i` holding a line break.
pub open spec fn line_end(s: Seq<char>, i: int) -> int
    decreases s.len() - i,
{
    if 0 <= i < s.len() && s[i] != '\n' {
        line_end(s, i + 1)
    } else {
        i
    }
}

pub proof fn lemma_line_end_bounds(s: Seq<char>, i: int)
    requires
        0 <= i <= s.len(),
    ensures
        i <= line_end(s, i) <= s.len(),
    decreases s.len() - i,
{
    if i < s.len() && s[i] != '\n' {
        lemma_line_end_bounds(s, i + 1);
    }
}

/// The lines of `s` from position `i`: maximal line-break-free runs, with
/// the line breaks dropped. A trailing line break ends the last line rather
/// than opening an empty one.
pub open spec fn split_from(s: Seq<char>, i: int) -> Seq<Seq<char>>
    decreases s.len() - i,
{
    if !(0 <= i < s.len()) {
        Seq::empty()
    } else {
        let e = line_end(s, i);
        if !(i <= e <= s.len()) {
            Seq::empty()
        } else if e >= s.len() {
            seq![s.subrange(i, e)]
        } else {
            seq![s.subrange(i, e)] + split_from(s, e + 1)
        }
    }
}

/// The lines of a whole text.
pub open spec fn spec_split_lines(s: Seq<char>) -> Seq<Seq<char>> {
    split_from(s, 0)
}

/// A copy of `v[a..b]`.
pub fn subrange_chars(v: &Vec<char>, a: usize, b: usize) -> (r: Vec<char>)
    requires
        a <= b <= v@.len(),
    ensures
        r@ == v@.subrange(a as int, b as int),
{
    let mut out: Vec<char> = Vec::new();
    let mut i = a;
    while i < b
        invariant
            a <= i <= b,
            out@ == v@.subrange(a as int, i as int),
        decreases b - i,
    {
        out.push(v[i]);
        proof {
            assert(v@.subrange(a as int, i as int).push(v@[i as int]) =~= v@.subrange(
                a as int,
                i + 1 as int,
            ));
        }
        i = i + 1;
    }
    out
}

/// Splits a text into its lines.
pub fn split_lines_chars(v: &Vec<char>) -> (r: Vec<Vec<char>>)
    ensures
        r.deep_view() == spec_split_lines(v@),
{
    let mut out: Vec<Vec<char>> = Vec::new();
    let mut i: usize = 0;
    proof {
        assert(out.deep_view() + split_from(v@, 0) =~= split_from(v@, 0));
    }
    while i < v.len()
        invariant
            i <= v@.len(),
            out.deep_view() + split_from(v@, i as int) == spec_split_lines(v@),
        decreases v@.len() - i,
    {
        let mut e = i;
        while e < v.len() && v[e] != '\n'
            invariant
                i <= e <= v@.len(),
                line_end(v@, i as int) == line_end(v@, e as int),
            decreases v@.len() - e,
        {
            e = e + 1;
        }
        let line = subrange_chars(v, i, e);
        let ghost old_out = out.deep_view();
        out.push(line);
        proof {
            assert(out.deep_view() =~~= old_out.push(line@));
        }
        if e < v.len() {
            proof {
                assert(old_out + (seq![line@] + split_from(v@, e + 1 as int)) =~= old_out.push(
                    line@,
                ) + split_from(v@, e + 1 as int));
            }
            i = e + 1;
        } else {
            proof {
                assert(old_out + seq![line@] =~= old_out.push(line@));
                assert(out.deep_view() + split_from(v@, e as int) =~= out.deep_view());
            }
            i = e;
        }
    }
    proof {
        assert(out.deep_view() + split_from(v@, i as int) =~= out.deep_view());
    }
    out
}

/// The trailing marker that flags an edited message.
pub open spec fn edited_marker() -> Seq<char> {
    seq![' ', '<', 'e', 'd', 'i', 't', 'e', 'd', '>']
}

/// Strips the trailing edited marker from a content line, if present, and
/// reports whether it was there.
pub open spec fn strip_edited(c: Seq<char>) -> (Seq<char>, bool) {
    if c.len() >= 9 && c.subrange(c.len() - 9, c.len() as int) == edited_marker() {
        (c.subrange(0, c.len() - 9), true)
    } else {
        (c, false)
    }
}

/// Strips the trailing edited marker, executably.
pub fn strip_edited_chars(c: &Vec<char>) -> (r: (Vec<char>, bool))
    ensures
        (r.0@, r.1) == strip_edited(c@),
{
    let n = c.len();
    if n >= 9 && c[n - 9] == ' ' && c[n - 8] == '<' && c[n - 7] == 'e' && c[n - 6] == 'd' && c[n
        - 5] == 'i' && c[n - 4] == 't' && c[n - 3] == 'e' && c[n - 2] == 'd' && c[n - 1] == '>' {
        proof {
            assert(c@.subrange(n - 9, n as int) =~= edited_marker());
        }
        (subrange_chars(c, 0, n - 9), true)
    } else {
        proof {
            if c@.len() >= 9 {
                assert(c@.subrange(n - 9, n as int) != edited_marker() ==> strip_edited(c@) == (
                    c@,
                    false,
                ));
                if c@.subrange(n - 9, n as int) == edited_marker() {
                    assert(c@[n - 9] == ' ' && c@[n - 8] == '<' && c@[n - 7] == 'e' && c@[n - 6]
                        == 'd' && c@[n - 5] == 'i' && c@[n - 4] == 't' && c@[n - 3] == 'e' && c@[n
                        - 2] == 'd' && c@[n - 1] == '>');
                }
            }
        }
        (subrange_chars(c, 0, n), false)
    }
}

/// The first position at or after `k` where `: ` separates sender from
/// content.
pub open spec fn find_sep(line: Seq<char>, k: int) -> Option<int>
    decreases line.len() - k,
{
    if !(0 <= k < line.len()) {
        None
    } else if line[k] == ':' && k + 1 < line.len() && line[k + 1] == ' ' {
        Some(k)
    } else {
        find_sep(line, k + 1)
    }
}

/// Parses a header line `[YYYY-MM-DD HH:MM:SS] Sender: content` into the
/// timestamp, the sender (non-empty, up to the first `: `), and the raw
/// content.
pub open spec fn header_parse(line: Seq<char>) -> Option<(Timestamp, Seq<char>, Seq<char>)> {
    if !(line.len() >= 22 && line[0] == '[' && line[20] == ']' && line[21] == ' ') {
        None
    } else {
        match spec_parse_datetime(line.subrange(1, 20)) {
            Some(ts) => match find_sep(line, 23) {
                Some(k) => Some((ts, line.subrange(22, k), line.subrange(k + 2, line.len() as int))),
                None => None,
            },
            None => None,
        }
    }
}

/// Parses a header line, executably.
pub fn header_parse_chars(line: &Vec<char>) -> (r: Option<(Timestamp, Vec<char>, Vec<char>)>)
    ensures
        match r {
            Some((ts, sender, content)) => header_parse(line@) == Some((ts, sender@, content@)),
            None => header_parse(line@) is None,
        },
{
    let n = line.len();
    if !(n >= 22 && line[0] == '[' && line[20] == ']' && line[21] == ' ') {
        return None;
    }
    let ts_txt = subrange_chars(line, 1, 20);
    let ts = match crate::datetime::parse_datetime_chars(&ts_txt) {
        Some(t) => t,
        None => {
            return None;
        },
    };
    if n <= 23 {
        return None;
    }
    let mut k: usize = 23;
    while !(k >= n || (line[k] == ':' && k + 1 < n && line[k + 1] == ' '))
        invariant
            23 <= k <= n,
            n == line@.len(),
            find_sep(line@, 23) == find_sep(line@, k as int),
        decreases n - k,
    {
        k = k + 1;
    }
    if k >= n {
        return None;
    }
    let sender = subrange_chars(line, 22, k);
    let content = subrange_chars(line, k + 2, n);
    Some((ts, sender, content))
}

/// The canonical record opened by a header line, before continuations.
pub open spec fn header_msg(ts: Timestamp, sender: Seq<char>, content0: Seq<char>) -> MsgView {
    let (c, e) = strip_edited(content0);
    MsgView {
        sender,
        content: c,
        timestamp: ts,
        id: None,
        reply_to: None,
        edited_at: if e {
            Some(ts)
        } else {
            None
        },
    }
}

/// Folds one continuation line into the in-progress record.
pub open spec fn append_cont(m: MsgView, line: Seq<char>) -> MsgView {
    let (c, e) = strip_edited(line);
    MsgView {
        content: m.content + seq!['\n'] + c,
        edited_at: if e {
            Some(m.timestamp)
        } else {
            m.edited_at
        },
        ..m
    }
}

/// The first position at or after `j` holding a header line.
pub open spec fn cont_end(lines: Seq<Seq<char>>, j: int) -> int
    decreases lines.len() - j,
{
    if 0 <= j < lines.len() && header_parse(lines[j]) is None {
        cont_end(lines, j + 1)
    } else {
        j
    }
}

/// The record after folding the continuation lines `j..end` into `m`.
pub open spec fn wa_fold(lines: Seq<Seq<char>>, j: int, end: int, m: MsgView) -> MsgView
    decreases end - j,
{
    if !(0 <= j < end) {
        m
    } else {
        wa_fold(lines, j + 1, end, append_cont(m, lines[j]))
    }
}

/// The record stream of a line-oriented export from line `i` on: a header
/// line opens a record and absorbs following continuation lines; a
/// non-header line outside any record is a record-level error carrying its
/// line index.
pub open spec fn text_outputs(lines: Seq<Seq<char>>, i: int) -> Seq<
    Result<MsgView, ParseError>,
>
    decreases lines.len() - i,
{
    if !(0 <= i < lines.len()) {
        Seq::empty()
    } else {
        match header_parse(lines[i]) {
            None => seq![Err(ParseError::Record(i as usize))] + text_outputs(lines, i + 1),
            Some((ts, sender, c0)) => {
                let e = cont_end(lines, i + 1);
                if !(i < e <= lines.len()) {
                    // `cont_end` stays within bounds; dead branch for the
                    // termination check.
                    Seq::empty()
                } else {
                    seq![Ok(wa_fold(lines, i + 1, e, header_msg(ts, sender, c0)))] + text_outputs(
                        lines,
                        e,
                    )
                }
            },
        }
    }
}

pub proof fn lemma_cont_end_bounds(lines: Seq<Seq<char>>, j: int)
    requires
        0 <= j <= lines.len(),
    ensures
        j <= cont_end(lines, j) <= lines.len(),
    decreases lines.len() - j,
{
    if j < lines.len() && header_parse(lines[j]) is None {
        lemma_cont_end_bounds(lines, j + 1);
    }
}

/// The header row that opens the hybrid export's delimited-text form.
pub open spec fn csv_header_line() -> Seq<char> {
    seq!['A', 'u', 't', 'h', 'o', 'r', ',', 'D', 'a', 't', 'e', ',', 'C', 'o', 'n', 't', 'e', 'n', 't']
}

/// The body of a quoted delimited-text field from `j` (just after the
/// opening quote): doubled quote characters denote one quote character.
pub open spec fn quoted_body(line: Seq<char>, j: int) -> Option<(Seq<char>, int)>
    decreases line.len() - j,
{
    if !(0 <= j < line.len()) {
        None
    } else if line[j] == '"' {
        if j + 1 < line.len() && line[j + 1] == '"' {
            match quoted_body(line, j + 2) {
                Some((rest, k)) => Some((seq!['"'] + rest, k)),
                None => None,
            }
        } else {
            Some((Seq::empty(), j + 1))
        }
    } else {
        match quoted_body(line, j + 1) {
            Some((rest, k)) => Some((seq![line[j]] + rest, k)),
            None => None,
        }
    }
}

/// The first position at or after `j` holding a comma.
pub open spec fn unq_end(line: Seq<char>, j: int) -> int
    decreases line.len() - j,
{
    if 0 <= j < line.len() && line[j] != ',' {
        unq_end(line, j + 1)
    } else {
        j
    }
}

/// One delimited-text field starting at `i`: quoted or verbatim.
pub open spec fn csv_field_at(line: Seq<char>, i: int) -> Option<(Seq<char>, int)> {
    if 0 <= i < line.len() && line[i] == '"' {
        quoted_body(line, i + 1)
    } else {
        let e = unq_end(line, i);
        if !(0 <= i <= e <= line.len()) {
            None
        } else {
            Some((line.subrange(i, e), e))
        }
    }
}

/// The fields of a delimited-text row from position `i`.
pub open spec fn csv_fields_from(line: Seq<char>, i: int) -> Option<Seq<Seq<char>>>
    decreases line.len() - i,
{
    match csv_field_at(line, i) {
        Some((f, j)) => {
            if !(0 <= i <= j <= line.len()) {
                None
            } else if j >= line.len() {
                Some(seq![f])
            } else if line[j] == ',' {
                match csv_fields_from(line, j + 1) {
                    Some(rest) => Some(seq![f] + rest),
                    None => None,
                }
            } else {
                None
            }
        },
        None => None,
    }
}

/// One data row of the hybrid export's delimited-text form: exactly the
/// fields `Author,Date,Content`, with a non-empty author and a well-formed
/// date-time.
pub open spec fn csv_row_msg(line: Seq<char>) -> Option<MsgView> {
    match csv_fields_from(line, 0) {
        Some(fs) => {
            if fs.len() == 3 && fs[0].len() > 0 {
                match spec_parse_datetime(fs[1]) {
                    Some(ts) => Some(
                        MsgView {
                            sender: fs[0],
                            content: fs[2],
                            timestamp: ts,
                            id: None,
                            reply_to: None,
                            edited_at: None,
                        },
                    ),
                    None => None,
                }
            } else {
                None
            }
        },
        None => None,
    }
}

/// The record stream of the delimited-text form from line `i` on: one
/// record per data row, a malformed row being a record-level error carrying
/// its line index.
pub open spec fn csv_outputs(lines: Seq<Seq<char>>, i: int) -> Seq<Result<MsgView, ParseError>>
    decreases lines.len() - i,
{
    if !(0 <= i < lines.len()) {
        Seq::empty()
    } else {
        match csv_row_msg(lines[i]) {
            Some(m) => seq![Ok(m)] + csv_outputs(lines, i + 1),
            None => seq![Err(ParseError::Record(i as usize))] + csv_outputs(lines, i + 1),
        }
    }
}

/// Parses one delimited-text field starting at `i`.
fn csv_field_chars(line: &Vec<char>, i: usize) -> (r: Option<(Vec<char>, usize)>)
    requires
        i <= line@.len(),
    ensures
        match r {
            Some((f, j)) => csv_field_at(line@, i as int) == Some((f@, j as int)) && i <= j
                <= line@.len(),
            None => csv_field_at(line@, i as int) is None,
        },
{
    if i < line.len() && line[i] == '"' {
        let mut out: Vec<char> = Vec::new();
        let mut j = i + 1;
        proof {
            if let Some((rest, e)) = quoted_body(line@, j as int) {
                assert(Seq::<char>::empty() + rest =~= rest);
            }
        }
        loop
            invariant
                i + 1 <= j <= line@.len(),
                match quoted_body(line@, j as int) {
                    Some((rest, e)) => quoted_body(line@, i + 1 as int) == Some((out@ + rest, e)),
                    None => quoted_body(line@, i + 1 as int) is None,
                },
            decreases line@.len() - j,
        {
            if j >= line.len() {
                return None;
            }
            let c = line[j];
            if c == '"' {
                if j + 1 < line.len() && line[j + 1] == '"' {
                    let ghost old_out = out@;
                    out.push('"');
                    proof {
                        lemma_quoted_step(line@, i + 1 as int, j as int, old_out, '"', j + 2 as int);
                    }
                    j = j + 2;
                } else {
                    proof {
                        assert(out@ + Seq::<char>::empty() =~= out@);
                    }
                    return Some((out, j + 1));
                }
            } else {
                let ghost old_out = out@;
                out.push(c);
                proof {
                    lemma_quoted_step(line@, i + 1 as int, j as int, old_out, c, j + 1 as int);
                }
                j = j + 1;
            }
        }
    } else {
        let mut e = i;
        while e < line.len() && line[e] != ','
            invariant
                i <= e <= line@.len(),
                unq_end(line@, i as int) == unq_end(line@, e as int),
            decreases line@.len() - e,
        {
            e = e + 1;
        }
        Some((subrange_chars(line, i, e), e))
    }
}

/// One step of the quoted-field loop.
proof fn lemma_quoted_step(
    line: Seq<char>,
    start: int,
    j: int,
    old_out: Seq<char>,
    c: char,
    next: int,
)
    requires
        quoted_body(line, j) == (match quoted_body(line, next) {
            Some((rest2, e2)) => Some::<(Seq<char>, int)>((seq![c] + rest2, e2)),
            None => None::<(Seq<char>, int)>,
        }),
        match quoted_body(line, j) {
            Some((rest, e)) => quoted_body(line, start) == Some((old_out + rest, e)),
            None => quoted_body(line, start) is None,
        },
    ensures
        match quoted_body(line, next) {
            Some((rest, e)) => quoted_body(line, start) == Some((old_out.push(c) + rest, e)),
            None => quoted_body(line, start) is None,
        },
{
    match quoted_body(line, next) {
        Some((rest2, e2)) => {
            assert(old_out + (seq![c] + rest2) =~= old_out.push(c) + rest2);
        },
        None => {},
    }
}

/// Parses one data row of the delimited-text form.
pub fn csv_row_msg_chars(line: &Vec<char>) -> (r: Option<crate::record::Message>)
    ensures
        match r {
            Some(m) => csv_row_msg(line@) == Some(m@),
            None => csv_row_msg(line@) is None,
        },
{
    let ghost expected = csv_fields_from(line@, 0);
    let mut fields: Vec<Vec<char>> = Vec::new();
    let mut i: usize = 0;
    proof {
        if let Some(rest) = csv_fields_from(line@, 0) {
            assert(fields.deep_view() + rest =~= rest);
        }
    }
    loop
        invariant
            i <= line@.len(),
            match csv_fields_from(line@, i as int) {
                Some(rest) => expected == Some(fields.deep_view() + rest),
                None => expected is None,
            },
            expected == csv_fields_from(line@, 0),
        decreases line@.len() - i, 1int,
    {
        let (f, j) = match csv_field_chars(line, i) {
            Some(p) => p,
            None => {
                return None;
            },
        };
        let ghost old_fields = fields.deep_view();
        fields.push(f);
        proof {
            assert(fields.deep_view() =~~= old_fields.push(f@));
        }
        if j >= line.len() {
            proof {
                assert(csv_fields_from(line@, i as int) == Some(seq![f@]));
                assert(old_fields + seq![f@] =~= fields.deep_view());
            }
            if fields.len() != 3 {
                return None;
            }
            proof {
                assert(fields.deep_view()[0] =~= fields@[0]@);
                assert(fields.deep_view()[1] =~= fields@[1]@);
                assert(fields.deep_view()[2] =~= fields@[2]@);
            }
            if fields[0].len() == 0 {
                return None;
            }
            let ts = match crate::datetime::parse_datetime_chars(&fields[1]) {
                Some(t) => t,
                None => {
                    return None;
                },
            };
            let sender = crate::text::chars_to_string(&fields[0]);
            let content = crate::text::chars_to_string(&fields[2]);
            return Some(
                crate::record::Message {
                    sender,
                    content,
                    timestamp: ts,
                    id: None,
                    reply_to: None,
                    edited_at: None,
                },
            );
        } else if line[j] == ',' {
            proof {
                if let Some(rest2) = csv_fields_from(line@, j + 1 as int) {
                    assert(csv_fields_from(line@, i as int) == Some(seq![f@] + rest2));
                    assert(old_fields + (seq![f@] + rest2) =~= fields.deep_view() + rest2);
                }
            }
            i = j + 1;
        } else {
            return None;
        }
    }
}

} // verus!
