//! The filter stage: a pure, per-record, stateless predicate reducer.
//!
//! Because the predicate inspects one record at a time, the stage composes
//! identically whether it runs over an eagerly materialized sequence or over
//! records pulled one at a time from the lazy source.

use vstd::prelude::*;

use crate::record::FilterConfig;
use crate::record::FilterView;
use crate::record::Message;
use crate::record::MsgView;
use crate::time::spec_date_le;
use crate::time::timestamp_date;

verus! {

/// Whether record `m` satisfies every configured predicate of `f`:
/// the conjunction of the inclusive date lower bound, the inclusive date
/// upper bound, and the sender-equality constraint, each a no-op when unset.
pub open spec fn keeps(f: FilterView, m: MsgView) -> bool {
    &&& (f.date_from is Some ==> spec_date_le(f.date_from->0, timestamp_date(m.timestamp)))
    &&& (f.date_to is Some ==> spec_date_le(timestamp_date(m.timestamp), f.date_to->0))
    &&& (f.sender is Some ==> m.sender == f.sender->0)
}

/// The ordered sub-sequence of `s` whose records satisfy `f`.
pub open spec fn spec_filter(f: FilterView, s: Seq<MsgView>) -> Seq<MsgView> {
    s.filter(|m: MsgView| keeps(f, m))
}

/// Whether record `m` satisfies every configured predicate of `f`.
pub fn keeps_record(f: &FilterConfig, m: &Message) -> (r: bool)
    ensures
        r == keeps(f@, m@),
{
    let date_ok = match &f.date_from {
        Some(lo) => {
            let d = m.timestamp.date();
            lo.le(&d)
        },
        None => true,
    };
    let date_hi_ok = match &f.date_to {
        Some(hi) => {
            let d = m.timestamp.date();
            d.le(hi)
        },
        None => true,
    };
    let sender_ok = match &f.sender {
        Some(who) => *who == m.sender,
        None => true,
    };
    date_ok && date_hi_ok && sender_ok
}

/// Returns, in order, exactly the records of `msgs` satisfying all
/// configured predicates of `f`.
pub fn apply_filters(msgs: Vec<Message>, f: &FilterConfig) -> (r: Vec<Message>)
    ensures
        r.deep_view() == spec_filter(f@, msgs.deep_view()),
{
    let ghost pred = |m: MsgView| keeps(f@, m);
    let mut out: Vec<Message> = Vec::new();
    let mut i: usize = 0;
    while i < msgs.len()
        invariant
            i <= msgs.len(),
            out.deep_view() == msgs.deep_view().subrange(0, i as int).filter(pred),
        decreases msgs.len() - i,
    {
        let ghost prefix = msgs.deep_view().subrange(0, i as int);
        let m = &msgs[i];
        let keep = keeps_record(f, m);
        if keep {
            out.push(m.duplicate());
        }
        proof {
            reveal(Seq::filter);
            let longer = msgs.deep_view().subrange(0, i + 1 as int);
            assert(longer.drop_last() =~= prefix);
            assert(longer.last() == m@);
            assert(longer.len() > 0);
            if keep {
                assert(pred(longer.last()));
                assert(longer.filter(pred) == prefix.filter(pred).push(m@));
                assert(out.deep_view() =~= prefix.filter(pred).push(m@));
            } else {
                assert(!pred(longer.last()));
                assert(longer.filter(pred) == prefix.filter(pred));
            }
        }
        i = i + 1;
    }
    proof {
        assert(msgs.deep_view().subrange(0, msgs.deep_view().len() as int) =~= msgs.deep_view());
    }
    out
}

/// Recursive sub-sequence relation: `a` is, in order, a selection of the
/// elements of `b`.
pub open spec fn is_subsequence_of(a: Seq<MsgView>, b: Seq<MsgView>) -> bool
    decreases b.len(),
{
    if a.len() == 0 {
        true
    } else if b.len() == 0 {
        false
    } else if a.last() == b.last() {
        is_subsequence_of(a.drop_last(), b.drop_last())
    } else {
        is_subsequence_of(a, b.drop_last())
    }
}

/// Removing the last element of a sub-sequence leaves a sub-sequence.
proof fn lemma_sub_drop(a: Seq<MsgView>, b: Seq<MsgView>)
    requires
        is_subsequence_of(a, b),
        a.len() > 0,
    ensures
        is_subsequence_of(a.drop_last(), b),
    decreases b.len(),
{
    if a.last() == b.last() {
        if a.drop_last().len() > 0 {
            if a.drop_last().last() == b.last() {
                lemma_sub_drop(a.drop_last(), b.drop_last());
            }
        }
    } else {
        lemma_sub_drop(a, b.drop_last());
        if a.drop_last().len() > 0 && a.drop_last().last() == b.last() {
            lemma_sub_drop(a.drop_last(), b.drop_last());
        }
    }
}

/// A sub-sequence of `b` is a sub-sequence of `b` with one more element.
proof fn lemma_subsequence_skip(a: Seq<MsgView>, b: Seq<MsgView>, m: MsgView)
    requires
        is_subsequence_of(a, b),
    ensures
        is_subsequence_of(a, b.push(m)),
{
    if a.len() != 0 {
        assert(b.push(m).drop_last() =~= b);
        assert(b.push(m).last() == m);
        if a.last() == m {
            lemma_sub_drop(a, b);
        }
    }
}

/// The filter stage yields a sub-sequence of its input: no record satisfying
/// all predicates is dropped (they are all in the output, by the very
/// definition of `Seq::filter`), none violating any predicate is kept, and
/// the original relative order is preserved.
pub proof fn lemma_filter_is_subsequence(f: FilterView, s: Seq<MsgView>)
    ensures
        is_subsequence_of(spec_filter(f, s), s),
        forall|i: int|
            0 <= i < spec_filter(f, s).len() ==> keeps(f, #[trigger] spec_filter(f, s)[i]),
        forall|i: int|
            0 <= i < s.len() && keeps(f, #[trigger] s[i]) ==> spec_filter(f, s).contains(s[i]),
    decreases s.len(),
{
    broadcast use vstd::seq_lib::group_seq_lib_default;

    reveal(Seq::filter);
    let pred = |m: MsgView| keeps(f, m);
    let out = s.filter(pred);
    if s.len() > 0 {
        lemma_filter_is_subsequence(f, s.drop_last());
        if pred(s.last()) {
            assert(out == s.drop_last().filter(pred).push(s.last()));
            assert(out.last() == s.last());
            assert(out.drop_last() =~= s.drop_last().filter(pred));
        } else {
            lemma_subsequence_skip(out, s.drop_last(), s.last());
            assert(s.drop_last().push(s.last()) =~= s);
        }
        assert forall|i: int| 0 <= i < s.len() && keeps(f, #[trigger] s[i]) implies out.contains(
            s[i],
        ) by {
            if i < s.len() - 1 {
                assert(s.drop_last()[i] == s[i]);
                let sub = s.drop_last().filter(pred);
                assert(sub.contains(s[i]));
                let j = choose|j: int| 0 <= j < sub.len() && sub[j] == s[i];
                if pred(s.last()) {
                    assert(out[j] == s[i]);
                }
            } else {
                assert(out.last() == s[i]);
            }
        }
    }
}

} // verus!
