//! The merge stage: a single left-to-right pass that collapses adjacent
//! same-sender records into one.
//!
//! The fold carries exactly one record of state (the current accumulator),
//! so it needs no look-ahead and runs identically whether fed by an eager
//! sequence or a lazy pull. When a record is folded into the accumulator,
//! the accumulator keeps its own `id`, `timestamp` and `reply_to` as the
//! representative values, while `edited_at` tracks the latest edit: it is
//! adopted from the incoming record only if that record is itself edited.

use vstd::prelude::*;

use crate::record::Message;
use crate::record::MsgView;

verus! {

/// Folds record `m` into accumulator `acc`: the contents are joined by a
/// line break, the accumulator's identifying fields stay, and `edited_at`
/// is adopted from `m` only if `m` is edited.
pub open spec fn fold_into(acc: MsgView, m: MsgView) -> MsgView {
    MsgView {
        sender: acc.sender,
        content: acc.content + seq!['\n'] + m.content,
        timestamp: acc.timestamp,
        id: acc.id,
        reply_to: acc.reply_to,
        edited_at: if m.edited_at is Some {
            m.edited_at
        } else {
            acc.edited_at
        },
    }
}

/// One step of the merge fold: `m` either folds into the last record of
/// `out` (same sender) or starts a new record.
pub open spec fn merge_step(out: Seq<MsgView>, m: MsgView) -> Seq<MsgView> {
    if out.len() > 0 && out.last().sender == m.sender {
        out.update(out.len() - 1, fold_into(out.last(), m))
    } else {
        out.push(m)
    }
}

/// The merged form of `s`: the left-to-right fold of `merge_step`.
pub open spec fn spec_merge(s: Seq<MsgView>) -> Seq<MsgView>
    decreases s.len(),
{
    if s.len() == 0 {
        Seq::empty()
    } else {
        merge_step(spec_merge(s.drop_last()), s.last())
    }
}

/// Performs one step of the merge fold on a materialized output: folds `m`
/// into the last record when the senders match, appends it otherwise.
pub fn merge_push(out: &mut Vec<Message>, m: &Message)
    ensures
        final(out).deep_view() == merge_step(old(out).deep_view(), m@),
{
    let same = out.len() > 0 && {
        let last = &out[out.len() - 1];
        last.sender == m.sender
    };
    if same {
        let last = out.pop().unwrap();
        let mut content = last.content;
        content.append("\n");
        content.append(m.content.as_str());
        proof {
            reveal_strlit("\n");
            assert("\n"@ =~= seq!['\n']);
        }
        let folded = Message {
            sender: last.sender,
            content,
            timestamp: last.timestamp,
            id: last.id,
            reply_to: last.reply_to,
            edited_at: if m.edited_at.is_some() {
                m.edited_at
            } else {
                last.edited_at
            },
        };
        out.push(folded);
        proof {
            let prev = old(out).deep_view();
            assert(out.deep_view() =~= prev.update(prev.len() - 1, fold_into(prev.last(), m@)));
        }
    } else {
        out.push(m.duplicate());
        proof {
            assert(out.deep_view() =~= old(out).deep_view().push(m@));
        }
    }
}

/// Collapses adjacent same-sender records of `msgs` into one record each,
/// preserving order and never dropping content.
pub fn merge_consecutive(msgs: Vec<Message>) -> (r: Vec<Message>)
    ensures
        r.deep_view() == spec_merge(msgs.deep_view()),
{
    let mut out: Vec<Message> = Vec::new();
    let mut i: usize = 0;
    while i < msgs.len()
        invariant
            i <= msgs.len(),
            out.deep_view() == spec_merge(msgs.deep_view().subrange(0, i as int)),
        decreases msgs.len() - i,
    {
        let ghost prefix = msgs.deep_view().subrange(0, i as int);
        merge_push(&mut out, &msgs[i]);
        proof {
            let longer = msgs.deep_view().subrange(0, i + 1 as int);
            assert(longer.drop_last() =~= prefix);
            assert(longer.last() == msgs.deep_view()[i as int]);
        }
        i = i + 1;
    }
    proof {
        assert(msgs.deep_view().subrange(0, msgs.deep_view().len() as int) =~= msgs.deep_view());
    }
    out
}

/// No two adjacent records of a merged sequence share a sender.
pub open spec fn no_adjacent_same_sender(s: Seq<MsgView>) -> bool {
    forall|i: int| 0 <= i < s.len() - 1 ==> (#[trigger] s[i]).sender != s[i + 1].sender
}

/// The merge stage's output never has two adjacent records with one sender.
pub proof fn lemma_merge_no_adjacent(s: Seq<MsgView>)
    ensures
        no_adjacent_same_sender(spec_merge(s)),
    decreases s.len(),
{
    if s.len() > 0 {
        lemma_merge_no_adjacent(s.drop_last());
        let prev = spec_merge(s.drop_last());
        let out = spec_merge(s);
        assert forall|i: int| 0 <= i < out.len() - 1 implies (#[trigger] out[i]).sender != out[i
            + 1].sender by {
            if prev.len() > 0 && prev.last().sender == s.last().sender {
                assert(out[i].sender == prev[i].sender);
                assert(out[i + 1].sender == prev[i + 1].sender);
            } else {
                if i + 1 < out.len() - 1 {
                    assert(out[i].sender == prev[i].sender);
                    assert(out[i + 1].sender == prev[i + 1].sender);
                } else {
                    assert(out[i] == prev[i]);
                    assert(out[i + 1] == s.last());
                }
            }
        }
    }
}

/// Merging a sequence with no adjacent same-sender records is a no-op.
pub proof fn lemma_merge_identity(s: Seq<MsgView>)
    requires
        no_adjacent_same_sender(s),
    ensures
        spec_merge(s) == s,
    decreases s.len(),
{
    if s.len() > 0 {
        assert(forall|i: int|
            0 <= i < s.drop_last().len() - 1 ==> (#[trigger] s.drop_last()[i]).sender != s.drop_last()[i
                + 1].sender);
        lemma_merge_identity(s.drop_last());
        if s.len() >= 2 {
            assert(s[s.len() - 2].sender != s[s.len() - 1].sender);
        }
        assert(spec_merge(s) =~= s);
    } else {
        assert(spec_merge(s) =~= s);
    }
}

/// Merge is idempotent: re-running the merge stage on its own output is a
/// no-op.
pub proof fn lemma_merge_idempotent(s: Seq<MsgView>)
    ensures
        spec_merge(spec_merge(s)) == spec_merge(s),
{
    lemma_merge_no_adjacent(s);
    lemma_merge_identity(spec_merge(s));
}

/// The contents of `s` in order, joined by line breaks.
pub open spec fn joined_content(s: Seq<MsgView>) -> Seq<char>
    decreases s.len(),
{
    if s.len() == 0 {
        Seq::empty()
    } else if s.len() == 1 {
        s[0].content
    } else {
        joined_content(s.drop_last()) + seq!['\n'] + s.last().content
    }
}

/// Whether some record of `s` has sender `name`.
pub open spec fn has_sender(s: Seq<MsgView>, name: Seq<char>) -> bool {
    exists|i: int| 0 <= i < s.len() && (#[trigger] s[i]).sender == name
}

/// The merge stage never reorders or drops: the joined content of the
/// merged sequence equals the joined content of the input, and the set of
/// senders is preserved.
pub proof fn lemma_merge_preserves_content(s: Seq<MsgView>)
    ensures
        joined_content(spec_merge(s)) == joined_content(s),
        forall|name: Seq<char>|
            #[trigger] has_sender(spec_merge(s), name) <==> has_sender(s, name),
    decreases s.len(),
{
    if s.len() > 0 {
        lemma_merge_preserves_content(s.drop_last());
        let prev = spec_merge(s.drop_last());
        let out = spec_merge(s);
        let m = s.last();
        // Joined content.
        if prev.len() > 0 && prev.last().sender == m.sender {
            let folded = fold_into(prev.last(), m);
            if prev.len() == 1 {
                assert(joined_content(out) == folded.content);
                assert(joined_content(prev) == prev[0].content);
            } else {
                assert(out.drop_last() =~= prev.drop_last());
                assert(joined_content(out) == joined_content(prev.drop_last()) + seq!['\n']
                    + folded.content);
            }
            assert(joined_content(out) =~= joined_content(prev) + seq!['\n'] + m.content);
        } else {
            assert(out == prev.push(m));
            if prev.len() == 0 {
                assert(s.drop_last().len() == 0);
                assert(s.len() == 1);
                assert(joined_content(out) == m.content);
                assert(joined_content(s) == m.content);
            } else {
                assert(out.drop_last() =~= prev);
                assert(out.last() == m);
            }
        }
        if s.drop_last().len() > 0 {
            assert(joined_content(s) == joined_content(s.drop_last()) + seq!['\n'] + m.content);
        }
        // Senders.
        assert forall|name: Seq<char>| #[trigger] has_sender(out, name) implies has_sender(s, name) by {
            let i = choose|i: int| 0 <= i < out.len() && (#[trigger] out[i]).sender == name;
            if prev.len() > 0 && prev.last().sender == m.sender {
                assert(prev[i].sender == name);
                assert(has_sender(prev, name));
                lemma_has_sender_extend(s, name);
            } else {
                if i < out.len() - 1 {
                    assert(prev[i].sender == name);
                    assert(has_sender(prev, name));
                    lemma_has_sender_extend(s, name);
                } else {
                    assert(s[s.len() - 1].sender == name);
                }
            }
        }
        assert forall|name: Seq<char>| #[trigger] has_sender(s, name) implies has_sender(out, name) by {
            let i = choose|i: int| 0 <= i < s.len() && (#[trigger] s[i]).sender == name;
            if i < s.len() - 1 {
                assert(s.drop_last()[i].sender == name);
                assert(has_sender(s.drop_last(), name));
                assert(has_sender(prev, name));
                let j = choose|j: int| 0 <= j < prev.len() && (#[trigger] prev[j]).sender == name;
                assert(out[j].sender == name);
            } else {
                if prev.len() > 0 && prev.last().sender == m.sender {
                    assert(out[out.len() - 1].sender == name);
                } else {
                    assert(out[out.len() - 1].sender == name);
                }
            }
        }
    }
}

/// A sender present in the input minus its last record is present in the
/// whole input.
proof fn lemma_has_sender_extend(s: Seq<MsgView>, name: Seq<char>)
    requires
        s.len() > 0,
        has_sender(s.drop_last(), name),
    ensures
        has_sender(s, name),
{
    let i = choose|i: int| 0 <= i < s.drop_last().len() && (#[trigger] s.drop_last()[i]).sender
        == name;
    assert(s[i].sender == name);
}

} // verus!
