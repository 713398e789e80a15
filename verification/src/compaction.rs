//! Context-window management: deciding when a conversation is too long and
//! trimming it to fit, keeping the system prompt and the most recent messages.
//!
//! Sizes are estimated from the UTF-8 byte length of the message contents, at
//! four bytes per token.
use vstd::prelude::*;
use vstd::string::*;
use crate::text::{byte_len, dec, usize_to_string};
use crate::provider::{Message, MessageModel, models};

verus! {

/// Total UTF-8 byte length of the contents of the messages.
pub open spec fn total_bytes(msgs: Seq<MessageModel>) -> nat
    decreases msgs.len(),
{
    if msgs.len() == 0 {
        0
    } else {
        total_bytes(msgs.drop_last()) + byte_len(msgs.last().content)
    }
}

/// The byte budget for `max_tokens` tokens: four bytes per token.
pub open spec fn budget(max_tokens: nat) -> nat {
    max_tokens * 4
}

/// Whether the messages exceed the budget of `max_tokens` tokens.
pub open spec fn needs_compaction(msgs: Seq<MessageModel>, max_tokens: nat) -> bool {
    total_bytes(msgs) > budget(max_tokens)
}

/// The summary marker inserted by compaction.
pub open spec fn marker_text(kept: nat, total: nat) -> Seq<char> {
    "[compacted: kept last "@ + dec(kept) + " of "@ + dec(total) + " messages]"@
}

/// Whether the conversation starts with a system prompt.
pub open spec fn has_system_prompt(msgs: Seq<MessageModel>) -> bool {
    msgs.len() > 0 && msgs[0].role == "system"@
}

/// Bytes of the system prompt that compaction keeps (zero when there is none).
pub open spec fn prompt_bytes(msgs: Seq<MessageModel>) -> nat {
    if has_system_prompt(msgs) {
        byte_len(msgs[0].content)
    } else {
        0
    }
}

/// How many trailing messages may be kept at most (all but the system prompt).
pub open spec fn keepable(msgs: Seq<MessageModel>) -> nat {
    if has_system_prompt(msgs) {
        (msgs.len() - 1) as nat
    } else {
        msgs.len()
    }
}

/// The last `n` messages.
pub open spec fn last_n(msgs: Seq<MessageModel>, n: nat) -> Seq<MessageModel> {
    msgs.subrange(msgs.len() - n, msgs.len() as int)
}

/// Whether keeping the prompt, the marker and the last `n` messages fits the budget.
pub open spec fn fits(msgs: Seq<MessageModel>, max_tokens: nat, n: nat) -> bool {
    prompt_bytes(msgs) + byte_len(marker_text(n, msgs.len())) + total_bytes(last_n(msgs, n))
        <= budget(max_tokens)
}

/// The largest `k <= n` such that keeping `k` messages fits, or zero when none does.
pub open spec fn largest_fit(msgs: Seq<MessageModel>, max_tokens: nat, n: nat) -> nat
    decreases n,
{
    if fits(msgs, max_tokens, n) || n == 0 {
        n
    } else {
        largest_fit(msgs, max_tokens, (n - 1) as nat)
    }
}

/// How many trailing messages compaction keeps: the most that fit together with
/// the system prompt and the marker. When no count fits, not even zero, one
/// message is kept all the same, if there is one to keep.
pub open spec fn kept_count(msgs: Seq<MessageModel>, max_tokens: nat) -> nat {
    let best = largest_fit(msgs, max_tokens, keepable(msgs));
    if best == 0 && !fits(msgs, max_tokens, 0) && keepable(msgs) >= 1 {
        1
    } else {
        best
    }
}

/// The compacted conversation: the system prompt when there is one, the marker,
/// and the kept trailing messages; the input itself when it fits the budget.
pub open spec fn compacted(msgs: Seq<MessageModel>, max_tokens: nat) -> Seq<MessageModel> {
    if !needs_compaction(msgs, max_tokens) {
        msgs
    } else {
        let k = kept_count(msgs, max_tokens);
        let marker = MessageModel {
            role: "system"@,
            content: marker_text(k, msgs.len()),
        };
        let head = if has_system_prompt(msgs) {
            seq![msgs[0], marker]
        } else {
            seq![marker]
        };
        head + last_n(msgs, k)
    }
}

/// `largest_fit` finds the largest fitting count: it fits (unless it is zero), and
/// no larger count up to the bound fits.
pub proof fn lemma_largest_fit_is_largest(msgs: Seq<MessageModel>, max_tokens: nat, n: nat)
    ensures
        largest_fit(msgs, max_tokens, n) <= n,
        largest_fit(msgs, max_tokens, n) == 0 || fits(
            msgs,
            max_tokens,
            largest_fit(msgs, max_tokens, n),
        ),
        forall|j: nat|
            largest_fit(msgs, max_tokens, n) < j <= n ==> !#[trigger] fits(msgs, max_tokens, j),
    decreases n,
{
    if !(fits(msgs, max_tokens, n) || n == 0) {
        lemma_largest_fit_is_largest(msgs, max_tokens, (n - 1) as nat);
    }
}

/// Compaction keeps as many trailing messages as fit the budget: the count kept
/// fits together with the system prompt and the marker, and keeping any more would
/// not fit; only when no count fits, not even zero, is a single message kept
/// (when there is one).
pub proof fn lemma_compaction_keeps_most_that_fit(msgs: Seq<MessageModel>, max_tokens: nat)
    ensures
        kept_count(msgs, max_tokens) <= keepable(msgs),
        (exists|j: nat| j <= keepable(msgs) && #[trigger] fits(msgs, max_tokens, j)) ==> fits(
            msgs,
            max_tokens,
            kept_count(msgs, max_tokens),
        ) && forall|j: nat|
            kept_count(msgs, max_tokens) < j <= keepable(msgs) ==> !#[trigger] fits(
                msgs,
                max_tokens,
                j,
            ),
        (forall|j: nat| j <= keepable(msgs) ==> !#[trigger] fits(msgs, max_tokens, j))
            ==> kept_count(msgs, max_tokens) == if keepable(msgs) >= 1 {
            1nat
        } else {
            0nat
        },
{
    lemma_largest_fit_is_largest(msgs, max_tokens, keepable(msgs));
}

/// Compaction stays within the budget: whenever the system prompt and the marker
/// alone fit, the compacted conversation (prompt, marker and kept messages) has no
/// more bytes than the budget of `max_tokens` tokens.
pub proof fn lemma_compacted_within_budget(msgs: Seq<MessageModel>, max_tokens: nat)
    requires
        fits(msgs, max_tokens, 0),
    ensures
        total_bytes(compacted(msgs, max_tokens)) <= budget(max_tokens),
{
    if needs_compaction(msgs, max_tokens) {
        lemma_largest_fit_is_largest(msgs, max_tokens, keepable(msgs));
        let k = kept_count(msgs, max_tokens);
        assert(fits(msgs, max_tokens, k));
        let marker = MessageModel { role: "system"@, content: marker_text(k, msgs.len()) };
        let tail = last_n(msgs, k);
        if has_system_prompt(msgs) {
            let head = seq![msgs[0], marker];
            assert(head.drop_last() =~= seq![msgs[0]]);
            assert(seq![msgs[0]].drop_last() =~= Seq::<MessageModel>::empty());
            reveal_with_fuel(total_bytes, 3);
            assert(total_bytes(head) == byte_len(msgs[0].content) + byte_len(marker.content));
            lemma_total_bytes_concat(head, tail);
        } else {
            let head = seq![marker];
            assert(head.drop_last() =~= Seq::<MessageModel>::empty());
            reveal_with_fuel(total_bytes, 2);
            assert(total_bytes(head) == byte_len(marker.content));
            lemma_total_bytes_concat(head, tail);
        }
    }
}

/// The byte total of a concatenation is the sum of the byte totals.
pub proof fn lemma_total_bytes_concat(a: Seq<MessageModel>, b: Seq<MessageModel>)
    ensures
        total_bytes(a + b) == total_bytes(a) + total_bytes(b),
    decreases b.len(),
{
    if b.len() == 0 {
        assert(a + b =~= a);
    } else {
        assert((a + b).drop_last() =~= a + b.drop_last());
        lemma_total_bytes_concat(a, b.drop_last());
    }
}

/// A contiguous part of the messages has no more bytes than the whole.
pub proof fn lemma_total_bytes_subrange(s: Seq<MessageModel>, lo: int, hi: int)
    requires
        0 <= lo <= hi <= s.len(),
    ensures
        total_bytes(s.subrange(lo, hi)) <= total_bytes(s),
{
    let a = s.subrange(0, lo);
    let b = s.subrange(lo, hi);
    let c = s.subrange(hi, s.len() as int);
    assert(s =~= a + b + c);
    lemma_total_bytes_concat(a + b, c);
    lemma_total_bytes_concat(a, b);
}

/// One message has no more bytes than the conversation it belongs to.
pub proof fn lemma_message_bytes_bounded(s: Seq<MessageModel>, i: int)
    requires
        0 <= i < s.len(),
    ensures
        byte_len(s[i].content) <= total_bytes(s),
{
    lemma_total_bytes_subrange(s, i, i + 1);
    let one = s.subrange(i, i + 1);
    assert(one.drop_last() =~= Seq::<MessageModel>::empty());
    assert(one.last() == s[i]);
}

/// The models of a sequence extended by one message.
pub proof fn lemma_models_push(s: Seq<Message>, m: Message)
    ensures
        models(s.push(m)) == models(s).push(m@),
{
    assert(models(s.push(m)) =~= models(s).push(m@));
}

/// `largest_fit` never exceeds its bound.
pub proof fn lemma_largest_fit_bounded(msgs: Seq<MessageModel>, max_tokens: nat, n: nat)
    ensures
        largest_fit(msgs, max_tokens, n) <= n,
    decreases n,
{
    if !(fits(msgs, max_tokens, n) || n == 0) {
        lemma_largest_fit_bounded(msgs, max_tokens, (n - 1) as nat);
    }
}

/// The marker for counts that fit in a machine word is short.
proof fn lemma_marker_bytes(kept: usize, total: usize)
    ensures
        byte_len(marker_text(kept as nat, total as nat)) <= 512,
{
    reveal_strlit("[compacted: kept last ");
    reveal_strlit(" of ");
    reveal_strlit(" messages]");
    crate::text::lemma_dec_len_u64(kept as u64);
    crate::text::lemma_dec_len_u64(total as u64);
    crate::text::lemma_byte_len_bound(marker_text(kept as nat, total as nat));
}

/// The byte total of `msgs[lo..hi]`.
fn range_bytes(msgs: &Vec<Message>, lo: usize, hi: usize) -> (r: usize)
    requires
        lo <= hi <= msgs.len(),
        total_bytes(models(msgs@)) <= usize::MAX,
    ensures
        r == total_bytes(models(msgs@).subrange(lo as int, hi as int)),
{
    let ghost ms = models(msgs@);
    let mut acc: usize = 0;
    let mut i = lo;
    proof {
        assert(ms.subrange(lo as int, lo as int) =~= Seq::<MessageModel>::empty());
    }
    while i < hi
        invariant
            lo <= i <= hi <= msgs.len(),
            ms == models(msgs@),
            total_bytes(ms) <= usize::MAX,
            acc == total_bytes(ms.subrange(lo as int, i as int)),
        decreases hi - i,
    {
        let ghost next = ms.subrange(lo as int, i + 1);
        proof {
            assert(next.drop_last() =~= ms.subrange(lo as int, i as int));
            assert(next.last() == msgs@[i as int]@);
            lemma_total_bytes_subrange(ms, lo as int, i + 1);
        }
        let n = msgs[i].content.as_str().len();
        acc = acc + n;
        i = i + 1;
    }
    acc
}

/// Whether the messages exceed `max_tokens` tokens, at four bytes per token.
pub fn should_compact(messages: &Vec<Message>, max_tokens: usize) -> (r: bool)
    requires
        max_tokens * 4 <= usize::MAX,
        total_bytes(models(messages@)) <= usize::MAX,
    ensures
        r == needs_compaction(models(messages@), max_tokens as nat),
{
    let threshold = max_tokens * 4;
    let total = range_bytes(messages, 0, messages.len());
    proof {
        assert(models(messages@).subrange(0, messages@.len() as int) =~= models(messages@));
    }
    total > threshold
}

/// The compaction marker for `kept` of `total` messages.
fn marker(kept: usize, total: usize) -> (s: String)
    ensures
        s@ == marker_text(kept as nat, total as nat),
{
    let mut s = "[compacted: kept last ".to_string();
    let k = usize_to_string(kept);
    s.append(k.as_str());
    s.append(" of ");
    let t = usize_to_string(total);
    s.append(t.as_str());
    s.append(" messages]");
    s
}

/// Trims the conversation to fit `max_tokens` tokens: keeps the leading system
/// prompt when there is one, inserts a system marker
/// `[compacted: kept last N of M messages]`, and keeps the last N messages, N as
/// large as lets the prompt, the marker and those messages fit the budget (zero
/// when not even one does). When not even the prompt and the marker fit, one
/// message is kept, if there is one. A conversation that fits is returned
/// unchanged.
pub fn compact(messages: &Vec<Message>, max_tokens: usize) -> (r: Vec<Message>)
    requires
        max_tokens * 4 <= usize::MAX,
        total_bytes(models(messages@)) + 1024 <= usize::MAX,
    ensures
        models(r@) == compacted(models(messages@), max_tokens as nat),
{
    let ghost ms = models(messages@);
    if !should_compact(messages, max_tokens) {
        let mut out: Vec<Message> = Vec::new();
        let mut i: usize = 0;
        while i < messages.len()
            invariant
                i <= messages.len(),
                ms == models(messages@),
                models(out@) == ms.take(i as int),
            decreases messages.len() - i,
        {
            let ghost before = out@;
            out.push(messages[i].copy());
            proof {
                lemma_models_push(before, messages@[i as int]);
                assert(ms.take(i + 1) =~= ms.take(i as int).push(ms[i as int]));
            }
            i = i + 1;
        }
        proof {
            assert(ms.take(messages@.len() as int) =~= ms);
        }
        return out;
    }
    let total = messages.len();
    let threshold = max_tokens * 4;
    let system = "system".to_string();
    let has_system_first = total > 0 && messages[0].role == system;
    let max_possible_n = if has_system_first {
        total - 1
    } else {
        total
    };
    let system_len: usize = if has_system_first {
        proof {
            lemma_message_bytes_bounded(ms, 0);
        }
        messages[0].content.as_str().len()
    } else {
        0
    };
    assert(system_len == prompt_bytes(ms));
    assert(max_possible_n == keepable(ms));
    let mut n = max_possible_n;
    let mut best_n: usize = 0;
    let mut found = false;
    loop
        invariant_except_break
            !found,
            n <= max_possible_n,
            largest_fit(ms, max_tokens as nat, max_possible_n as nat) == largest_fit(
                ms,
                max_tokens as nat,
                n as nat,
            ),
        invariant
            ms == models(messages@),
            total == messages.len(),
            max_possible_n <= total,
            max_possible_n == keepable(ms),
            system_len == prompt_bytes(ms),
            threshold == budget(max_tokens as nat),
            total_bytes(ms) + 1024 <= usize::MAX,
        ensures
            best_n == largest_fit(ms, max_tokens as nat, max_possible_n as nat),
            found == fits(ms, max_tokens as nat, best_n as nat),
        decreases n,
    {
        let m = marker(n, total);
        proof {
            lemma_marker_bytes(n, total);
        }
        let marker_len = m.as_str().len();
        let last_n_len = range_bytes(messages, total - n, total);
        let cost: u128 = system_len as u128 + marker_len as u128 + last_n_len as u128;
        if cost <= threshold as u128 {
            best_n = n;
            found = true;
            break;
        }
        if n == 0 {
            best_n = 0;
            break;
        }
        n = n - 1;
    }
    proof {
        lemma_largest_fit_is_largest(ms, max_tokens as nat, max_possible_n as nat);
    }
    if !found && max_possible_n >= 1 {
        best_n = 1;
    }
    assert(best_n == kept_count(ms, max_tokens as nat));
    let mut compacted_msgs: Vec<Message> = Vec::new();
    if has_system_first {
        compacted_msgs.push(messages[0].copy());
    }
    let marker_content = marker(best_n, total);
    compacted_msgs.push(Message { role: "system".to_string(), content: marker_content });
    let ghost head = models(compacted_msgs@);
    proof {
        lemma_largest_fit_bounded(ms, max_tokens as nat, max_possible_n as nat);
    }
    assert(best_n <= total);
    let start = total - best_n;
    let mut i = start;
    while i < total
        invariant
            start <= i <= total,
            total == messages.len(),
            ms == models(messages@),
            models(compacted_msgs@) == head + ms.subrange(start as int, i as int),
        decreases total - i,
    {
        let ghost before = compacted_msgs@;
        compacted_msgs.push(messages[i].copy());
        proof {
            lemma_models_push(before, messages@[i as int]);
            assert(head + ms.subrange(start as int, i + 1) =~= (head + ms.subrange(
                start as int,
                i as int,
            )).push(ms[i as int]));
        }
        i = i + 1;
    }
    proof {
        let k = kept_count(ms, max_tokens as nat);
        let mk = MessageModel { role: "system"@, content: marker_text(k, ms.len()) };
        if has_system_prompt(ms) {
            assert(head =~= seq![ms[0], mk]);
        } else {
            assert(head =~= seq![mk]);
        }
        assert(models(compacted_msgs@) =~= compacted(ms, max_tokens as nat));
    }
    compacted_msgs
}

} // verus!
