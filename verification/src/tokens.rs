//! Token estimation and history budgeting for chat requests.
//!
//! `estimate_tokens` weighs every character (0.7 for non-ASCII, 0.3 for ASCII
//! whitespace, 0.25 otherwise) and accumulates the weights in single
//! precision, exactly as an `f32` running sum does, before rounding up.  The
//! single-precision accumulator is modelled exactly: a value is held as an
//! integer count of units of 2^-25, which every value the sum can reach is a
//! multiple of, and each addition is rounded to the nearest representable
//! value with ties to even.

use vstd::prelude::*;
use vstd::arithmetic::power2::*;
use crate::chat::{ChatMessage, ContentPart, MessageModel, PartModel, ToolCallModel, messages_view, parts_view, calls_view};
use crate::text::{sum_by, lemma_sum_by_prefix, lemma_sum_by_concat, lemma_sum_by_push, lemma_sum_by_single, lemma_sum_by_subrange, str_eq};

verus! {

/// Units of 2^-25 in one.
pub open spec fn unit_one() -> nat {
    0x2000000
}

/// The single-precision value nearest to 0.7, in units of 2^-25.
pub open spec fn weight_non_ascii() -> nat {
    23488102
}

/// The single-precision value nearest to 0.3, in units of 2^-25.
pub open spec fn weight_ascii_space() -> nat {
    10066330
}

/// 0.25 in units of 2^-25.
pub open spec fn weight_ascii_other() -> nat {
    8388608
}

/// `char::is_ascii_whitespace`: space, tab, line feed, form feed, carriage return.
pub open spec fn spec_is_ascii_whitespace(c: char) -> bool {
    c == ' ' || c == '\t' || c == '\n' || c == '\x0C' || c == '\r'
}

/// The weight of one character, in units of 2^-25.
pub open spec fn char_weight(c: char) -> nat {
    if (c as u32) > 0x7F {
        weight_non_ascii()
    } else if spec_is_ascii_whitespace(c) {
        weight_ascii_space()
    } else {
        weight_ascii_other()
    }
}

/// The spacing of single-precision values around a non-negative value `n`
/// (in units of 2^-25): 2^-25 below 0.5, doubling with every binade above.
pub open spec fn f32_ulp(n: nat) -> nat
    decreases n,
{
    if n < 0x1000000 {
        1
    } else {
        2 * f32_ulp(n / 2)
    }
}

/// Rounds `n` to the nearest single-precision value, ties to even.
pub open spec fn f32_round(n: nat) -> nat {
    let m = f32_ulp(n);
    let q = n / m;
    let r = n % m;
    if 2 * r > m || (2 * r == m && q % 2 == 1) {
        (q + 1) * m
    } else {
        q * m
    }
}

/// The single-precision running sum of the weights of `s`, in units of 2^-25.
pub open spec fn f32_weight_sum(s: Seq<char>) -> nat
    decreases s.len(),
{
    if s.len() == 0 {
        0
    } else {
        f32_round(f32_weight_sum(s.drop_last()) + char_weight(s.last()))
    }
}

/// The estimated token count of a text: the running sum rounded up, at least one.
pub open spec fn spec_estimate_tokens(s: Seq<char>) -> nat {
    let c = ((f32_weight_sum(s) + unit_one() - 1) as nat) / unit_one();
    if c < 1 {
        1
    } else {
        c
    }
}

proof fn lemma_ulp_pos(n: nat)
    ensures
        f32_ulp(n) >= 1,
    decreases n,
{
    if n >= 0x1000000 {
        lemma_ulp_pos(n / 2);
    }
}

/// Below 2^(24+j), the spacing divides 2^j.
proof fn lemma_ulp_divides(n: nat, j: nat) -> (c: nat)
    requires
        n < pow2(24 + j),
    ensures
        c * f32_ulp(n) == pow2(j),
    decreases n,
{
    lemma_pow2_pos(j);
    lemma2_to64();
    if n < 0x1000000 {
        assert(f32_ulp(n) == 1);
        assert(pow2(j) * f32_ulp(n) == pow2(j));
        pow2(j)
    } else {
        if j == 0 {
            assert(false);
            0
        } else {
            let jj = (j - 1) as nat;
            assert(pow2(24 + j) == 2 * pow2(24 + jj)) by {
                lemma_pow2_unfold(24 + j);
                assert((24 + j - 1) as nat == 24 + jj);
            }
            assert(pow2(j) == 2 * pow2(jj)) by {
                lemma_pow2_unfold(j);
            }
            let c = lemma_ulp_divides(n / 2, jj);
            assert(f32_ulp(n) == 2 * f32_ulp(n / 2));
            assert(c * f32_ulp(n) == pow2(j)) by (nonlinear_arith)
                requires
                    c * f32_ulp(n / 2) == pow2(jj),
                    f32_ulp(n) == 2 * f32_ulp(n / 2),
                    pow2(j) == 2 * pow2(jj),
            ;
            c
        }
    }
}

/// In the binade [2^(23+j), 2^(24+j)) with j >= 1 the spacing is 2^j.
proof fn lemma_ulp_binade(n: nat, j: nat)
    requires
        j >= 1,
        pow2(23 + j) <= n < pow2(24 + j),
    ensures
        f32_ulp(n) == pow2(j),
    decreases j,
{
    lemma2_to64();
    assert(pow2(j) == 2 * pow2((j - 1) as nat)) by {
        lemma_pow2_unfold(j);
    }
    if j == 1 {
        assert(pow2(24) == 0x1000000 && pow2(25) == 0x2000000);
        assert(n / 2 < 0x1000000);
        assert(f32_ulp(n / 2) == 1);
        assert(f32_ulp(n) == 2 * f32_ulp(n / 2));
    } else {
        let jj = (j - 1) as nat;
        assert(pow2(23 + j) == 2 * pow2(23 + jj)) by {
            lemma_pow2_unfold(23 + j);
            assert((23 + j - 1) as nat == 23 + jj);
        }
        assert(pow2(24 + j) == 2 * pow2(24 + jj)) by {
            lemma_pow2_unfold(24 + j);
            assert((24 + j - 1) as nat == 24 + jj);
        }
        assert(pow2(23 + jj) >= 0x1000000) by {
            if 23 + jj > 24 {
                lemma_pow2_strictly_increases(24, 23 + jj);
            }
        }
        lemma_ulp_binade(n / 2, jj);
        assert(f32_ulp(n) == 2 * f32_ulp(n / 2));
    }
}

/// The running sum never passes 2^24 (2^49 units): beyond that point
/// adding a weight below one is rounded away.
proof fn lemma_step_bound(acc: nat, w: nat)
    requires
        acc <= 0x2000000000000,
        w < 0x2000000,
    ensures
        f32_round(acc + w) <= 0x2000000000000,
{
    let n = acc + w;
    lemma2_to64();
    lemma_ulp_pos(n);
    let m = f32_ulp(n);
    let q = n / m;
    let r = n % m;
    vstd::arithmetic::div_mod::lemma_fundamental_div_mod(n as int, m as int);
    if n < 0x2000000000000 {
        assert(pow2(49) == 0x2000000000000) by {
            vstd::arithmetic::power2::lemma2_to64_rest();
        }
        let c = lemma_ulp_divides(n, 25);
        assert(pow2(25) == 0x2000000);
        let big = 0x1000000 * c;
        assert(big * m == 0x2000000000000) by (nonlinear_arith)
            requires
                c * m == 0x2000000,
                big == 0x1000000 * c,
        ;
        assert((q + 1) * m <= 0x2000000000000) by (nonlinear_arith)
            requires
                q * m + r == n,
                r >= 0,
                n < big * m,
                m >= 1,
                big * m == 0x2000000000000,
        ;
        assert(q * m <= (q + 1) * m) by (nonlinear_arith);
    } else {
        assert(pow2(49) == 0x2000000000000 && pow2(50) == 0x4000000000000 && pow2(26)
            == 0x4000000) by {
            vstd::arithmetic::power2::lemma2_to64_rest();
        }
        lemma_ulp_binade(n, 26);
        assert(m == 0x4000000);
        assert(q == 0x800000 && r == n - 0x2000000000000) by (nonlinear_arith)
            requires
                q * 0x4000000 + r == n,
                0 <= r < 0x4000000,
                0x2000000000000 <= n < 0x2000000000000 + 0x2000000,
        ;
    }
}

/// The spacing around `n`, computed by halving `n` down to the first binade.
fn ulp_of(n: u128) -> (m: u128)
    requires
        n <= 0x2000000000000 + 0x2000000,
    ensures
        m == f32_ulp(n as nat),
        m >= 1,
        m <= 0x4000000,
{
    let mut t = n;
    let mut m: u128 = 1;
    while t >= 0x1000000
        invariant
            f32_ulp(n as nat) == m * f32_ulp(t as nat),
            m >= 1,
            t * m <= n,
            n <= 0x2000000000000 + 0x2000000,
        decreases t,
    {
        assert(f32_ulp(t as nat) == 2 * f32_ulp((t / 2) as nat));
        assert(m * f32_ulp(t as nat) == (2 * m) * f32_ulp((t / 2) as nat)) by (nonlinear_arith)
            requires
                f32_ulp(t as nat) == 2 * f32_ulp((t / 2) as nat),
        ;
        assert((t / 2) * (2 * m) <= t * m) by (nonlinear_arith)
            requires
                m >= 1,
        ;
        assert(m * 0x1000000 <= t * m) by (nonlinear_arith)
            requires
                t >= 0x1000000,
        ;
        t = t / 2;
        m = m * 2;
    }
    proof {
        lemma_ulp_pos(t as nat);
        assert(f32_ulp(t as nat) == 1);
        assert(m * f32_ulp(t as nat) == m) by (nonlinear_arith)
            requires
                f32_ulp(t as nat) == 1,
        ;
    }
    proof {
        lemma2_to64();
        lemma_ulp_pos(n as nat);
        if n >= 0x2000000000000 {
            assert(pow2(49) == 0x2000000000000 && pow2(50) == 0x4000000000000 && pow2(26)
                == 0x4000000) by {
                vstd::arithmetic::power2::lemma2_to64_rest();
            }
            lemma_ulp_binade(n as nat, 26);
        } else {
            assert(pow2(49) == 0x2000000000000 && pow2(25) == 0x2000000) by {
                vstd::arithmetic::power2::lemma2_to64_rest();
            }
            let c = lemma_ulp_divides(n as nat, 25);
            assert(m <= 0x2000000) by (nonlinear_arith)
                requires
                    c * m == 0x2000000,
                    m >= 1,
            ;
        }
    }
    m
}

/// Rounds `n` (units of 2^-25) to the nearest single-precision value.
fn round_f32(n: u128) -> (r: u128)
    requires
        n <= 0x2000000000000 + 0x2000000,
    ensures
        r == f32_round(n as nat),
{
    let m = ulp_of(n);
    let q = n / m;
    let rem = n % m;
    proof {
        vstd::arithmetic::div_mod::lemma_fundamental_div_mod(n as int, m as int);
        assert(q * m + rem == n) by (nonlinear_arith)
            requires
                n as int == m as int * (n as int / m as int) + (n as int % m as int),
                q == n / m,
                rem == n % m,
        ;
        assert(q * m <= n) by (nonlinear_arith)
            requires
                q * m + rem == n,
                rem >= 0,
        ;
        assert((q + 1) * m <= n + m) by (nonlinear_arith)
            requires
                q * m + rem == n,
                rem >= 0,
        ;
    }
    if 2 * rem > m || (2 * rem == m && q % 2 == 1) {
        (q + 1) * m
    } else {
        q * m
    }
}

/// Estimates the number of tokens in a text.
pub fn estimate_tokens(text: &str) -> (n: usize)
    ensures
        n == spec_estimate_tokens(text@),
        1 <= n <= 16777216,
{
    broadcast use vstd::string::group_string_axioms;

    let mut count: u128 = 0;
    let ghost mut seen: Seq<char> = Seq::empty();
    for c in it: text.chars()
        invariant
            seen == it.seq().take(it.index() as int),
            count == f32_weight_sum(seen),
            count <= 0x2000000000000,
    {
        let ghost before = seen;
        let w: u128 = if (c as u32) > 0x7F {
            23488102
        } else if c == ' ' || c == '\t' || c == '\n' || c == '\x0C' || c == '\r' {
            10066330
        } else {
            8388608
        };
        proof {
            let after = it.seq().take(it.index() + 1);
            assert(after.drop_last() =~= before);
            assert(after.last() == c);
            lemma_step_bound(count as nat, w as nat);
        }
        count = round_f32(count + w);
        proof {
            assert(seen.push(c).drop_last() =~= seen);
            assert(char_weight(c) == w);
            seen = seen.push(c);
        }
    }
    assert(seen =~= text@);
    let c = (count + 0x2000000 - 1) / 0x2000000;
    assert(c <= 16777216) by (nonlinear_arith)
        requires
            count <= 0x2000000000000,
            c == (count + 0x2000000 - 1) / 0x2000000,
    ;
    if c < 1 {
        1
    } else {
        c as usize
    }
}


/// Upper bound of the context window, in tokens.
pub const MAX_CONTEXT_TOKENS: usize = 1_000_000;

/// Tokens kept free for the model's answer.
pub const RESERVED_OUTPUT_TOKENS: usize = 8192;

/// The estimated tokens of one content part.
pub open spec fn part_tokens(p: PartModel) -> nat {
    match p {
        PartModel::Text(t) => spec_estimate_tokens(t),
        PartModel::ImageBytes(_) => 1024,
        PartModel::ImageUrl(_) => 256,
        PartModel::AudioBytes { transcript, .. } => match transcript {
            Some(t) => spec_estimate_tokens(t) + 128,
            None => 128,
        },
        PartModel::VideoFrames(f) => f.len() * 768,
    }
}

/// The estimated tokens of one tool call: its name and its argument text.
pub open spec fn call_tokens(c: ToolCallModel) -> nat {
    spec_estimate_tokens(c.name) + spec_estimate_tokens(c.arguments)
}

/// The estimated tokens of a message: four for the envelope, its parts and
/// its tool calls.
pub open spec fn spec_message_tokens(m: MessageModel) -> nat {
    4 + sum_by(m.content, |p: PartModel| part_tokens(p)) + match m.tool_calls {
        Some(c) => sum_by(c, |x: ToolCallModel| call_tokens(x)),
        None => 0,
    }
}

/// Estimates the tokens of a message.
pub fn message_tokens(msg: &ChatMessage) -> (n: usize)
    requires
        spec_message_tokens(msg@) <= usize::MAX,
    ensures
        n == spec_message_tokens(msg@),
{
    let ghost parts = parts_view(msg.content@);
    let ghost pf = |p: PartModel| part_tokens(p);
    let ghost cf = |x: ToolCallModel| call_tokens(x);
    let ghost calls_sum: nat = match msg@.tool_calls {
        Some(c) => sum_by(c, cf),
        None => 0,
    };
    let mut total: usize = 4;
    let mut i: usize = 0;
    while i < msg.content.len()
        invariant
            i <= msg.content.len(),
            parts == parts_view(msg.content@),
            pf == (|p: PartModel| part_tokens(p)),
            total == 4 + sum_by(parts.take(i as int), pf),
            4 + sum_by(parts, pf) + calls_sum <= usize::MAX,
        decreases msg.content.len() - i,
    {
        proof {
            lemma_sum_by_push(parts.take(i as int), parts[i as int], pf);
            assert(parts.take(i + 1) =~= parts.take(i as int).push(parts[i as int]));
            lemma_sum_by_prefix(parts, pf, i + 1);
        }
        let add: usize = match &msg.content[i] {
            ContentPart::Text(t) => estimate_tokens(t.as_str()),
            ContentPart::ImageBytes(_) => 1024,
            ContentPart::ImageUrl(_) => 256,
            ContentPart::AudioBytes { transcript, .. } => match transcript {
                Some(t) => estimate_tokens(t.as_str()) + 128,
                None => 128,
            },
            ContentPart::VideoFrames(frames) => frames.len() * 768,
        };
        assert(add == part_tokens(parts[i as int]));
        total = total + add;
        i += 1;
    }
    assert(parts.take(i as int) =~= parts);
    match &msg.tool_calls {
        Some(calls) => {
            let ghost cs = calls_view(calls@);
            let mut k: usize = 0;
            while k < calls.len()
                invariant
                    k <= calls.len(),
                    cs == calls_view(calls@),
                    cf == (|x: ToolCallModel| call_tokens(x)),
                    total == 4 + sum_by(parts, pf) + sum_by(cs.take(k as int), cf),
                    4 + sum_by(parts, pf) + sum_by(cs, cf) <= usize::MAX,
                decreases calls.len() - k,
            {
                proof {
                    lemma_sum_by_push(cs.take(k as int), cs[k as int], cf);
                    assert(cs.take(k + 1) =~= cs.take(k as int).push(cs[k as int]));
                    lemma_sum_by_prefix(cs, cf, k + 1);
                }
                let a = estimate_tokens(calls[k].name.as_str());
                let b = estimate_tokens(calls[k].arguments.as_str());
                total = total + a + b;
                k += 1;
            }
            assert(cs.take(k as int) =~= cs);
        },
        None => {},
    }
    total
}

/// Subtraction that stops at zero.
pub open spec fn sat_sub(a: nat, b: nat) -> nat {
    if a >= b {
        (a - b) as nat
    } else {
        0
    }
}

/// The history budget left beside the system prompt and the new user
/// message; when less than 1000 tokens remain, 8000 are granted.
pub open spec fn spec_history_budget(system_tokens: nat, user_tokens: nat) -> nat {
    let b = sat_sub(
        sat_sub(sat_sub(sat_sub(1_000_000, system_tokens), user_tokens), 8192),
        256,
    );
    if b < 1000 {
        8000
    } else {
        b
    }
}

/// A message that opens (or belongs to) a tool exchange: a tool result or
/// an assistant message carrying tool calls.
pub open spec fn opens_tool_run(m: MessageModel) -> bool {
    m.role == "tool"@ || (m.role == "assistant"@ && m.tool_calls is Some)
}

/// A message that continues a tool exchange when met before one.
pub open spec fn continues_tool_run(m: MessageModel) -> bool {
    m.role == "tool"@ || m.tool_calls is Some
}

/// The state of the backwards walk over the history.
pub struct TrimState {
    pub kept: Seq<MessageModel>,
    pub used: nat,
    pub pair: Seq<MessageModel>,
    pub started: bool,
    pub stopped: bool,
}

/// The summed tokens of a sequence of messages.
pub open spec fn messages_tokens(s: Seq<MessageModel>) -> nat {
    sum_by(s, |m: MessageModel| spec_message_tokens(m))
}

/// One step of the walk: the message at index `i` is considered.  Ordinary
/// messages are kept while the budget allows and the walk stops at the first
/// that does not fit; a tool exchange is collected whole and kept (in the
/// order the walk met it, that is newest first) only if it fits entirely.
pub open spec fn trim_step(msgs: Seq<MessageModel>, budget: nat, i: int, st: TrimState) -> TrimState {
    if st.stopped {
        st
    } else {
        let m = msgs[i];
        if opens_tool_run(m) || st.started {
            let pair = seq![m] + st.pair;
            if i > 0 && !continues_tool_run(msgs[i - 1]) {
                let pt = messages_tokens(pair);
                if st.used + pt <= budget {
                    TrimState {
                        kept: pair.reverse() + st.kept,
                        used: st.used + pt,
                        pair: Seq::empty(),
                        started: false,
                        stopped: false,
                    }
                } else {
                    TrimState { pair: Seq::empty(), started: false, ..st }
                }
            } else {
                TrimState { pair, started: true, ..st }
            }
        } else if st.used + spec_message_tokens(m) > budget {
            TrimState { stopped: true, ..st }
        } else {
            TrimState { kept: seq![m] + st.kept, used: st.used + spec_message_tokens(m), ..st }
        }
    }
}

/// The walk over indices `i - 1` down to `0`.
pub open spec fn trim_run(msgs: Seq<MessageModel>, budget: nat, i: nat, st: TrimState) -> TrimState
    decreases i,
{
    if i == 0 {
        st
    } else {
        trim_run(msgs, budget, (i - 1) as nat, trim_step(msgs, budget, i - 1, st))
    }
}

/// The history trimmed to fit the budget left by `system_tokens`: the last
/// message (the new user message) is always kept, earlier ones are chosen by
/// the backwards walk, and a tool exchange still open at the oldest message
/// is kept in front when it fits.
pub open spec fn spec_trim_history(msgs: Seq<MessageModel>, system_tokens: nat) -> Seq<MessageModel> {
    if msgs.len() == 0 {
        msgs
    } else {
        let last = msgs.last();
        let budget = spec_history_budget(system_tokens, spec_message_tokens(last));
        let init = TrimState { kept: Seq::empty(), used: 0, pair: Seq::empty(), started: false, stopped: false };
        let st = trim_run(msgs, budget, (msgs.len() - 1) as nat, init);
        let front = if st.pair.len() > 0 && st.used + messages_tokens(st.pair) <= budget {
            st.pair + st.kept
        } else {
            st.kept
        };
        front.push(last)
    }
}

proof fn lemma_trim_run_stopped(msgs: Seq<MessageModel>, budget: nat, i: nat, st: TrimState)
    requires
        st.stopped,
    ensures
        trim_run(msgs, budget, i, st) == st,
    decreases i,
{
    if i > 0 {
        lemma_trim_run_stopped(msgs, budget, (i - 1) as nat, st);
    }
}

/// The walk's tokens: what is kept and what is pending never exceeds the
/// messages walked over so far.
proof fn lemma_trim_used_bound(msgs: Seq<MessageModel>, budget: nat, i: int, u: int, st: TrimState)
    requires
        0 <= i < u <= msgs.len(),
        st.used + messages_tokens(st.pair) <= messages_tokens(msgs.subrange(i + 1, u)),
    ensures
        trim_step(msgs, budget, i, st).used + messages_tokens(trim_step(msgs, budget, i, st).pair)
            <= messages_tokens(msgs.subrange(i, u)),
        st.used + spec_message_tokens(msgs[i]) + messages_tokens(st.pair) <= messages_tokens(msgs.subrange(i, u)),
        messages_tokens(seq![msgs[i]] + st.pair) == spec_message_tokens(msgs[i]) + messages_tokens(st.pair),
{
    let f = |m: MessageModel| spec_message_tokens(m);
    let rest = msgs.subrange(i + 1, u);
    assert(msgs.subrange(i, u) =~= seq![msgs[i]] + rest);
    lemma_sum_by_concat(seq![msgs[i]], rest, f);
    lemma_sum_by_concat(seq![msgs[i]], st.pair, f);
    lemma_sum_by_single(msgs[i], f);
}

/// Trims the history so that it fits the context window beside a system
/// prompt of `system_tokens` tokens.
pub fn trim_history_to_budget(messages: &[ChatMessage], system_tokens: usize) -> (r: Vec<ChatMessage>)
    requires
        messages_tokens(messages_view(messages@)) <= usize::MAX,
    ensures
        messages_view(r@) == spec_trim_history(messages_view(messages@), system_tokens as nat),
{
    let ghost msgs = messages_view(messages@);
    let ghost f = |m: MessageModel| spec_message_tokens(m);
    if messages.len() == 0 {
        let r: Vec<ChatMessage> = Vec::new();
        assert(messages_view(r@) =~= msgs);
        return r;
    }
    let user_idx = messages.len() - 1;
    proof {
        assert(msgs.subrange(user_idx as int, msgs.len() as int) =~= seq![msgs[user_idx as int]]);
        lemma_sum_by_concat(msgs.take(user_idx as int), seq![msgs[user_idx as int]], f);
        assert(msgs =~= msgs.take(user_idx as int) + seq![msgs[user_idx as int]]);
        assert(seq![msgs[user_idx as int]].drop_last() =~= Seq::<MessageModel>::empty());
    }
    let user_tokens = message_tokens(&messages[user_idx]);
    let mut history_budget: usize = MAX_CONTEXT_TOKENS.saturating_sub(system_tokens).saturating_sub(
        user_tokens,
    ).saturating_sub(RESERVED_OUTPUT_TOKENS).saturating_sub(256);
    if history_budget < 1000 {
        history_budget = 8000;
    }
    let ghost budget = history_budget as nat;
    assert(budget == spec_history_budget(system_tokens as nat, spec_message_tokens(msgs.last())));

    let mut trimmed: Vec<ChatMessage> = Vec::new();
    let mut used: usize = 0;
    let mut last_tool_pair: Vec<ChatMessage> = Vec::new();
    let mut tool_seq_started = false;
    let ghost init = TrimState { kept: Seq::empty(), used: 0, pair: Seq::empty(), started: false, stopped: false };
    let ghost mut st = init;
    let mut i = user_idx;
    assert(messages_view(trimmed@) =~= st.kept);
    assert(messages_view(last_tool_pair@) =~= st.pair);
    assert(msgs.subrange(user_idx as int, user_idx as int) =~= Seq::<MessageModel>::empty());
    while i > 0
        invariant_except_break
            !st.stopped,
        invariant
            i <= user_idx,
            user_idx == messages.len() - 1,
            msgs == messages_view(messages@),
            f == (|m: MessageModel| spec_message_tokens(m)),
            messages_tokens(msgs) <= usize::MAX,
            trim_run(msgs, budget, i as nat, st) == trim_run(msgs, budget, user_idx as nat, init),
            messages_view(trimmed@) == st.kept,
            messages_view(last_tool_pair@) == st.pair,
            used == st.used,
            tool_seq_started == st.started,
            budget == history_budget,
            st.used + messages_tokens(st.pair) <= messages_tokens(msgs.subrange(i as int, user_idx as int)),
            messages_tokens(msgs.subrange(i as int, user_idx as int)) <= usize::MAX,
        ensures
            trim_run(msgs, budget, i as nat, st) == trim_run(msgs, budget, user_idx as nat, init),
            st.stopped || i == 0,
            messages_view(trimmed@) == st.kept,
            messages_view(last_tool_pair@) == st.pair,
            used == st.used,
            st.used + messages_tokens(st.pair) <= usize::MAX,
        decreases i,
    {
        i -= 1;
        let ghost old_st = st;
        proof {
            lemma_trim_used_bound(msgs, budget, i as int, user_idx as int, st);
            lemma_sum_by_subrange(msgs, f, i as int, user_idx as int);
        }
        let msg = &messages[i];
        let t = message_tokens(msg);
        let is_tool = str_eq(msg.role.as_str(), "tool");
        let is_assistant = str_eq(msg.role.as_str(), "assistant");
        let is_tool_seq = is_tool || (is_assistant && msg.tool_calls.is_some()) || tool_seq_started;
        if is_tool_seq {
            tool_seq_started = true;
            last_tool_pair.insert(0, msg.duplicate());
            proof {
                assert(messages_view(last_tool_pair@) =~= seq![msgs[i as int]] + old_st.pair);
                st = TrimState { pair: seq![msgs[i as int]] + old_st.pair, started: true, ..old_st };
            }
            if i > 0 {
                let prev = &messages[i - 1];
                let prev_tool = str_eq(prev.role.as_str(), "tool");
                if !prev_tool && prev.tool_calls.is_none() {
                    tool_seq_started = false;
                    let mut pair_tokens: usize = 0;
                    let mut k: usize = 0;
                    while k < last_tool_pair.len()
                        invariant
                            k <= last_tool_pair.len(),
                            messages_view(last_tool_pair@) == st.pair,
                            f == (|m: MessageModel| spec_message_tokens(m)),
                            pair_tokens == sum_by(st.pair.take(k as int), f),
                            st.used + messages_tokens(st.pair) <= usize::MAX,
                        decreases last_tool_pair.len() - k,
                    {
                        proof {
                            lemma_sum_by_push(st.pair.take(k as int), st.pair[k as int], f);
                            assert(st.pair.take(k + 1) =~= st.pair.take(k as int).push(st.pair[k as int]));
                            lemma_sum_by_prefix(st.pair, f, k + 1);
                        }
                        pair_tokens = pair_tokens + message_tokens(&last_tool_pair[k]);
                        k += 1;
                    }
                    assert(st.pair.take(k as int) =~= st.pair);
                    if used + pair_tokens <= history_budget {
                        let ghost kept0 = messages_view(trimmed@);
                        let mut k2: usize = 0;
                        while k2 < last_tool_pair.len()
                            invariant
                                k2 <= last_tool_pair.len(),
                                last_tool_pair.len() == st.pair.len(),
                                messages_view(last_tool_pair@) == st.pair,
                                messages_view(trimmed@) == st.pair.take(k2 as int).reverse() + kept0,
                            decreases last_tool_pair.len() - k2,
                        {
                            let ghost before = messages_view(trimmed@);
                            trimmed.insert(0, last_tool_pair[k2].duplicate());
                            proof {
                                let p = st.pair;
                                assert(p.take(k2 + 1).reverse() =~= seq![p[k2 as int]] + p.take(k2 as int).reverse());
                                assert(messages_view(trimmed@) =~= seq![p[k2 as int]] + before);
                            }
                            k2 += 1;
                        }
                        assert(st.pair.take(k2 as int) =~= st.pair);
                        used += pair_tokens;
                        last_tool_pair = Vec::new();
                        proof {
                            assert(messages_view(last_tool_pair@) =~= Seq::<MessageModel>::empty());
                            st = TrimState {
                                kept: st.pair.reverse() + old_st.kept,
                                used: old_st.used + messages_tokens(st.pair),
                                pair: Seq::empty(),
                                started: false,
                                stopped: false,
                            };
                        }
                    } else {
                        last_tool_pair = Vec::new();
                        proof {
                            assert(messages_view(last_tool_pair@) =~= Seq::<MessageModel>::empty());
                            st = TrimState { pair: Seq::empty(), started: false, ..old_st };
                        }
                    }
                }
            }
            assert(st == trim_step(msgs, budget, i as int, old_st));
            continue;
        }
        if used + t > history_budget {
            proof {
                st = TrimState { stopped: true, ..old_st };
                assert(st == trim_step(msgs, budget, i as int, old_st));
                lemma_trim_run_stopped(msgs, budget, i as nat, st);
            }
            break;
        }
        trimmed.insert(0, msg.duplicate());
        used += t;
        proof {
            assert(messages_view(trimmed@) =~= seq![msgs[i as int]] + old_st.kept);
            st = TrimState { kept: seq![msgs[i as int]] + old_st.kept, used: (old_st.used + t) as nat, ..old_st };
            assert(st == trim_step(msgs, budget, i as int, old_st));
        }
    }
    let ghost final_st = trim_run(msgs, budget, user_idx as nat, init);
    proof {
        if st.stopped {
            lemma_trim_run_stopped(msgs, budget, i as nat, st);
        }
        assert(st == final_st);
    }
    if last_tool_pair.len() > 0 {
        let mut pair_tokens: usize = 0;
        let mut k: usize = 0;
        while k < last_tool_pair.len()
            invariant
                k <= last_tool_pair.len(),
                messages_view(last_tool_pair@) == st.pair,
                f == (|m: MessageModel| spec_message_tokens(m)),
                pair_tokens == sum_by(st.pair.take(k as int), f),
                st.used + messages_tokens(st.pair) <= usize::MAX,
            decreases last_tool_pair.len() - k,
        {
            proof {
                lemma_sum_by_push(st.pair.take(k as int), st.pair[k as int], f);
                assert(st.pair.take(k + 1) =~= st.pair.take(k as int).push(st.pair[k as int]));
                lemma_sum_by_prefix(st.pair, f, k + 1);
            }
            pair_tokens = pair_tokens + message_tokens(&last_tool_pair[k]);
            k += 1;
        }
        assert(st.pair.take(k as int) =~= st.pair);
        if used + pair_tokens <= history_budget {
            let ghost kept0 = messages_view(trimmed@);
            let mut k2: usize = 0;
            while k2 < last_tool_pair.len()
                invariant
                    k2 <= last_tool_pair.len(),
                    last_tool_pair.len() == st.pair.len(),
                    trimmed.len() == k2 + kept0.len(),
                    messages_view(last_tool_pair@) == st.pair,
                    messages_view(trimmed@) == st.pair.take(k2 as int) + kept0,
                decreases last_tool_pair.len() - k2,
            {
                let ghost before = trimmed@;
                let item = last_tool_pair[k2].duplicate();
                trimmed.insert(k2, item);
                proof {
                    let p = st.pair;
                    let target = p.take(k2 + 1) + kept0;
                    assert(trimmed@ =~= before.take(k2 as int).push(item) + before.skip(k2 as int));
                    assert forall|j: int| 0 <= j < trimmed@.len() implies messages_view(trimmed@)[j] == target[j] by {
                        if j < k2 {
                            assert(trimmed@[j] == before[j]);
                            assert(messages_view(before)[j] == before[j]@);
                        } else if j == k2 {
                            assert(messages_view(last_tool_pair@)[j] == last_tool_pair@[j]@);
                        } else {
                            assert(trimmed@[j] == before[j - 1]);
                            assert(messages_view(before)[j - 1] == before[j - 1]@);
                        }
                    }
                    assert(messages_view(trimmed@) =~= target);
                }
                k2 += 1;
            }
            assert(st.pair.take(k2 as int) =~= st.pair);
        }
    }
    let ghost front = messages_view(trimmed@);
    trimmed.push(messages[user_idx].duplicate());
    assert(messages_view(trimmed@) =~= front.push(msgs[user_idx as int]));
    trimmed
}

// ---------------------------------------------------------------------------
// Appending text never lowers the estimate

/// The exponent of the spacing around `n`: zero below 2^24 (in units), else
/// the `j` whose binade [2^(23+j), 2^(24+j)) holds `n`.
proof fn lemma_ulp_exp(n: nat) -> (j: nat)
    ensures
        f32_ulp(n) == pow2(j),
        j == 0 ==> n < pow2(24),
        j >= 1 ==> pow2(23 + j) <= n,
        n < pow2(24 + j),
    decreases n,
{
    lemma2_to64();
    if n < 0x1000000 {
        0
    } else {
        let jj = lemma_ulp_exp(n / 2);
        let j = jj + 1;
        lemma_pow2_unfold(j);
        assert((j - 1) as nat == jj);
        lemma_pow2_unfold(24 + j);
        assert((24 + j - 1) as nat == 24 + jj);
        lemma_pow2_unfold(23 + j);
        assert((23 + j - 1) as nat == 23 + jj);
        assert(f32_ulp(n) == 2 * f32_ulp(n / 2));
        if jj == 0 {
            assert(pow2(24) == 0x1000000);
        }
        j
    }
}

/// Rounding a value never goes below the grid point at or under it.
proof fn lemma_round_floor(n: nat)
    ensures
        f32_ulp(n) >= 1,
        (n / f32_ulp(n)) * f32_ulp(n) <= n,
        f32_round(n) >= (n / f32_ulp(n)) * f32_ulp(n),
{
    lemma_ulp_pos(n);
    let m = f32_ulp(n);
    let q = n / m;
    vstd::arithmetic::div_mod::lemma_fundamental_div_mod(n as int, m as int);
    assert(q * m <= n) by (nonlinear_arith)
        requires
            n == m * q + n % m,
            n % m >= 0,
    ;
    assert(q * m <= (q + 1) * m) by (nonlinear_arith)
        requires
            m >= 1,
    ;
}

/// A value on the grid of its own spacing and at most `n` is at most the
/// grid point of `n`'s spacing at or under `n`.
proof fn lemma_below_floor(x: nat, n: nat)
    requires
        x % f32_ulp(x) == 0,
        x <= n,
    ensures
        x <= (n / f32_ulp(n)) * f32_ulp(n),
{
    lemma2_to64();
    let j = lemma_ulp_exp(n);
    let m = f32_ulp(n);
    let q = n / m;
    lemma_pow2_pos(j);
    vstd::arithmetic::div_mod::lemma_fundamental_div_mod(n as int, m as int);
    if j >= 1 && x < pow2(23 + j) {
        lemma_pow2_adds(23, j);
        let a = pow2(23);
        assert(a * m <= n);
        assert(a <= q) by (nonlinear_arith)
            requires
                n == m * q + n % m,
                0 <= n % m < m,
                a * m <= n,
                m >= 1,
        ;
        assert(a * m <= q * m) by (nonlinear_arith)
            requires
                a <= q,
                m >= 1,
        ;
    } else {
        if j == 0 {
            assert(x < 0x1000000);
            assert(f32_ulp(x) == 1);
        } else {
            lemma_ulp_binade(x, j);
        }
        assert(f32_ulp(x) == m);
        vstd::arithmetic::div_mod::lemma_fundamental_div_mod(x as int, m as int);
        let a = x / m;
        assert(a * m == x) by (nonlinear_arith)
            requires
                x == m * (x / m) + x % m,
                x % m == 0,
                a == x / m,
        ;
        assert(a <= q) by (nonlinear_arith)
            requires
                n == m * q + n % m,
                0 <= n % m < m,
                a * m <= n,
                m >= 1,
        ;
        assert(a * m <= q * m) by (nonlinear_arith)
            requires
                a <= q,
                m >= 1,
        ;
    }
}

/// A rounded value lies on the grid of its own spacing.
proof fn lemma_round_on_grid(n: nat)
    ensures
        f32_round(n) % f32_ulp(f32_round(n)) == 0,
{
    lemma2_to64();
    let j = lemma_ulp_exp(n);
    let m = f32_ulp(n);
    let q = n / m;
    let r = f32_round(n);
    lemma_pow2_pos(j);
    vstd::arithmetic::div_mod::lemma_fundamental_div_mod(n as int, m as int);
    lemma_pow2_adds(24, j);
    let top = pow2(24);
    assert(q < top) by (nonlinear_arith)
        requires
            n == m * q + n % m,
            0 <= n % m,
            n < top * m,
            m >= 1,
    ;
    let k: nat = if r == (q + 1) * m { q + 1 } else { q };
    assert(r == k * m);
    assert(k * m <= top * m) by (nonlinear_arith)
        requires
            k <= top,
            m >= 1,
    ;
    if j >= 1 {
        lemma_pow2_adds(23, j);
        let a = pow2(23);
        assert(a <= q) by (nonlinear_arith)
            requires
                n == m * q + n % m,
                0 <= n % m < m,
                a * m <= n,
                m >= 1,
        ;
        assert(a * m <= k * m) by (nonlinear_arith)
            requires
                a <= k,
                m >= 1,
        ;
    }
    if r < pow2(24 + j) {
        if j == 0 {
            assert(f32_ulp(r) == 1);
        } else {
            lemma_ulp_binade(r, j);
        }
        vstd::arithmetic::div_mod::lemma_mod_multiples_basic(k as int, m as int);
    } else {
        assert(r == pow2(24 + j));
        lemma_pow2_strictly_increases(24 + j, 25 + j);
        assert((23 + (j + 1)) as nat == 24 + j);
        assert((24 + (j + 1)) as nat == 25 + j);
        lemma_ulp_binade(r, j + 1);
        lemma_pow2_adds(23, j + 1);
        lemma_pow2_pos(j + 1);
        vstd::arithmetic::div_mod::lemma_mod_multiples_basic(pow2(23) as int, pow2(j + 1) as int);
    }
}

/// Every running sum lies on the grid of its spacing and within 2^49 units.
proof fn lemma_weight_sum_grid(s: Seq<char>)
    ensures
        f32_weight_sum(s) % f32_ulp(f32_weight_sum(s)) == 0,
        f32_weight_sum(s) <= 0x2000000000000,
    decreases s.len(),
{
    if s.len() == 0 {
        assert(f32_ulp(0) == 1);
    } else {
        lemma_weight_sum_grid(s.drop_last());
        lemma_step_bound(f32_weight_sum(s.drop_last()), char_weight(s.last()));
        lemma_round_on_grid(f32_weight_sum(s.drop_last()) + char_weight(s.last()));
    }
}

/// The running sum never goes down as characters are appended.
proof fn lemma_weight_sum_append(a: Seq<char>, b: Seq<char>)
    ensures
        f32_weight_sum(a) <= f32_weight_sum(a + b),
    decreases b.len(),
{
    if b.len() == 0 {
        assert(a + b =~= a);
    } else {
        let b0 = b.drop_last();
        assert((a + b).drop_last() =~= a + b0);
        assert((a + b).last() == b.last());
        lemma_weight_sum_append(a, b0);
        let x = f32_weight_sum(a + b0);
        let n = x + char_weight(b.last());
        lemma_weight_sum_grid(a + b0);
        lemma_below_floor(x, n);
        lemma_round_floor(n);
    }
}

/// Appending text to a text never lowers its token estimate, which is
/// always at least one.
pub proof fn law_estimate_tokens_append(a: Seq<char>, b: Seq<char>)
    ensures
        1 <= spec_estimate_tokens(a) <= spec_estimate_tokens(a + b),
{
    lemma_weight_sum_append(a, b);
    let wa = f32_weight_sum(a);
    let wb = f32_weight_sum(a + b);
    vstd::arithmetic::div_mod::lemma_div_is_ordered(
        (wa + unit_one() - 1) as int,
        (wb + unit_one() - 1) as int,
        unit_one() as int,
    );
}

// ---------------------------------------------------------------------------
// A history that fits is kept whole

/// The walk over a history whose messages all fit the budget drops
/// nothing: what it keeps and what it holds pending are exactly the
/// messages walked over, and their tokens are all counted.
proof fn lemma_trim_run_keeps_all(msgs: Seq<MessageModel>, budget: nat, n: nat, i: nat, st: TrimState)
    requires
        n < msgs.len(),
        i <= n,
        !st.stopped,
        messages_tokens(msgs.subrange(0, n as int)) <= budget,
        st.used + messages_tokens(st.pair) == messages_tokens(msgs.subrange(i as int, n as int)),
        st.kept.to_multiset().add(st.pair.to_multiset()) == msgs.subrange(i as int, n as int).to_multiset(),
    ensures
        !trim_run(msgs, budget, i, st).stopped,
        trim_run(msgs, budget, i, st).used + messages_tokens(trim_run(msgs, budget, i, st).pair)
            == messages_tokens(msgs.subrange(0, n as int)),
        trim_run(msgs, budget, i, st).kept.to_multiset().add(trim_run(msgs, budget, i, st).pair.to_multiset())
            == msgs.subrange(0, n as int).to_multiset(),
    decreases i,
{
    broadcast use vstd::seq_lib::group_to_multiset_ensures, vstd::multiset::group_multiset_axioms;
    if i == 0 {
        assert(msgs.subrange(0, n as int) =~= msgs.subrange(i as int, n as int));
    } else {
        let j = (i - 1) as int;
        let f = |m: MessageModel| spec_message_tokens(m);
        let m = msgs[j];
        let rest = msgs.subrange(i as int, n as int);
        let here = msgs.subrange(j, n as int);
        assert(here =~= seq![m] + rest);
        lemma_sum_by_concat(seq![m], rest, f);
        lemma_sum_by_single(m, f);
        lemma_sum_by_concat(seq![m], st.pair, f);
        assert(msgs.subrange(0, n as int) =~= msgs.subrange(0, j) + here);
        lemma_sum_by_concat(msgs.subrange(0, j), here, f);
        vstd::seq_lib::lemma_multiset_commutative(seq![m], rest);
        vstd::seq_lib::lemma_multiset_commutative(seq![m], st.pair);
        vstd::seq_lib::lemma_multiset_commutative(seq![m], st.kept);
        let pair = seq![m] + st.pair;
        pair.lemma_reverse_to_multiset();
        vstd::seq_lib::lemma_multiset_commutative(pair.reverse(), st.kept);
        let nx = trim_step(msgs, budget, j, st);
        assert(!nx.stopped);
        assert(nx.used + messages_tokens(nx.pair) == messages_tokens(here));
        assert(nx.kept.to_multiset().add(nx.pair.to_multiset()) =~= here.to_multiset());
        lemma_trim_run_keeps_all(msgs, budget, n, (i - 1) as nat, nx);
    }
}

/// When the earlier messages of a history fit the budget left beside the
/// system prompt and the new user message, trimming drops nothing: the
/// result holds exactly the messages of the history (tool exchanges
/// included), and the new user message comes last.
pub proof fn law_trim_keeps_history_that_fits(msgs: Seq<MessageModel>, system_tokens: nat)
    requires
        msgs.len() > 0,
        messages_tokens(msgs.drop_last()) <= spec_history_budget(system_tokens, spec_message_tokens(msgs.last())),
    ensures
        spec_trim_history(msgs, system_tokens).to_multiset() == msgs.to_multiset(),
        spec_trim_history(msgs, system_tokens).len() == msgs.len(),
        spec_trim_history(msgs, system_tokens).last() == msgs.last(),
{
    broadcast use vstd::seq_lib::group_to_multiset_ensures, vstd::multiset::group_multiset_axioms;
    let n = (msgs.len() - 1) as nat;
    let budget = spec_history_budget(system_tokens, spec_message_tokens(msgs.last()));
    let init = TrimState { kept: Seq::empty(), used: 0, pair: Seq::empty(), started: false, stopped: false };
    assert(msgs.subrange(0, n as int) =~= msgs.drop_last());
    assert(msgs.subrange(n as int, n as int) =~= Seq::<MessageModel>::empty());
    assert(init.kept.to_multiset().add(init.pair.to_multiset()) =~= msgs.subrange(n as int, n as int).to_multiset());
    lemma_trim_run_keeps_all(msgs, budget, n, n, init);
    let st = trim_run(msgs, budget, n, init);
    let front = if st.pair.len() > 0 && st.used + messages_tokens(st.pair) <= budget {
        st.pair + st.kept
    } else {
        st.kept
    };
    vstd::seq_lib::lemma_multiset_commutative(st.pair, st.kept);
    if st.pair.len() == 0 {
        assert(st.pair.to_multiset() =~= vstd::multiset::Multiset::<MessageModel>::empty());
    }
    assert(front.to_multiset() =~= msgs.drop_last().to_multiset());
    assert(msgs =~= msgs.drop_last().push(msgs.last()));
    assert(spec_trim_history(msgs, system_tokens) == front.push(msgs.last()));
    front.to_multiset_ensures();
    msgs.drop_last().to_multiset_ensures();
    vstd::seq_lib::to_multiset_len(front);
    vstd::seq_lib::to_multiset_len(msgs.drop_last());
}

/// The walk over plain messages that all fit keeps them, in order.
proof fn lemma_trim_run_plain(msgs: Seq<MessageModel>, budget: nat, n: nat, i: nat, st: TrimState)
    requires
        n < msgs.len(),
        i <= n,
        !st.stopped,
        !st.started,
        st.pair.len() == 0,
        forall|j: int| 0 <= j < n ==> !opens_tool_run(#[trigger] msgs[j]),
        messages_tokens(msgs.subrange(0, n as int)) <= budget,
        st.used == messages_tokens(msgs.subrange(i as int, n as int)),
        st.kept == msgs.subrange(i as int, n as int),
    ensures
        trim_run(msgs, budget, i, st).kept == msgs.subrange(0, n as int),
        trim_run(msgs, budget, i, st).pair.len() == 0,
    decreases i,
{
    if i > 0 {
        let j = (i - 1) as int;
        let f = |m: MessageModel| spec_message_tokens(m);
        let m = msgs[j];
        let rest = msgs.subrange(i as int, n as int);
        let here = msgs.subrange(j, n as int);
        assert(here =~= seq![m] + rest);
        lemma_sum_by_concat(seq![m], rest, f);
        lemma_sum_by_single(m, f);
        assert(msgs.subrange(0, n as int) =~= msgs.subrange(0, j) + here);
        lemma_sum_by_concat(msgs.subrange(0, j), here, f);
        assert(!opens_tool_run(msgs[j]));
        let nx = trim_step(msgs, budget, j, st);
        assert(nx.kept == here);
        lemma_trim_run_plain(msgs, budget, n, (i - 1) as nat, nx);
    }
}

/// A history without tool exchanges whose earlier messages fit the budget
/// comes back unchanged: same messages, same order.
pub proof fn law_trim_keeps_plain_history(msgs: Seq<MessageModel>, system_tokens: nat)
    requires
        msgs.len() > 0,
        forall|j: int| 0 <= j < msgs.len() - 1 ==> !opens_tool_run(#[trigger] msgs[j]),
        messages_tokens(msgs.drop_last()) <= spec_history_budget(system_tokens, spec_message_tokens(msgs.last())),
    ensures
        spec_trim_history(msgs, system_tokens) == msgs,
{
    let n = (msgs.len() - 1) as nat;
    let budget = spec_history_budget(system_tokens, spec_message_tokens(msgs.last()));
    let init = TrimState { kept: Seq::empty(), used: 0, pair: Seq::empty(), started: false, stopped: false };
    assert(msgs.subrange(0, n as int) =~= msgs.drop_last());
    assert(msgs.subrange(n as int, n as int) =~= Seq::<MessageModel>::empty());
    lemma_trim_run_plain(msgs, budget, n, n, init);
    assert(msgs.drop_last().push(msgs.last()) =~= msgs);
}


// ---------------------------------------------------------------------------
// Where a kept tool exchange stands

/// Walking back over plain messages that fit keeps each of them in front
/// of what was kept before.
proof fn lemma_walk_plain(msgs: Seq<MessageModel>, budget: nat, lo: nat, i: nat, st: TrimState)
    requires
        lo <= i <= msgs.len(),
        !st.stopped,
        !st.started,
        st.pair.len() == 0,
        forall|j: int| lo <= j < i ==> !opens_tool_run(#[trigger] msgs[j]),
        st.used + messages_tokens(msgs.subrange(lo as int, i as int)) <= budget,
    ensures
        trim_run(msgs, budget, i, st) == trim_run(
            msgs,
            budget,
            lo,
            TrimState {
                kept: msgs.subrange(lo as int, i as int) + st.kept,
                used: st.used + messages_tokens(msgs.subrange(lo as int, i as int)),
                ..st
            },
        ),
    decreases i,
{
    let f = |m: MessageModel| spec_message_tokens(m);
    if i == lo {
        assert(msgs.subrange(lo as int, i as int) =~= Seq::<MessageModel>::empty());
        assert(msgs.subrange(lo as int, i as int) + st.kept =~= st.kept);
        assert(messages_tokens(msgs.subrange(lo as int, i as int)) == 0);
    } else {
        let k = (i - 1) as int;
        let m = msgs[k];
        let below = msgs.subrange(lo as int, k);
        assert(msgs.subrange(lo as int, i as int) =~= below + seq![m]);
        lemma_sum_by_concat(below, seq![m], f);
        lemma_sum_by_single(m, f);
        let nx = trim_step(msgs, budget, k, st);
        assert(nx == TrimState { kept: seq![m] + st.kept, used: st.used + spec_message_tokens(m), ..st });
        lemma_walk_plain(msgs, budget, lo, k as nat, nx);
        assert(below + (seq![m] + st.kept) =~= msgs.subrange(lo as int, i as int) + st.kept);
    }
}

/// Walking back over a tool exchange that fits collects it whole and keeps
/// it, in the order the walk met it, in front of what was kept before.
proof fn lemma_walk_exchange(msgs: Seq<MessageModel>, budget: nat, lo: nat, i: nat, hi: nat, st: TrimState)
    requires
        0 < lo < i <= hi <= msgs.len(),
        !st.stopped,
        st.started || opens_tool_run(msgs[i - 1]),
        st.pair == msgs.subrange(i as int, hi as int),
        !continues_tool_run(msgs[lo - 1]),
        forall|j: int| lo <= j < i - 1 ==> continues_tool_run(#[trigger] msgs[j]),
        st.used + messages_tokens(msgs.subrange(lo as int, hi as int)) <= budget,
    ensures
        trim_run(msgs, budget, i, st) == trim_run(
            msgs,
            budget,
            lo,
            TrimState {
                kept: msgs.subrange(lo as int, hi as int).reverse() + st.kept,
                used: st.used + messages_tokens(msgs.subrange(lo as int, hi as int)),
                pair: Seq::empty(),
                started: false,
                stopped: false,
            },
        ),
    decreases i,
{
    let k = (i - 1) as int;
    let m = msgs[k];
    let pair = seq![m] + st.pair;
    assert(pair =~= msgs.subrange(k, hi as int));
    let nx = trim_step(msgs, budget, k, st);
    if k == lo {
        assert(nx == TrimState {
            kept: msgs.subrange(lo as int, hi as int).reverse() + st.kept,
            used: st.used + messages_tokens(msgs.subrange(lo as int, hi as int)),
            pair: Seq::empty(),
            started: false,
            stopped: false,
        });
    } else {
        assert(continues_tool_run(msgs[k - 1]));
        assert(nx == TrimState { pair, started: true, ..st });
        lemma_walk_exchange(msgs, budget, lo, k as nat, hi, nx);
    }
}

/// A history made of plain messages, one tool exchange and plain messages
/// again, whose earlier messages fit the budget, keeps every message: the
/// plain ones in place and the exchange in the order the backwards walk
/// met it (newest first), with the new user message last.  The exchange is
/// the run of tool messages and tool-calling assistant messages that the
/// message before it does not continue.
pub proof fn law_trim_places_exchange(
    before: Seq<MessageModel>,
    exchange: Seq<MessageModel>,
    after: Seq<MessageModel>,
    last: MessageModel,
    system_tokens: nat,
)
    requires
        before.len() > 0,
        forall|j: int| 0 <= j < before.len() ==> !opens_tool_run(#[trigger] before[j]),
        !continues_tool_run(before.last()),
        exchange.len() > 0,
        opens_tool_run(exchange.last()),
        forall|j: int| 0 <= j < exchange.len() - 1 ==> continues_tool_run(#[trigger] exchange[j]),
        forall|j: int| 0 <= j < after.len() ==> !opens_tool_run(#[trigger] after[j]),
        messages_tokens(before + exchange + after) <= spec_history_budget(system_tokens, spec_message_tokens(last)),
    ensures
        spec_trim_history((before + exchange + after).push(last), system_tokens)
            == (before + exchange.reverse() + after).push(last),
{
    let f = |m: MessageModel| spec_message_tokens(m);
    let msgs = (before + exchange + after).push(last);
    let p = before.len();
    let e = p + exchange.len();
    let n = (msgs.len() - 1) as nat;
    let budget = spec_history_budget(system_tokens, spec_message_tokens(last));
    assert(msgs.last() == last);
    assert(msgs.subrange(0, p as int) =~= before);
    assert(msgs.subrange(p as int, e as int) =~= exchange);
    assert(msgs.subrange(e as int, n as int) =~= after);
    lemma_sum_by_concat(before, exchange, f);
    lemma_sum_by_concat(before + exchange, after, f);
    let init = TrimState { kept: Seq::empty(), used: 0, pair: Seq::empty(), started: false, stopped: false };
    assert forall|j: int| e <= j < n implies !opens_tool_run(#[trigger] msgs[j]) by {
        assert(msgs[j] == after[j - e]);
    }
    lemma_walk_plain(msgs, budget, e as nat, n, init);
    let s1 = TrimState { kept: after + init.kept, used: messages_tokens(after), ..init };
    assert(after + init.kept =~= after);
    assert(msgs[e - 1] == exchange.last());
    assert(msgs[p - 1] == before.last());
    assert forall|j: int| p <= j < e - 1 implies continues_tool_run(#[trigger] msgs[j]) by {
        assert(msgs[j] == exchange[j - p]);
    }
    assert(s1.pair =~= msgs.subrange(e as int, e as int));
    lemma_walk_exchange(msgs, budget, p as nat, e as nat, e as nat, s1);
    let s2 = TrimState {
        kept: exchange.reverse() + after,
        used: messages_tokens(after) + messages_tokens(exchange),
        pair: Seq::empty(),
        started: false,
        stopped: false,
    };
    assert forall|j: int| 0 <= j < p implies !opens_tool_run(#[trigger] msgs[j]) by {
        assert(msgs[j] == before[j]);
    }
    lemma_walk_plain(msgs, budget, 0, p as nat, s2);
    assert(before + (exchange.reverse() + after) =~= before + exchange.reverse() + after);
}

} // verus!
