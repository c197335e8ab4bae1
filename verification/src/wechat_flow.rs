//! The decisions around WeChat conversations: the rows written for inbound
//! and outbound messages, the events shown to the user, the login poll, the
//! long-poll loop's reaction to failures, and how an automatic reply is
//! prepared and cut into messages.

use vstd::prelude::*;
use vstd::string::StringExecFns;
use rand::Rng;
use crate::chat::opt_str;
use crate::ilink::{IncomingMessage, QrCodePollResult, LoginResult};
use crate::json::{JsonValue, spec_get, spec_as_bool, spec_as_u64, spec_as_str};
use crate::models::{WeChatMessage, WeChatMessageModel, WeChatLoginStatus, LoginStatusModel};
use crate::stream::new_uuid_text;
use crate::text::{chars_of, trim_chars, string_from_chars, spec_trim, str_eq, strs_view, lemma_strs_view_push, spec_contains, contains};
use crate::wechat::{
    QrCodeStatus, spec_msg_type_str, msg_type_str, spec_qrcode_status_str, map_qrcode_status_str,
    spec_remove_action_descriptions, remove_action_descriptions, spec_smart_split, smart_split_segments,
};

verus! {

/// A message shown to the user as it arrives or changes.
pub struct WeChatMessageEvent {
    pub account_id: String,
    pub session_id: String,
    pub message: WeChatMessage,
    pub is_new_session: bool,
}

/// A change of an account's state shown to the user.
pub struct WeChatAccountEvent {
    pub account_id: String,
    pub status: String,
    pub nickname: Option<String>,
    pub avatar_url: Option<String>,
    pub last_error: Option<String>,
}

/// The model of an account event.
pub struct AccountEventModel {
    pub account_id: Seq<char>,
    pub status: Seq<char>,
    pub nickname: Option<Seq<char>>,
    pub avatar_url: Option<Seq<char>>,
    pub last_error: Option<Seq<char>>,
}

impl View for WeChatAccountEvent {
    type V = AccountEventModel;

    open spec fn view(&self) -> AccountEventModel {
        AccountEventModel {
            account_id: self.account_id@,
            status: self.status@,
            nickname: opt_str(self.nickname),
            avatar_url: opt_str(self.avatar_url),
            last_error: opt_str(self.last_error),
        }
    }
}

/// An inbound message after it was stored.
pub struct PersistedInbound {
    pub session_id: String,
    pub message: WeChatMessage,
    pub is_new_session: bool,
}

/// An account event that carries only a state and an error.
pub open spec fn state_event(account_id: Seq<char>, status: Seq<char>, last_error: Option<Seq<char>>) -> AccountEventModel {
    AccountEventModel { account_id, status, nickname: None, avatar_url: None, last_error }
}

fn account_event(account_id: &str, status: &str, last_error: Option<String>) -> (r: WeChatAccountEvent)
    ensures
        r@ == state_event(account_id@, status@, opt_str(last_error)),
{
    WeChatAccountEvent {
        account_id: String::from_str(account_id),
        status: String::from_str(status),
        nickname: None,
        avatar_url: None,
        last_error,
    }
}

/// The event that an account is online after a new conversation appeared.
pub fn online_event(account_id: &str) -> (r: WeChatAccountEvent)
    ensures
        r@ == state_event(account_id@, "online"@, None),
{
    account_event(account_id, "online", None)
}

// ---------------------------------------------------------------------------
// Message rows

/// Whether an id is a message id: `wmsg_` and a random identifier.
pub open spec fn is_message_id(id: Seq<char>) -> bool {
    id.len() == 41 && id.take(5) == "wmsg_"@
}

/// A fresh message id: `wmsg_` and a random identifier.
pub fn new_message_id() -> (r: String)
    ensures
        is_message_id(r@),
{
    let u = new_uuid_text();
    let mut s = String::from_str("wmsg_");
    proof {
        reveal_strlit("wmsg_");
    }
    s.append(u.as_str());
    assert(s@.take(5) =~= "wmsg_"@);
    s
}

/// The kind of peer stored for an inbound message: `room`, else `user`.
pub open spec fn spec_peer_kind(peer_type: Seq<char>) -> Seq<char> {
    if peer_type == "room"@ {
        "room"@
    } else {
        "user"@
    }
}

/// The kind of peer stored for an inbound message.
pub fn peer_kind(peer_type: &str) -> (r: &'static str)
    ensures
        r@ == spec_peer_kind(peer_type@),
{
    if str_eq(peer_type, "room") {
        "room"
    } else {
        "user"
    }
}

/// The row stored for an inbound message with id `id` in session
/// `session_id`.
pub open spec fn spec_inbound_row(id: Seq<char>, account_id: Seq<char>, session_id: Seq<char>, m: IncomingMessage) -> WeChatMessageModel {
    WeChatMessageModel {
        id,
        account_id,
        session_id,
        remote_msg_id: Some(m.remote_msg_id@),
        direction: "inbound"@,
        msg_type: spec_msg_type_str(m.msg_type),
        content: opt_str(m.content),
        media_url: opt_str(m.media_url),
        media_local_path: None,
        sender_id: opt_str(m.sender_id),
        sender_name: opt_str(m.sender_name),
        context_token: opt_str(m.context_token),
        status: "sent"@,
        error: None,
        created_at: m.received_at@,
    }
}

fn copy_opt(o: &Option<String>) -> (r: Option<String>)
    ensures
        opt_str(r) == opt_str(*o),
{
    match o {
        Some(s) => Some(s.clone()),
        None => None,
    }
}

/// The row stored for an inbound message.
pub fn inbound_row(id: String, account_id: &str, session_id: &str, m: &IncomingMessage) -> (r: WeChatMessage)
    ensures
        r@ == spec_inbound_row(id@, account_id@, session_id@, *m),
{
    WeChatMessage {
        id,
        account_id: String::from_str(account_id),
        session_id: String::from_str(session_id),
        remote_msg_id: Some(m.remote_msg_id.clone()),
        direction: String::from_str("inbound"),
        msg_type: String::from_str(msg_type_str(&m.msg_type)),
        content: copy_opt(&m.content),
        media_url: copy_opt(&m.media_url),
        media_local_path: None,
        sender_id: copy_opt(&m.sender_id),
        sender_name: copy_opt(&m.sender_name),
        context_token: copy_opt(&m.context_token),
        status: String::from_str("sent"),
        error: None,
        created_at: m.received_at.clone(),
    }
}

/// The pending row stored for an outbound text before it is sent.
pub open spec fn spec_outbound_row(
    id: Seq<char>,
    account_id: Seq<char>,
    session_id: Seq<char>,
    text: Seq<char>,
    context_token: Seq<char>,
    now: Seq<char>,
) -> WeChatMessageModel {
    WeChatMessageModel {
        id,
        account_id,
        session_id,
        remote_msg_id: None,
        direction: "outbound"@,
        msg_type: "text"@,
        content: Some(text),
        media_url: None,
        media_local_path: None,
        sender_id: None,
        sender_name: None,
        context_token: Some(context_token),
        status: "pending"@,
        error: None,
        created_at: now,
    }
}

/// The pending row stored for an outbound text before it is sent.
pub fn outbound_row(id: String, account_id: &str, session_id: &str, text: &str, context_token: &str, now: &str) -> (r: WeChatMessage)
    ensures
        r@ == spec_outbound_row(id@, account_id@, session_id@, text@, context_token@, now@),
{
    WeChatMessage {
        id,
        account_id: String::from_str(account_id),
        session_id: String::from_str(session_id),
        remote_msg_id: None,
        direction: String::from_str("outbound"),
        msg_type: String::from_str("text"),
        content: Some(String::from_str(text)),
        media_url: None,
        media_local_path: None,
        sender_id: None,
        sender_name: None,
        context_token: Some(String::from_str(context_token)),
        status: String::from_str("pending"),
        error: None,
        created_at: String::from_str(now),
    }
}

/// A copy of a row with another state, remote id and error.
pub fn with_status(m: &WeChatMessage, status: &str, remote_msg_id: Option<String>, error: Option<String>) -> (r: WeChatMessage)
    ensures
        r@ == (WeChatMessageModel {
            status: status@,
            remote_msg_id: opt_str(remote_msg_id),
            error: opt_str(error),
            ..m@
        }),
{
    WeChatMessage {
        id: m.id.clone(),
        account_id: m.account_id.clone(),
        session_id: m.session_id.clone(),
        remote_msg_id,
        direction: m.direction.clone(),
        msg_type: m.msg_type.clone(),
        content: copy_opt(&m.content),
        media_url: copy_opt(&m.media_url),
        media_local_path: copy_opt(&m.media_local_path),
        sender_id: copy_opt(&m.sender_id),
        sender_name: copy_opt(&m.sender_name),
        context_token: copy_opt(&m.context_token),
        status: String::from_str(status),
        error,
        created_at: m.created_at.clone(),
    }
}

// ---------------------------------------------------------------------------
// Sending a text by hand

/// A text that is only white space cannot be sent.
pub open spec fn spec_check_send_text(text: Seq<char>) -> Result<(), Seq<char>> {
    if spec_trim(text).len() == 0 {
        Err("消息内容不能为空"@)
    } else {
        Ok(())
    }
}

/// Refuses a text that is only white space.
pub fn check_send_text(text: &str) -> (r: Result<(), String>)
    ensures
        match r {
            Ok(()) => spec_check_send_text(text@) == Ok::<(), Seq<char>>(()),
            Err(e) => spec_check_send_text(text@) == Err::<(), Seq<char>>(e@),
        },
{
    let t = trim_chars(&chars_of(text));
    if t.len() == 0 {
        Err(String::from_str("消息内容不能为空"))
    } else {
        Ok(())
    }
}

/// The first of `recent` (oldest first) that is inbound and carries a
/// context token, if any.
pub open spec fn first_token_at(recent: Seq<WeChatMessage>) -> Option<int> {
    if exists|i: int| 0 <= i < recent.len() && #[trigger] carries_token(recent[i]) {
        Some(choose|i: int| 0 <= i < recent.len() && carries_token(recent[i]) && forall|j: int| 0 <= j < i ==> !#[trigger] carries_token(recent[j]))
    } else {
        None
    }
}

/// Whether a row is inbound and carries a context token.
pub open spec fn carries_token(m: WeChatMessage) -> bool {
    m.direction@ == "inbound"@ && m.context_token is Some
}

/// The context token a reply goes out under: that of the oldest inbound
/// message among the recent ones that carries one.  Without one the bot
/// cannot write.
pub open spec fn spec_context_token(recent: Seq<WeChatMessage>) -> Result<Seq<char>, Seq<char>> {
    match first_token_at(recent) {
        Some(i) => Ok(recent[i].context_token.unwrap()@),
        None => Err("无法发送：未找到有效的 context_token（需等待用户先发送消息，Bot 才能在 24h 窗口内回复）"@),
    }
}

/// Finds the context token a reply goes out under.
pub fn find_context_token(recent: &Vec<WeChatMessage>) -> (r: Result<String, String>)
    ensures
        match r {
            Ok(t) => spec_context_token(recent@) == Ok::<Seq<char>, Seq<char>>(t@),
            Err(e) => spec_context_token(recent@) == Err::<Seq<char>, Seq<char>>(e@),
        },
{
    let mut k: usize = 0;
    while k < recent.len()
        invariant
            k <= recent.len(),
            forall|j: int| 0 <= j < k ==> !#[trigger] carries_token(recent@[j]),
        decreases recent.len() - k,
    {
        let m = &recent[k];
        if str_eq(m.direction.as_str(), "inbound") {
            if let Some(t) = &m.context_token {
                proof {
                    assert(carries_token(recent@[k as int]));
                    let i = choose|i: int| 0 <= i < recent@.len() && carries_token(recent@[i]) && forall|j: int| 0 <= j < i ==> !#[trigger] carries_token(recent@[j]);
                    if i < k {
                        assert(!carries_token(recent@[i]));
                    }
                    if k < i {
                        assert(!carries_token(recent@[k as int]));
                    }
                }
                return Ok(t.clone());
            }
        }
        k += 1;
    }
    Err(String::from_str("无法发送：未找到有效的 context_token（需等待用户先发送消息，Bot 才能在 24h 窗口内回复）"))
}

// ---------------------------------------------------------------------------
// Automatic replies

/// The conversation an automatic reply is written for: the recent messages
/// of the session (given oldest first) from the newest back, each with
/// content as a `user` turn when inbound and an `assistant` turn otherwise.
pub open spec fn spec_peer_context(msgs: Seq<WeChatMessage>) -> Seq<(Seq<char>, Seq<char>)>
    decreases msgs.len(),
{
    if msgs.len() == 0 {
        Seq::empty()
    } else {
        let m = msgs.last();
        let rest = spec_peer_context(msgs.drop_last());
        match m.content {
            Some(c) => seq![(if m.direction@ == "inbound"@ {
                "user"@
            } else {
                "assistant"@
            }, c@)] + rest,
            None => rest,
        }
    }
}

/// The models of role and content pairs.
pub open spec fn turns_view(v: Seq<(String, String)>) -> Seq<(Seq<char>, Seq<char>)> {
    v.map_values(|p: (String, String)| (p.0@, p.1@))
}

/// The conversation an automatic reply is written for.
pub fn peer_context(msgs: &Vec<WeChatMessage>) -> (r: Vec<(String, String)>)
    ensures
        turns_view(r@) == spec_peer_context(msgs@),
{
    let mut out: Vec<(String, String)> = Vec::new();
    let mut k: usize = msgs.len();
    assert(msgs@.take(k as int) =~= msgs@);
    assert(turns_view(out@) =~= Seq::<(Seq<char>, Seq<char>)>::empty());
    while k > 0
        invariant
            k <= msgs.len(),
            turns_view(out@) + spec_peer_context(msgs@.take(k as int)) == spec_peer_context(msgs@),
        decreases k,
    {
        let ghost pre = msgs@.take(k as int);
        assert(pre.drop_last() =~= msgs@.take(k - 1));
        assert(pre.last() == msgs@[k - 1]);
        let m = &msgs[k - 1];
        match &m.content {
            Some(c) => {
                let role = if str_eq(m.direction.as_str(), "inbound") {
                    String::from_str("user")
                } else {
                    String::from_str("assistant")
                };
                let ghost before = out@;
                out.push((role, c.clone()));
                assert(turns_view(out@) =~= turns_view(before).push((role@, c@)));
                assert(turns_view(out@) + spec_peer_context(msgs@.take(k - 1)) =~= turns_view(before) + spec_peer_context(pre));
            },
            None => {},
        }
        k -= 1;
    }
    assert(msgs@.take(0) =~= Seq::<WeChatMessage>::empty());
    assert(turns_view(out@) + Seq::<(Seq<char>, Seq<char>)>::empty() =~= turns_view(out@));
    out
}

/// How a persona wants its automatic replies delivered.
pub struct ReplySettings {
    /// Whether a reply is cut into several messages.
    pub segmented: bool,
    /// The base pause between two messages, in milliseconds.
    pub segment_delay_ms: u64,
    /// `inline` keeps bracketed action descriptions, `separate` sends them
    /// as messages of their own, `remove` drops them.
    pub action_mode: String,
}

/// The delivery settings in a persona's WeChat settings object; missing
/// or mistyped members take the defaults: one message, 800 ms, `inline`.
pub open spec fn spec_reply_settings(w: Option<JsonValue>) -> (bool, u64, Seq<char>) {
    match w {
        Some(v) => (
            match spec_get(v, "enableSegmentedReply"@) {
                Some(x) => match spec_as_bool(x) {
                    Some(b) => b,
                    None => false,
                },
                None => false,
            },
            match spec_get(v, "segmentDelay"@) {
                Some(x) => match spec_as_u64(x) {
                    Some(d) => d,
                    None => 800,
                },
                None => 800,
            },
            match spec_get(v, "actionDescriptionMode"@) {
                Some(x) => match spec_as_str(x) {
                    Some(m) => m,
                    None => "inline"@,
                },
                None => "inline"@,
            },
        ),
        None => (false, 800, "inline"@),
    }
}

/// Reads the delivery settings out of a persona's WeChat settings.
pub fn reply_settings(w: &Option<JsonValue>) -> (r: ReplySettings)
    ensures
        (r.segmented, r.segment_delay_ms, r.action_mode@) == spec_reply_settings(*w),
{
    match w {
        Some(v) => {
            let segmented = match v.get("enableSegmentedReply") {
                Some(x) => match x.as_bool() {
                    Some(b) => b,
                    None => false,
                },
                None => false,
            };
            let segment_delay_ms = match v.get("segmentDelay") {
                Some(x) => match x.as_u64() {
                    Some(d) => d,
                    None => 800,
                },
                None => 800,
            };
            let action_mode = match v.get("actionDescriptionMode") {
                Some(x) => match x.as_str() {
                    Some(m) => String::from_str(m),
                    None => String::from_str("inline"),
                },
                None => String::from_str("inline"),
            };
            ReplySettings { segmented, segment_delay_ms, action_mode }
        },
        None => ReplySettings { segmented: false, segment_delay_ms: 800, action_mode: String::from_str("inline") },
    }
}

/// Whom and what an automatic reply answers.
pub struct ReplyTarget {
    pub text: String,
    pub peer_id: String,
    pub context_token: String,
}

/// The target of an automatic reply to a stored inbound message: none when
/// its text is only white space or it carries no context token.
pub open spec fn spec_reply_target(m: WeChatMessageModel) -> Option<(Seq<char>, Seq<char>, Seq<char>)> {
    let text = match m.content {
        Some(c) => c,
        None => Seq::empty(),
    };
    let peer = match m.sender_id {
        Some(s) => s,
        None => Seq::empty(),
    };
    let token = match m.context_token {
        Some(t) => t,
        None => Seq::empty(),
    };
    if spec_trim(text).len() == 0 || token.len() == 0 {
        None
    } else {
        Some((text, peer, token))
    }
}

fn or_empty(o: &Option<String>) -> (r: String)
    ensures
        r@ == match opt_str(*o) {
            Some(s) => s,
            None => Seq::empty(),
        },
{
    match o {
        Some(s) => s.clone(),
        None => String::new(),
    }
}

/// The target of an automatic reply to a stored inbound message.
pub fn reply_target(m: &WeChatMessage) -> (r: Option<ReplyTarget>)
    ensures
        match r {
            Some(t) => spec_reply_target(m@) == Some((t.text@, t.peer_id@, t.context_token@)),
            None => spec_reply_target(m@) is None,
        },
{
    let text = or_empty(&m.content);
    let t = trim_chars(&chars_of(text.as_str()));
    if t.len() == 0 {
        return None;
    }
    let peer_id = or_empty(&m.sender_id);
    let context_token = or_empty(&m.context_token);
    if context_token.as_str().is_empty() {
        return None;
    }
    Some(ReplyTarget { text, peer_id, context_token })
}

/// One message of an automatic reply, with the pauses around it.
pub struct PlannedSend {
    pub text: String,
    /// Wait a moment of thought before it: it is the first message.
    pub pause_before: bool,
    /// Wait the segment pause after it: more may follow.
    pub pause_after: bool,
}

/// The model of a planned message.
pub struct SendModel {
    pub text: Seq<char>,
    pub pause_before: bool,
    pub pause_after: bool,
}

impl View for PlannedSend {
    type V = SendModel;

    open spec fn view(&self) -> SendModel {
        SendModel { text: self.text@, pause_before: self.pause_before, pause_after: self.pause_after }
    }
}

/// The segments a reply is cut into: bracketed actions dropped first in
/// `remove` mode, then cut when segmented, else one segment.
pub open spec fn spec_reply_segments(reply: Seq<char>, segmented: bool, mode: Seq<char>) -> Seq<Seq<char>> {
    let processed = if mode == "remove"@ {
        spec_remove_action_descriptions(reply)
    } else {
        reply
    };
    if segmented {
        spec_smart_split(processed, mode)
    } else {
        seq![processed]
    }
}

/// The messages for the first `k` segments: each trimmed, empty ones left
/// out; the first segment is preceded by a pause, every segment but the
/// last followed by one when the segment pause is not zero.
pub open spec fn sends_upto(segs: Seq<Seq<char>>, delay: u64, k: int) -> Seq<SendModel>
    decreases k,
{
    if k <= 0 {
        Seq::empty()
    } else {
        let p = sends_upto(segs, delay, k - 1);
        let t = spec_trim(segs[k - 1]);
        if t.len() > 0 {
            p.push(SendModel { text: t, pause_before: k - 1 == 0, pause_after: k - 1 < segs.len() - 1 && delay > 0 })
        } else {
            p
        }
    }
}

/// The messages an automatic reply is sent as; none for a reply that is
/// only white space.
pub open spec fn spec_plan_sends(reply: Seq<char>, segmented: bool, delay: u64, mode: Seq<char>) -> Seq<SendModel> {
    if spec_trim(reply).len() == 0 {
        Seq::empty()
    } else {
        let segs = spec_reply_segments(reply, segmented, mode);
        sends_upto(segs, delay, segs.len() as int)
    }
}

/// The models of planned messages.
pub open spec fn sends_view(v: Seq<PlannedSend>) -> Seq<SendModel> {
    v.map_values(|p: PlannedSend| p@)
}

/// Plans the messages an automatic reply is sent as.
pub fn plan_reply_sends(reply: &str, settings: &ReplySettings) -> (r: Vec<PlannedSend>)
    ensures
        sends_view(r@) == spec_plan_sends(reply@, settings.segmented, settings.segment_delay_ms, settings.action_mode@),
{
    let mut out: Vec<PlannedSend> = Vec::new();
    let t = trim_chars(&chars_of(reply));
    if t.len() == 0 {
        assert(sends_view(out@) =~= Seq::<SendModel>::empty());
        return out;
    }
    let mode = settings.action_mode.as_str();
    let processed = if str_eq(mode, "remove") {
        remove_action_descriptions(reply)
    } else {
        String::from_str(reply)
    };
    let segs: Vec<String> = if settings.segmented {
        smart_split_segments(processed.as_str(), mode)
    } else {
        let mut v: Vec<String> = Vec::new();
        v.push(processed);
        v
    };
    let ghost sv = spec_reply_segments(reply@, settings.segmented, settings.action_mode@);
    assert(strs_view(segs@) =~= sv);
    let n = segs.len();
    let delay = settings.segment_delay_ms;
    let mut k: usize = 0;
    assert(sends_view(out@) =~= Seq::<SendModel>::empty());
    while k < n
        invariant
            k <= n == segs.len(),
            strs_view(segs@) == sv,
            delay == settings.segment_delay_ms,
            sends_view(out@) == sends_upto(sv, delay, k as int),
        decreases n - k,
    {
        let st = trim_chars(&chars_of(segs[k].as_str()));
        assert(sv[k as int] == segs@[k as int]@);
        if st.len() > 0 {
            let p = PlannedSend { text: string_from_chars(&st), pause_before: k == 0, pause_after: k < n - 1 && delay > 0 };
            let ghost before = out@;
            out.push(p);
            assert(sends_view(out@) =~= sends_view(before).push(p@));
        }
        k += 1;
    }
    out
}

/// `rand::thread_rng().gen_range(lo..=hi)`: a random number between the
/// bounds, both included.  Which one is not stated.
#[verifier::external_body]
fn random_between(lo: u64, hi: u64) -> (r: u64)
    requires
        lo <= hi,
    ensures
        lo <= r <= hi,
{
    rand::thread_rng().gen_range(lo..=hi)
}

/// A random pause of `min` to `max` milliseconds.
pub fn random_delay_ms(min: u64, max: u64) -> (r: u64)
    requires
        min <= max,
    ensures
        min <= r <= max,
{
    random_between(min, max)
}

/// A random pause around `base_ms`: between `min_pct` and `max_pct` percent
/// of it.
pub fn random_delay_between(base_ms: u64, min_pct: u64, max_pct: u64) -> (r: u64)
    requires
        min_pct <= max_pct,
        base_ms * max_pct <= u64::MAX,
    ensures
        base_ms * min_pct / 100 <= r <= base_ms * max_pct / 100,
{
    assert(base_ms * min_pct <= base_ms * max_pct) by (nonlinear_arith)
        requires
            min_pct <= max_pct,
    ;
    let min_ms = base_ms * min_pct / 100;
    let max_ms = base_ms * max_pct / 100;
    assert(min_ms <= max_ms) by (nonlinear_arith)
        requires
            min_ms == base_ms * min_pct / 100,
            max_ms == base_ms * max_pct / 100,
            base_ms * min_pct <= base_ms * max_pct,
    ;
    random_between(min_ms, max_ms)
}

// ---------------------------------------------------------------------------
// The long-poll loop

/// What the long-poll loop does after a failed poll.
pub struct SyncFailure {
    /// The session expired: take the account offline and stop polling.
    pub stop: bool,
    /// The event shown to the user.
    pub event: WeChatAccountEvent,
    /// The wait before the next poll, in seconds, when polling goes on.
    pub wait_secs: u64,
    /// The wait after that one, should it fail again.
    pub next_backoff: u64,
}

/// Whether a poll error says that the session expired.
pub open spec fn spec_session_expired(err: Seq<char>) -> bool {
    spec_contains(err, "-14"@) || spec_contains(err, "session timeout"@)
}

/// Decides what follows a failed poll with error `err` after waiting
/// `backoff` seconds last time: an expired session stops the loop with the
/// account offline; any other error is shown, waited out, and the next
/// wait doubled up to a minute.
pub fn plan_sync_failure(account_id: &str, err: &str, backoff: u64) -> (r: SyncFailure)
    requires
        backoff <= 60,
    ensures
        r.stop == spec_session_expired(err@),
        r.stop ==> r.event@ == state_event(account_id@, "offline"@, Some("会话已过期，请重新扫码登录"@)),
        !r.stop ==> r.event@ == state_event(account_id@, "error"@, Some(err@)),
        r.wait_secs == backoff,
        r.next_backoff == if backoff * 2 <= 60 { backoff * 2 } else { 60 },
{
    let expired = contains(err, "-14") || contains(err, "session timeout");
    let next = if backoff * 2 <= 60 {
        backoff * 2
    } else {
        60
    };
    if expired {
        SyncFailure {
            stop: true,
            event: account_event(account_id, "offline", Some(String::from_str("会话已过期，请重新扫码登录"))),
            wait_secs: backoff,
            next_backoff: next,
        }
    } else {
        SyncFailure {
            stop: false,
            event: account_event(account_id, "error", Some(String::from_str(err))),
            wait_secs: backoff,
            next_backoff: next,
        }
    }
}

/// Whether the loop rests a moment before the next poll: nothing arrived
/// and nothing more is waiting.
pub fn rest_after_poll(has_more: bool, message_count: usize) -> (r: bool)
    ensures
        r == (!has_more && message_count == 0),
{
    !has_more && message_count == 0
}

// ---------------------------------------------------------------------------
// Logging in

/// The login state shown when no QR code was requested yet.
pub fn missing_qrcode_status(account_id: &str) -> (r: WeChatLoginStatus)
    ensures
        r@ == (LoginStatusModel {
            status: "error"@,
            account_id: account_id@,
            bot_token: None,
            user_id: None,
            nickname: None,
            avatar_url: None,
            message: Some("请先申请二维码"@),
        }),
{
    WeChatLoginStatus {
        status: String::from_str("error"),
        account_id: String::from_str(account_id),
        bot_token: None,
        user_id: None,
        nickname: None,
        avatar_url: None,
        message: Some(String::from_str("请先申请二维码")),
    }
}

/// What follows one poll of a login QR code.
pub struct LoginPlan {
    /// The QR code state stored for the account.
    pub stored_status: String,
    /// Credentials to store; the account's sync starts with them.
    pub save_login: Option<LoginResult>,
    /// Take the account offline: the code expired or was canceled.
    pub go_offline: bool,
    /// The event shown to the user, if any.
    pub event: Option<WeChatAccountEvent>,
    /// The login state returned to the user.
    pub reply: WeChatLoginStatus,
}

/// Whether a poll confirmed the login with credentials.
pub open spec fn poll_confirmed(p: QrCodePollResult) -> bool {
    p.status == QrCodeStatus::Confirmed && p.login is Some
}

/// Whether a poll found the code expired or canceled.
pub open spec fn poll_lapsed(p: QrCodePollResult) -> bool {
    p.status == QrCodeStatus::Expired || p.status == QrCodeStatus::Canceled
}

fn copy_login(l: &LoginResult) -> (r: LoginResult)
    ensures
        r@ == l@,
{
    LoginResult {
        bot_token: l.bot_token.clone(),
        user_id: l.user_id.clone(),
        nickname: copy_opt(&l.nickname),
        avatar_url: copy_opt(&l.avatar_url),
    }
}

/// Decides what follows one poll of account `account_id`'s login QR code:
/// the state stored is the poll's state word; a confirmed login stores
/// the credentials, goes online and answers with them; an expired or
/// canceled code takes the account offline; otherwise the state and the
/// service's message are returned.
pub fn plan_login(account_id: &str, poll: &QrCodePollResult) -> (r: LoginPlan)
    ensures
        r.stored_status@ == spec_qrcode_status_str(poll.status),
        poll_confirmed(*poll) ==> {
            let l = poll.login.unwrap()@;
            &&& r.save_login is Some && r.save_login.unwrap()@ == l
            &&& !r.go_offline
            &&& r.event is Some && r.event.unwrap()@ == (AccountEventModel {
                account_id: account_id@,
                status: "online"@,
                nickname: l.nickname,
                avatar_url: l.avatar_url,
                last_error: None,
            })
            &&& r.reply@ == (LoginStatusModel {
                status: "confirmed"@,
                account_id: account_id@,
                bot_token: Some(l.bot_token),
                user_id: Some(l.user_id),
                nickname: l.nickname,
                avatar_url: l.avatar_url,
                message: Some("登录成功"@),
            })
        },
        !poll_confirmed(*poll) ==> {
            &&& r.save_login is None
            &&& r.go_offline == poll_lapsed(*poll)
            &&& poll_lapsed(*poll) ==> r.event is Some && r.event.unwrap()@ == state_event(account_id@, "offline"@, Some("二维码已过期"@))
            &&& !poll_lapsed(*poll) ==> r.event is None
            &&& r.reply@ == (LoginStatusModel {
                status: spec_qrcode_status_str(poll.status),
                account_id: account_id@,
                bot_token: None,
                user_id: None,
                nickname: None,
                avatar_url: None,
                message: opt_str(poll.message),
            })
        },
{
    let mapped = String::from_str(map_qrcode_status_str(&poll.status));
    let confirmed = match poll.status {
        QrCodeStatus::Confirmed => true,
        _ => false,
    };
    if confirmed {
        if let Some(l) = &poll.login {
            let event = WeChatAccountEvent {
                account_id: String::from_str(account_id),
                status: String::from_str("online"),
                nickname: copy_opt(&l.nickname),
                avatar_url: copy_opt(&l.avatar_url),
                last_error: None,
            };
            let reply = WeChatLoginStatus {
                status: String::from_str("confirmed"),
                account_id: String::from_str(account_id),
                bot_token: Some(l.bot_token.clone()),
                user_id: Some(l.user_id.clone()),
                nickname: copy_opt(&l.nickname),
                avatar_url: copy_opt(&l.avatar_url),
                message: Some(String::from_str("登录成功")),
            };
            return LoginPlan { stored_status: mapped, save_login: Some(copy_login(l)), go_offline: false, event: Some(event), reply };
        }
    }
    let lapsed = match poll.status {
        QrCodeStatus::Expired | QrCodeStatus::Canceled => true,
        _ => false,
    };
    let event = if lapsed {
        Some(account_event(account_id, "offline", Some(String::from_str("二维码已过期"))))
    } else {
        None
    };
    let reply = WeChatLoginStatus {
        status: mapped.clone(),
        account_id: String::from_str(account_id),
        bot_token: None,
        user_id: None,
        nickname: None,
        avatar_url: None,
        message: copy_opt(&poll.message),
    };
    LoginPlan { stored_status: mapped, save_login: None, go_offline: lapsed, event, reply }
}

} // verus!
