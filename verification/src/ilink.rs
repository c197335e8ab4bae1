//! Reading the replies of the WeChat iLink gateway: inbound messages,
//! long-poll batches, QR code logins.  Replies arrive as JSON documents whose
//! field names vary between gateway versions; each reader tries the known
//! names in order.

use vstd::prelude::*;
use vstd::string::StringExecFns;
use crate::chat::opt_str;
use crate::json::{
    JsonValue, JsonNumber, JsonModel, spec_get, spec_as_str, spec_as_i64, spec_as_bool, get_any, get_i64,
    json_model, members_model, items_model, int_model, json_str, json_int, json_object, push_member,
    new_members, lemma_array_model,
};
use crate::text::{spec_decimal, decimal_string, chars_of, copy_range, trim_chars, string_from_chars, spec_trim, str_eq};
use crate::stream::{encode_base64, base64_standard};
use base64::Engine as _;
use rand::RngCore;
use aes::cipher::{block_padding::Pkcs7, BlockDecryptMut, KeyInit};
use crate::wechat::{MsgType, QrCodeStatus, spec_msg_type_from_int, spec_qrcode_status_from_text, qrcode_status_from_text};

verus! {

/// One entry of a message's item list.
pub struct IncomingItem {
    pub item_type: i32,
    pub text_item: Option<TextItem>,
    pub media_item: Option<MediaItem>,
}

/// The text of a text item.
pub struct TextItem {
    pub text: String,
}

/// The media reference of an image, voice, file or video item.
pub struct MediaItem {
    pub media_url: Option<String>,
    pub aes_key: Option<String>,
    pub thumb_url: Option<String>,
    pub file_name: Option<String>,
    pub file_size: Option<i64>,
}

/// A message received from WeChat.
pub struct IncomingMessage {
    pub remote_msg_id: String,
    pub msg_type: MsgType,
    pub content: Option<String>,
    pub media_url: Option<String>,
    pub sender_id: Option<String>,
    pub sender_name: Option<String>,
    pub peer_id: String,
    pub peer_type: String,
    pub peer_name: Option<String>,
    pub context_token: Option<String>,
    pub received_at: String,
}

/// The model of an inbound message.
pub struct IncomingModel {
    pub remote_msg_id: Seq<char>,
    pub msg_type: MsgType,
    pub content: Option<Seq<char>>,
    pub media_url: Option<Seq<char>>,
    pub sender_id: Option<Seq<char>>,
    pub sender_name: Option<Seq<char>>,
    pub peer_id: Seq<char>,
    pub peer_type: Seq<char>,
    pub peer_name: Option<Seq<char>>,
    pub context_token: Option<Seq<char>>,
    pub received_at: Seq<char>,
}

impl View for IncomingMessage {
    type V = IncomingModel;

    open spec fn view(&self) -> IncomingModel {
        IncomingModel {
            remote_msg_id: self.remote_msg_id@,
            msg_type: self.msg_type,
            content: opt_str(self.content),
            media_url: opt_str(self.media_url),
            sender_id: opt_str(self.sender_id),
            sender_name: opt_str(self.sender_name),
            peer_id: self.peer_id@,
            peer_type: self.peer_type@,
            peer_name: opt_str(self.peer_name),
            context_token: opt_str(self.context_token),
            received_at: self.received_at@,
        }
    }
}

/// One long-poll batch.
pub struct GetUpdatesResult {
    pub messages: Vec<IncomingMessage>,
    pub next_buf: String,
    pub has_more: bool,
}

/// A login QR code.
pub struct QrCodeInfo {
    pub qrcode_url: String,
    pub qrcode_key: String,
    pub expires_in: i64,
}

/// The credentials of a confirmed login.
pub struct LoginResult {
    pub bot_token: String,
    pub user_id: String,
    pub nickname: Option<String>,
    pub avatar_url: Option<String>,
}

/// The answer to one poll of a QR code's state.
pub struct QrCodePollResult {
    pub status: QrCodeStatus,
    pub login: Option<LoginResult>,
    pub message: Option<String>,
}

// ---------------------------------------------------------------------------
// Trusted items: the clock and date formatting of `chrono`
// ---------------------------------------------------------------------------

/// The RFC 3339 text of a UTC instant given in seconds since the epoch, or
/// nothing when the instant is out of range.
pub uninterp spec fn utc_rfc3339(secs: i64) -> Option<Seq<char>>;

/// Calls `chrono::DateTime::<Utc>::from_timestamp(secs, 0)` and formats the
/// instant with `to_rfc3339`.  Trusted: the result is `utc_rfc3339(secs)`,
/// which depends on `secs` alone; what the text looks like is not stated.
#[verifier::external_body]
pub fn timestamp_rfc3339(secs: i64) -> (r: Option<String>)
    ensures
        opt_str(r) == utc_rfc3339(secs),
{
    chrono::DateTime::<chrono::Utc>::from_timestamp(secs, 0).map(|dt| dt.to_rfc3339())
}

/// Calls `chrono::Utc::now()` and formats it with `to_rfc3339`.  Nothing is
/// stated of the result: it is the time of the call.
#[verifier::external_body]
pub fn now_rfc3339() -> (r: String)
{
    chrono::Utc::now().to_rfc3339()
}

// ---------------------------------------------------------------------------
// Numbers as text
// ---------------------------------------------------------------------------

/// The decimal text of an integer, with a minus sign when negative.
pub open spec fn spec_int_text(i: int) -> Seq<char> {
    if i < 0 {
        seq!['-'] + spec_decimal((-i) as nat)
    } else {
        spec_decimal(i as nat)
    }
}

/// Writes an `i64` in decimal.
pub fn i64_text(i: i64) -> (r: String)
    ensures
        r@ == spec_int_text(i as int),
{
    if i < 0 {
        let m: u64 = if i == i64::MIN {
            9223372036854775808u64
        } else {
            (-i) as u64
        };
        let d = decimal_string(m);
        let mut r = String::from_str("-");
        r.append(d.as_str());
        proof {
            reveal_strlit("-");
        }
        r
    } else {
        decimal_string(i as u64)
    }
}

// ---------------------------------------------------------------------------
// Inbound messages
// ---------------------------------------------------------------------------

/// The keys a message id may be found under, in order.
pub open spec fn msg_id_keys() -> Seq<Seq<char>> {
    seq!["msg_id"@, "new_msg_id"@, "message_id"@, "svr_id"@, "id"@]
}

/// The message id: a string as it is, an integer in decimal, else empty.
pub open spec fn spec_msg_id(item: JsonValue) -> Seq<char> {
    match get_any(item, msg_id_keys()) {
        Some(JsonValue::String(s)) => s@,
        Some(JsonValue::Number(JsonNumber::PosInt(n))) => spec_decimal(n as nat),
        Some(JsonValue::Number(JsonNumber::NegInt(n))) => spec_int_text(n as int),
        _ => Seq::empty(),
    }
}

/// The text of the first present member among `keys`, if it is a string.
pub open spec fn str_any(v: JsonValue, keys: Seq<Seq<char>>) -> Option<Seq<char>> {
    match get_any(v, keys) {
        Some(x) => spec_as_str(x),
        None => None,
    }
}

/// The `i64` value of the first present member among `keys`.
pub open spec fn i64_any(v: JsonValue, keys: Seq<Seq<char>>) -> Option<i64> {
    match get_any(v, keys) {
        Some(x) => spec_as_i64(x),
        None => None,
    }
}

/// Whether a message comes from a group chat.
pub open spec fn spec_is_room(item: JsonValue) -> bool {
    spec_get(item, "room_id"@) is Some || str_any(item, seq!["chat_type"@]) == Some("room"@)
}

/// The text and media found in an item list, scanning it in order: the
/// text of the last text item, the media address of the first media item
/// that gives one.
pub open spec fn scan_items(items: Seq<JsonValue>, content: Option<Seq<char>>, media: Option<Seq<char>>) -> (Option<Seq<char>>, Option<Seq<char>>)
    decreases items.len(),
{
    if items.len() == 0 {
        (content, media)
    } else {
        let it = items[0];
        let ty = match i64_any(it, seq!["type"@]) {
            Some(t) => t as i32,
            None => 0i32,
        };
        let (c2, m2) = if ty == 1 {
            let t = match spec_get(it, "text_item"@) {
                Some(ti) => str_any(ti, seq!["text"@]),
                None => None,
            };
            (if t is Some { t } else { content }, media)
        } else if 2 <= ty && ty <= 5 {
            match spec_get(it, "media_item"@) {
                Some(m) => (content, if media is None { str_any(m, seq!["media_url"@, "cdn_url"@]) } else { media }),
                None => (content, media),
            }
        } else {
            (content, media)
        };
        scan_items(items.drop_first(), c2, m2)
    }
}

/// The items of the item list, when it is an array.
pub open spec fn item_list(item: JsonValue) -> Seq<JsonValue> {
    match spec_get(item, "item_list"@) {
        Some(JsonValue::Array(a)) => a@,
        _ => Seq::empty(),
    }
}

/// The message an inbound JSON record describes, received at `now` when it
/// carries no usable time; nothing when it has no id.
pub open spec fn spec_parse_incoming(item: JsonValue, now: Seq<char>) -> Option<IncomingModel> {
    let id = spec_msg_id(item);
    if id.len() == 0 {
        None
    } else {
        let type_int: i32 = match i64_any(item, seq!["message_type"@, "msg_type"@]) {
            Some(t) => t as i32,
            None => 1i32,
        };
        let sender_id = str_any(item, seq!["from_user_id"@, "sender_id"@]);
        let room = spec_is_room(item);
        let peer = if room {
            str_any(item, seq!["room_id"@])
        } else {
            str_any(item, seq!["from_user_id"@, "peer_id"@])
        };
        let peer_id = match peer {
            Some(p) => p,
            None => match sender_id {
                Some(s) => s,
                None => Seq::empty(),
            },
        };
        let peer_name = if room {
            str_any(item, seq!["room_name"@, "room_nickname"@])
        } else {
            str_any(item, seq!["from_user_name"@, "sender_name"@, "peer_name"@])
        };
        let sender_name = if room {
            str_any(item, seq!["from_user_name"@, "sender_name"@])
        } else {
            peer_name
        };
        let (content, media) = scan_items(item_list(item), None, None);
        let received_at = match i64_any(item, seq!["create_time"@, "timestamp"@]) {
            Some(t) => match utc_rfc3339(t) {
                Some(s) => s,
                None => now,
            },
            None => now,
        };
        Some(IncomingModel {
            remote_msg_id: id,
            msg_type: spec_msg_type_from_int(type_int),
            content,
            media_url: media,
            sender_id,
            sender_name,
            peer_id,
            peer_type: if room { "room"@ } else { "user"@ },
            peer_name,
            context_token: str_any(item, seq!["context_token"@]),
            received_at,
        })
    }
}

/// The first present member among two keys.
fn get2<'a>(v: &'a JsonValue, k1: &str, k2: &str) -> (r: Option<&'a JsonValue>)
    ensures
        match r {
            Some(x) => get_any(*v, seq![k1@, k2@]) == Some(*x),
            None => get_any(*v, seq![k1@, k2@]) is None,
        },
{
    proof {
        reveal_with_fuel(get_any, 3);
        let ks = seq![k1@, k2@];
        assert(ks.drop_first() =~= seq![k2@]);
        assert(ks.drop_first().drop_first() =~= Seq::<Seq<char>>::empty());
    }
    match v.get(k1) {
        Some(x) => Some(x),
        None => v.get(k2),
    }
}

/// The first present member among three keys.
fn get3<'a>(v: &'a JsonValue, k1: &str, k2: &str, k3: &str) -> (r: Option<&'a JsonValue>)
    ensures
        match r {
            Some(x) => get_any(*v, seq![k1@, k2@, k3@]) == Some(*x),
            None => get_any(*v, seq![k1@, k2@, k3@]) is None,
        },
{
    proof {
        reveal_with_fuel(get_any, 4);
        let ks = seq![k1@, k2@, k3@];
        assert(ks.drop_first() =~= seq![k2@, k3@]);
        assert(ks.drop_first().drop_first() =~= seq![k3@]);
        assert(ks.drop_first().drop_first().drop_first() =~= Seq::<Seq<char>>::empty());
    }
    match v.get(k1) {
        Some(x) => Some(x),
        None => match v.get(k2) {
            Some(x) => Some(x),
            None => v.get(k3),
        },
    }
}

/// The first present member among one key.
fn get1<'a>(v: &'a JsonValue, k1: &str) -> (r: Option<&'a JsonValue>)
    ensures
        match r {
            Some(x) => get_any(*v, seq![k1@]) == Some(*x),
            None => get_any(*v, seq![k1@]) is None,
        },
{
    proof {
        reveal_with_fuel(get_any, 2);
        assert(seq![k1@].drop_first() =~= Seq::<Seq<char>>::empty());
    }
    v.get(k1)
}

fn opt_json_str(o: Option<&JsonValue>) -> (r: Option<String>)
    ensures
        opt_str(r) == match o {
            Some(x) => spec_as_str(*x),
            None => None,
        },
{
    match o {
        Some(x) => match x.as_str() {
            Some(s) => Some(String::from_str(s)),
            None => None,
        },
        None => None,
    }
}

fn opt_json_i64(o: Option<&JsonValue>) -> (r: Option<i64>)
    ensures
        r == match o {
            Some(x) => spec_as_i64(*x),
            None => None,
        },
{
    match o {
        Some(x) => x.as_i64(),
        None => None,
    }
}

fn copy_opt(o: &Option<String>) -> (r: Option<String>)
    ensures
        opt_str(r) == opt_str(*o),
{
    match o {
        Some(s) => Some(s.clone()),
        None => None,
    }
}

/// The message id of an inbound record.
fn read_msg_id(item: &JsonValue) -> (r: String)
    ensures
        r@ == spec_msg_id(*item),
{
    let first = match item.get("msg_id") {
        Some(x) => Some(x),
        None => get3(item, "new_msg_id", "message_id", "svr_id"),
    };
    let raw = match first {
        Some(x) => Some(x),
        None => item.get("id"),
    };
    proof {
        reveal_with_fuel(get_any, 6);
        let ks = msg_id_keys();
        assert(ks.drop_first() =~= seq!["new_msg_id"@, "message_id"@, "svr_id"@, "id"@]);
        assert(ks.drop_first().drop_first() =~= seq!["message_id"@, "svr_id"@, "id"@]);
        assert(ks.drop_first().drop_first().drop_first() =~= seq!["svr_id"@, "id"@]);
        assert(ks.drop_first().drop_first().drop_first().drop_first() =~= seq!["id"@]);
        assert(seq!["id"@].drop_first() =~= Seq::<Seq<char>>::empty());
        let k3 = seq!["new_msg_id"@, "message_id"@, "svr_id"@];
        assert(k3.drop_first() =~= seq!["message_id"@, "svr_id"@]);
        assert(k3.drop_first().drop_first() =~= seq!["svr_id"@]);
        assert(k3.drop_first().drop_first().drop_first() =~= Seq::<Seq<char>>::empty());
        assert(match raw {
            Some(x) => get_any(*item, ks) == Some(*x),
            None => get_any(*item, ks) is None,
        }) by {
            if spec_get(*item, "msg_id"@) is None {
                if get_any(*item, k3) is None {
                    assert(get_any(*item, ks) == get_any(*item, seq!["id"@]));
                } else {
                    assert(get_any(*item, ks) == get_any(*item, k3)) by {
                        if spec_get(*item, "new_msg_id"@) is None {
                            if spec_get(*item, "message_id"@) is None {
                            }
                        }
                    }
                }
            }
        }
    }
    match raw {
        Some(JsonValue::String(s)) => s.clone(),
        Some(JsonValue::Number(JsonNumber::PosInt(n))) => decimal_string(*n),
        Some(JsonValue::Number(JsonNumber::NegInt(n))) => i64_text(*n),
        _ => String::new(),
    }
}

/// Scans an item list for the message text and media address.
fn read_items(items: &Vec<JsonValue>) -> (r: (Option<String>, Option<String>))
    ensures
        (opt_str(r.0), opt_str(r.1)) == scan_items(items@, None, None),
{
    let mut content: Option<String> = None;
    let mut media: Option<String> = None;
    let mut k: usize = 0;
    assert(items@.skip(0) =~= items@);
    while k < items.len()
        invariant
            k <= items.len(),
            scan_items(items@.skip(k as int), opt_str(content), opt_str(media)) == scan_items(items@, None, None),
        decreases items.len() - k,
    {
        let it = &items[k];
        let ghost rest = items@.skip(k as int);
        assert(rest[0] == *it);
        assert(rest.drop_first() =~= items@.skip(k + 1));
        let ty: i32 = match opt_json_i64(get1(it, "type")) {
            Some(t) => t as i32,
            None => 0,
        };
        if ty == 1 {
            let t = match it.get("text_item") {
                Some(ti) => opt_json_str(get1(ti, "text")),
                None => None,
            };
            if t.is_some() {
                content = t;
            }
        } else if 2 <= ty && ty <= 5 {
            match it.get("media_item") {
                Some(m) => {
                    if media.is_none() {
                        media = opt_json_str(get2(m, "media_url", "cdn_url"));
                    }
                },
                None => {},
            }
        }
        k += 1;
    }
    assert(items@.skip(k as int) =~= Seq::<JsonValue>::empty());
    (content, media)
}

/// Reads an inbound message record, using `now` as its time when the
/// record carries no usable one; nothing when the record has no id.
pub fn parse_incoming_message_at(item: &JsonValue, now: &str) -> (r: Option<IncomingMessage>)
    ensures
        match r {
            Some(m) => spec_parse_incoming(*item, now@) == Some(m@),
            None => spec_parse_incoming(*item, now@) is None,
        },
{
    let remote_msg_id = read_msg_id(item);
    if remote_msg_id.as_str().is_empty() {
        return None;
    }
    let type_int: i32 = match opt_json_i64(get2(item, "message_type", "msg_type")) {
        Some(t) => t as i32,
        None => 1,
    };
    let msg_type = MsgType::from_int(type_int);
    let sender_id = opt_json_str(get2(item, "from_user_id", "sender_id"));
    let chat_type = opt_json_str(get1(item, "chat_type"));
    let is_room = item.get("room_id").is_some() || match &chat_type {
        Some(c) => crate::text::str_eq(c.as_str(), "room"),
        None => false,
    };
    let peer = if is_room {
        opt_json_str(get1(item, "room_id"))
    } else {
        opt_json_str(get2(item, "from_user_id", "peer_id"))
    };
    let peer_id = match peer {
        Some(p) => p,
        None => match &sender_id {
            Some(s) => s.clone(),
            None => String::new(),
        },
    };
    let peer_name = if is_room {
        opt_json_str(get2(item, "room_name", "room_nickname"))
    } else {
        opt_json_str(get3(item, "from_user_name", "sender_name", "peer_name"))
    };
    let sender_name = if is_room {
        opt_json_str(get2(item, "from_user_name", "sender_name"))
    } else {
        copy_opt(&peer_name)
    };
    let context_token = opt_json_str(get1(item, "context_token"));
    let (content, media_url) = match item.get("item_list") {
        Some(JsonValue::Array(a)) => read_items(a),
        _ => {
            proof {
                reveal_with_fuel(scan_items, 1);
            }
            (None, None)
        },
    };
    let received_at = match opt_json_i64(get2(item, "create_time", "timestamp")) {
        Some(t) => match timestamp_rfc3339(t) {
            Some(s) => s,
            None => String::from_str(now),
        },
        None => String::from_str(now),
    };
    let peer_type = if is_room {
        String::from_str("room")
    } else {
        String::from_str("user")
    };
    let m = IncomingMessage {
        remote_msg_id,
        msg_type,
        content,
        media_url,
        sender_id,
        sender_name,
        peer_id,
        peer_type,
        peer_name,
        context_token,
        received_at,
    };
    Some(m)
}

/// Reads an inbound message record; a record without a usable time is
/// stamped with the current time.
pub fn parse_incoming_message(item: &JsonValue) -> (r: Option<IncomingMessage>)
    ensures
        r is None <==> spec_msg_id(*item).len() == 0,
        match r {
            Some(m) => spec_parse_incoming(*item, m@.received_at) == Some(m@),
            None => true,
        },
{
    let now = now_rfc3339();
    parse_incoming_message_at(item, now.as_str())
}

// ---------------------------------------------------------------------------
// Replies of the gateway's calls
// ---------------------------------------------------------------------------

proof fn lemma_get_any_concat(v: JsonValue, a: Seq<Seq<char>>, b: Seq<Seq<char>>)
    ensures
        get_any(v, a + b) == match get_any(v, a) {
            Some(x) => Some(x),
            None => get_any(v, b),
        },
    decreases a.len(),
{
    if a.len() == 0 {
        assert(a + b =~= b);
    } else {
        assert((a + b).drop_first() =~= a.drop_first() + b);
        lemma_get_any_concat(v, a.drop_first(), b);
    }
}

/// The first present member among four keys.
fn get4<'a>(v: &'a JsonValue, k1: &str, k2: &str, k3: &str, k4: &str) -> (r: Option<&'a JsonValue>)
    ensures
        match r {
            Some(x) => get_any(*v, seq![k1@, k2@, k3@, k4@]) == Some(*x),
            None => get_any(*v, seq![k1@, k2@, k3@, k4@]) is None,
        },
{
    proof {
        lemma_get_any_concat(*v, seq![k1@, k2@], seq![k3@, k4@]);
        assert(seq![k1@, k2@] + seq![k3@, k4@] =~= seq![k1@, k2@, k3@, k4@]);
    }
    match get2(v, k1, k2) {
        Some(x) => Some(x),
        None => get2(v, k3, k4),
    }
}

/// The words that stand in for a missing error message.
pub open spec fn no_err_msg() -> Seq<char> {
    "(no err_msg)"@
}

/// The error for a reply whose `ret` is not zero.
pub open spec fn spec_business_error(op: Seq<char>, ret: i64, err: Seq<char>) -> Seq<char> {
    op + " 业务错误: ret="@ + spec_int_text(ret as int) + " err_msg="@ + err
}

fn business_error(op: &str, ret: i64, err: &str) -> (r: String)
    ensures
        r@ == spec_business_error(op@, ret, err@),
{
    let mut s = String::from_str(op);
    s.append(" 业务错误: ret=");
    let t = i64_text(ret);
    s.append(t.as_str());
    s.append(" err_msg=");
    s.append(err);
    s
}

/// The text of the first present member among `keys` when it is a
/// string, else the stand-in for a missing error message.
pub open spec fn spec_err_or(raw: JsonValue, keys: Seq<Seq<char>>) -> Seq<char> {
    match str_any(raw, keys) {
        Some(s) => s,
        None => no_err_msg(),
    }
}

fn err_or(o: Option<&JsonValue>) -> (r: String)
    ensures
        r@ == match o {
            Some(x) => match spec_as_str(*x) {
                Some(s) => s,
                None => no_err_msg(),
            },
            None => no_err_msg(),
        },
{
    match o {
        Some(x) => match x.as_str() {
            Some(s) => String::from_str(s),
            None => String::from_str("(no err_msg)"),
        },
        None => String::from_str("(no err_msg)"),
    }
}

/// The error of a reply that carries a non-zero `ret`, if it does.
pub open spec fn spec_ret_error(raw: JsonValue, op: Seq<char>) -> Option<Seq<char>> {
    match get_i64(raw, "ret"@) {
        Some(r) => if r != 0 {
            Some(spec_business_error(op, r, spec_err_or(raw, seq!["err_msg"@])))
        } else {
            None
        },
        None => None,
    }
}

fn ret_error(raw: &JsonValue, op: &str) -> (r: Option<String>)
    ensures
        opt_str(r) == spec_ret_error(*raw, op@),
{
    match raw.get("ret") {
        Some(v) => match v.as_i64() {
            Some(ret) => {
                if ret != 0 {
                    let err = err_or(get1(raw, "err_msg"));
                    Some(business_error(op, ret, err.as_str()))
                } else {
                    None
                }
            },
            None => None,
        },
        None => None,
    }
}

/// The model of a login QR code.
pub struct QrInfoModel {
    pub qrcode_url: Seq<char>,
    pub qrcode_key: Seq<char>,
    pub expires_in: i64,
}

impl View for QrCodeInfo {
    type V = QrInfoModel;

    open spec fn view(&self) -> QrInfoModel {
        QrInfoModel { qrcode_url: self.qrcode_url@, qrcode_key: self.qrcode_key@, expires_in: self.expires_in }
    }
}

/// What a reply to the request for a login QR code says; `raw_text` is
/// the reply as compact JSON text, quoted in errors.
pub open spec fn spec_bot_qrcode(raw: JsonValue, raw_text: Seq<char>) -> Result<QrInfoModel, Seq<char>> {
    match spec_ret_error(raw, "get_bot_qrcode"@) {
        Some(e) => Err(e),
        None => match str_any(raw, seq!["qrcode_img_content"@, "qrcode_url"@, "qrcode_img"@]) {
            None => Err("二维码 URL 缺失：响应中未找到 qrcode_img_content/qrcode_url 字段。raw="@ + raw_text),
            Some(url) => match str_any(raw, seq!["qrcode"@, "qrcode_key"@, "qrcodeKey"@]) {
                None => Err("qrcode 缺失：响应中未找到 qrcode/qrcode_key 字段。raw="@ + raw_text),
                Some(key) => Ok(
                    QrInfoModel {
                        qrcode_url: url,
                        qrcode_key: key,
                        expires_in: match get_i64(raw, "expires_in"@) {
                            Some(e) => e,
                            None => 300,
                        },
                    },
                ),
            },
        },
    }
}

fn text_with_raw(head: &str, raw_text: &str) -> (r: String)
    ensures
        r@ == head@ + raw_text@,
{
    let mut s = String::from_str(head);
    s.append(raw_text);
    s
}

/// Reads the reply to the request for a login QR code.
pub fn read_bot_qrcode(raw: &JsonValue, raw_text: &str) -> (r: Result<QrCodeInfo, String>)
    ensures
        match r {
            Ok(info) => spec_bot_qrcode(*raw, raw_text@) == Ok::<QrInfoModel, Seq<char>>(info@),
            Err(e) => spec_bot_qrcode(*raw, raw_text@) == Err::<QrInfoModel, Seq<char>>(e@),
        },
{
    if let Some(e) = ret_error(raw, "get_bot_qrcode") {
        return Err(e);
    }
    let url = match opt_json_str(get3(raw, "qrcode_img_content", "qrcode_url", "qrcode_img")) {
        Some(u) => u,
        None => {
            return Err(text_with_raw("二维码 URL 缺失：响应中未找到 qrcode_img_content/qrcode_url 字段。raw=", raw_text));
        },
    };
    let key = match opt_json_str(get3(raw, "qrcode", "qrcode_key", "qrcodeKey")) {
        Some(k) => k,
        None => {
            return Err(text_with_raw("qrcode 缺失：响应中未找到 qrcode/qrcode_key 字段。raw=", raw_text));
        },
    };
    let expires_in = match opt_json_i64(raw.get("expires_in")) {
        Some(e) => e,
        None => 300,
    };
    Ok(QrCodeInfo { qrcode_url: url, qrcode_key: key, expires_in })
}

/// The model of a confirmed login.
pub struct LoginModel {
    pub bot_token: Seq<char>,
    pub user_id: Seq<char>,
    pub nickname: Option<Seq<char>>,
    pub avatar_url: Option<Seq<char>>,
}

impl View for LoginResult {
    type V = LoginModel;

    open spec fn view(&self) -> LoginModel {
        LoginModel {
            bot_token: self.bot_token@,
            user_id: self.user_id@,
            nickname: opt_str(self.nickname),
            avatar_url: opt_str(self.avatar_url),
        }
    }
}

/// The model of one poll of a QR code.
pub struct PollModel {
    pub status: QrCodeStatus,
    pub login: Option<LoginModel>,
    pub message: Option<Seq<char>>,
}

impl View for QrCodePollResult {
    type V = PollModel;

    open spec fn view(&self) -> PollModel {
        PollModel {
            status: self.status,
            login: match self.login {
                Some(l) => Some(l@),
                None => None,
            },
            message: opt_str(self.message),
        }
    }
}

/// The member found first among `keys` of the credentials object, else
/// the member found first among `top` of the reply itself.
pub open spec fn cred_or_top(raw: JsonValue, keys: Seq<Seq<char>>, top: Seq<Seq<char>>) -> Option<Seq<char>> {
    let in_creds = match spec_get(raw, "credentials"@) {
        Some(c) => get_any(c, keys),
        None => None,
    };
    match in_creds {
        Some(x) => spec_as_str(x),
        None => str_any(raw, top),
    }
}

/// The credentials of a confirmed login, or the error for a missing one.
pub open spec fn spec_login(raw: JsonValue) -> Result<LoginModel, Seq<char>> {
    match cred_or_top(raw, seq!["bot_token"@, "token"@], seq!["bot_token"@]) {
        None => Err("confirmed 但缺少 bot_token"@),
        Some(token) => match cred_or_top(
            raw,
            seq!["ilink_user_id"@, "user_id"@, "userid"@, "wxid"@],
            seq!["ilink_user_id"@, "user_id"@],
        ) {
            None => Err("confirmed 但缺少 ilink_user_id"@),
            Some(user) => Ok(
                LoginModel {
                    bot_token: token,
                    user_id: user,
                    nickname: str_any(raw, seq!["nickname"@, "nick_name"@]),
                    avatar_url: str_any(raw, seq!["avatar_url"@, "head_img"@]),
                },
            ),
        },
    }
}

/// What a reply to a poll of a QR code says.
pub open spec fn spec_qrcode_poll(raw: JsonValue) -> Result<PollModel, Seq<char>> {
    match spec_ret_error(raw, "get_qrcode_status"@) {
        Some(e) => Err(e),
        None => {
            let status = spec_qrcode_status_from_text(
                match str_any(raw, seq!["status"@]) {
                    Some(s) => s,
                    None => "wait"@,
                },
            );
            let message = str_any(raw, seq!["err_msg"@, "message"@]);
            if status == QrCodeStatus::Confirmed {
                match spec_login(raw) {
                    Err(e) => Err(e),
                    Ok(l) => Ok(PollModel { status, login: Some(l), message }),
                }
            } else {
                Ok(PollModel { status, login: None, message })
            }
        },
    }
}

fn read_cred(in_creds: Option<&JsonValue>, top: Option<&JsonValue>) -> (r: Option<String>)
    ensures
        opt_str(r) == match in_creds {
            Some(x) => spec_as_str(*x),
            None => match top {
                Some(t) => spec_as_str(*t),
                None => None,
            },
        },
{
    match in_creds {
        Some(x) => opt_json_str(Some(x)),
        None => opt_json_str(top),
    }
}

fn read_login(raw: &JsonValue) -> (r: Result<LoginResult, String>)
    ensures
        match r {
            Ok(l) => spec_login(*raw) == Ok::<LoginModel, Seq<char>>(l@),
            Err(e) => spec_login(*raw) == Err::<LoginModel, Seq<char>>(e@),
        },
{
    let creds = raw.get("credentials");
    let token_in = match creds {
        Some(c) => get2(c, "bot_token", "token"),
        None => None,
    };
    let token = match read_cred(token_in, get1(raw, "bot_token")) {
        Some(t) => t,
        None => {
            return Err(String::from_str("confirmed 但缺少 bot_token"));
        },
    };
    let user_in = match creds {
        Some(c) => get4(c, "ilink_user_id", "user_id", "userid", "wxid"),
        None => None,
    };
    let user = match read_cred(user_in, get2(raw, "ilink_user_id", "user_id")) {
        Some(u) => u,
        None => {
            return Err(String::from_str("confirmed 但缺少 ilink_user_id"));
        },
    };
    Ok(
        LoginResult {
            bot_token: token,
            user_id: user,
            nickname: opt_json_str(get2(raw, "nickname", "nick_name")),
            avatar_url: opt_json_str(get2(raw, "avatar_url", "head_img")),
        },
    )
}

/// Reads the reply to one poll of a QR code's state.
pub fn read_qrcode_poll(raw: &JsonValue) -> (r: Result<QrCodePollResult, String>)
    ensures
        match r {
            Ok(p) => spec_qrcode_poll(*raw) == Ok::<PollModel, Seq<char>>(p@),
            Err(e) => spec_qrcode_poll(*raw) == Err::<PollModel, Seq<char>>(e@),
        },
{
    if let Some(e) = ret_error(raw, "get_qrcode_status") {
        return Err(e);
    }
    let status = match opt_json_str(get1(raw, "status")) {
        Some(s) => qrcode_status_from_text(s.as_str()),
        None => qrcode_status_from_text("wait"),
    };
    let confirmed = match status {
        QrCodeStatus::Confirmed => true,
        _ => false,
    };
    let login = if confirmed {
        match read_login(raw) {
            Ok(l) => Some(l),
            Err(e) => {
                return Err(e);
            },
        }
    } else {
        None
    };
    let message = opt_json_str(get2(raw, "err_msg", "message"));
    Ok(QrCodePollResult { status, login, message })
}

/// The model of a long-poll batch.
pub struct UpdatesModel {
    pub messages: Seq<IncomingModel>,
    pub next_buf: Seq<char>,
    pub has_more: bool,
}

/// The models of inbound messages.
pub open spec fn incoming_view(v: Seq<IncomingMessage>) -> Seq<IncomingModel> {
    v.map_values(|m: IncomingMessage| m@)
}

impl View for GetUpdatesResult {
    type V = UpdatesModel;

    open spec fn view(&self) -> UpdatesModel {
        UpdatesModel {
            messages: incoming_view(self.messages@),
            next_buf: self.next_buf@,
            has_more: self.has_more,
        }
    }
}

/// The messages that the records of a batch describe, in order; records
/// without an id are left out.
pub open spec fn parse_all(items: Seq<JsonValue>, now: Seq<char>) -> Seq<IncomingModel>
    decreases items.len(),
{
    if items.len() == 0 {
        Seq::empty()
    } else {
        let p = parse_all(items.drop_last(), now);
        match spec_parse_incoming(items.last(), now) {
            Some(m) => p.push(m),
            None => p,
        }
    }
}

/// The records of a batch: the first present array among the known names.
pub open spec fn batch_items(raw: JsonValue) -> Seq<JsonValue> {
    match get_any(raw, seq!["msgs"@, "messages"@, "updates"@, "msg_list"@]) {
        Some(JsonValue::Array(a)) => a@,
        _ => Seq::empty(),
    }
}

/// What a long-poll reply says, for the cursor `buf` that was sent and
/// messages stamped `now` when they carry no usable time.  `ret` -1 means
/// that nothing arrived; error code -14 that the session expired.
pub open spec fn spec_updates(raw: JsonValue, buf: Seq<char>, now: Seq<char>) -> Result<UpdatesModel, Seq<char>> {
    let ret = get_i64(raw, "ret"@);
    if ret == Some(-1i64) {
        Ok(UpdatesModel { messages: Seq::empty(), next_buf: buf, has_more: false })
    } else if ret is Some && ret.unwrap() != 0 {
        Err(spec_business_error("getupdates"@, ret.unwrap(), spec_err_or(raw, seq!["err_msg"@, "errmsg"@])))
    } else if get_i64(raw, "errcode"@) == Some(-14i64) {
        Err("session timeout, 需重新登录"@)
    } else {
        Ok(
            UpdatesModel {
                messages: parse_all(batch_items(raw), now),
                next_buf: match str_any(raw, seq!["get_updates_buf"@, "next_buf"@, "sync_buf"@]) {
                    Some(s) => s,
                    None => buf,
                },
                has_more: match get_any(raw, seq!["has_more"@]) {
                    Some(x) => match spec_as_bool(x) {
                        Some(b) => b,
                        None => false,
                    },
                    None => false,
                },
            },
        )
    }
}

fn parse_records(items: &Vec<JsonValue>, now: &str) -> (r: Vec<IncomingMessage>)
    ensures
        incoming_view(r@) == parse_all(items@, now@),
{
    let mut out: Vec<IncomingMessage> = Vec::new();
    let mut k: usize = 0;
    assert(incoming_view(out@) =~= Seq::<IncomingModel>::empty());
    while k < items.len()
        invariant
            k <= items.len(),
            incoming_view(out@) == parse_all(items@.take(k as int), now@),
        decreases items.len() - k,
    {
        assert(items@.take(k + 1).drop_last() =~= items@.take(k as int));
        assert(items@.take(k + 1).last() == items@[k as int]);
        match parse_incoming_message_at(&items[k], now) {
            Some(m) => {
                let ghost before = out@;
                out.push(m);
                assert(incoming_view(out@) =~= incoming_view(before).push(m@));
            },
            None => {},
        }
        k += 1;
    }
    assert(items@.take(k as int) =~= items@);
    out
}

/// Reads a long-poll reply, for the cursor `buf` that was sent, stamping
/// messages without a usable time with `now`.
pub fn read_updates_at(raw: &JsonValue, buf: &str, now: &str) -> (r: Result<GetUpdatesResult, String>)
    ensures
        match r {
            Ok(u) => spec_updates(*raw, buf@, now@) == Ok::<UpdatesModel, Seq<char>>(u@),
            Err(e) => spec_updates(*raw, buf@, now@) == Err::<UpdatesModel, Seq<char>>(e@),
        },
{
    let ret = opt_json_i64(raw.get("ret"));
    if ret == Some(-1i64) {
        let r = GetUpdatesResult { messages: Vec::new(), next_buf: String::from_str(buf), has_more: false };
        assert(incoming_view(r.messages@) =~= Seq::<IncomingModel>::empty());
        return Ok(r);
    }
    if let Some(x) = ret {
        if x != 0 {
            let err = err_or(get2(raw, "err_msg", "errmsg"));
            return Err(business_error("getupdates", x, err.as_str()));
        }
    }
    if opt_json_i64(raw.get("errcode")) == Some(-14i64) {
        return Err(String::from_str("session timeout, 需重新登录"));
    }
    let next_buf = match opt_json_str(get3(raw, "get_updates_buf", "next_buf", "sync_buf")) {
        Some(s) => s,
        None => String::from_str(buf),
    };
    let has_more = match get1(raw, "has_more") {
        Some(x) => match x.as_bool() {
            Some(b) => b,
            None => false,
        },
        None => false,
    };
    let messages = match get4(raw, "msgs", "messages", "updates", "msg_list") {
        Some(x) => match x.as_array() {
            Some(a) => parse_records(a, now),
            None => Vec::new(),
        },
        None => Vec::new(),
    };
    assert(incoming_view(messages@) =~= parse_all(batch_items(*raw), now@));
    Ok(GetUpdatesResult { messages, next_buf, has_more })
}

/// Reads a long-poll reply, for the cursor `buf` that was sent; messages
/// without a usable time are stamped with the current time.
pub fn read_updates(raw: &JsonValue, buf: &str) -> (r: Result<GetUpdatesResult, String>)
    ensures
        exists|now: Seq<char>|
            #![trigger spec_updates(*raw, buf@, now)]
            match r {
                Ok(u) => spec_updates(*raw, buf@, now) == Ok::<UpdatesModel, Seq<char>>(u@),
                Err(e) => spec_updates(*raw, buf@, now) == Err::<UpdatesModel, Seq<char>>(e@),
            },
{
    let now = now_rfc3339();
    read_updates_at(raw, buf, now.as_str())
}

/// The id of a sent message in the gateway's reply; empty when missing.
pub fn read_sent_msg_id(raw: &JsonValue) -> (r: String)
    ensures
        r@ == match str_any(*raw, seq!["msg_id"@, "id"@]) {
            Some(s) => s,
            None => Seq::empty(),
        },
{
    match opt_json_str(get2(raw, "msg_id", "id")) {
        Some(s) => s,
        None => String::new(),
    }
}

/// What a reply to the request for the account configuration says: its
/// typing ticket; `raw_text` is the reply as compact JSON text.
pub open spec fn spec_typing_ticket(raw: JsonValue, raw_text: Seq<char>) -> Result<Seq<char>, Seq<char>> {
    match spec_ret_error(raw, "getconfig"@) {
        Some(e) => Err(e),
        None => match str_any(raw, seq!["typing_ticket"@]) {
            Some(t) => Ok(t),
            None => Err("getconfig 响应中缺少 typing_ticket 字段。raw="@ + raw_text),
        },
    }
}

/// Reads the typing ticket out of the reply to the request for the account
/// configuration.
pub fn read_typing_ticket(raw: &JsonValue, raw_text: &str) -> (r: Result<String, String>)
    ensures
        match r {
            Ok(t) => spec_typing_ticket(*raw, raw_text@) == Ok::<Seq<char>, Seq<char>>(t@),
            Err(e) => spec_typing_ticket(*raw, raw_text@) == Err::<Seq<char>, Seq<char>>(e@),
        },
{
    if let Some(e) = ret_error(raw, "getconfig") {
        return Err(e);
    }
    match opt_json_str(get1(raw, "typing_ticket")) {
        Some(t) => Ok(t),
        None => Err(text_with_raw("getconfig 响应中缺少 typing_ticket 字段。raw=", raw_text)),
    }
}

// ---------------------------------------------------------------------------
// Request bodies
// ---------------------------------------------------------------------------

/// The `base_info` member that every call carries.
pub open spec fn channel_info() -> JsonModel {
    JsonModel::Object(seq![("channel_version"@, JsonModel::Str("1.0.0"@))])
}

fn channel_info_value() -> (r: JsonValue)
    ensures
        json_model(r) == channel_info(),
{
    let mut m = new_members();
    push_member(&mut m, "channel_version", json_str("1.0.0"));
    assert(members_model(m@) =~= seq![("channel_version"@, JsonModel::Str("1.0.0"@))]);
    json_object(m)
}

/// The body of a long poll for messages after cursor `buf`.
pub open spec fn spec_updates_body(buf: Seq<char>) -> JsonModel {
    JsonModel::Object(seq![("get_updates_buf"@, JsonModel::Str(buf)), ("base_info"@, channel_info())])
}

/// The body of a long poll for messages after cursor `buf`.
pub fn updates_body(buf: &str) -> (r: JsonValue)
    ensures
        json_model(r) == spec_updates_body(buf@),
{
    let mut m = new_members();
    push_member(&mut m, "get_updates_buf", json_str(buf));
    push_member(&mut m, "base_info", channel_info_value());
    assert(members_model(m@) =~= seq![("get_updates_buf"@, JsonModel::Str(buf@)), ("base_info"@, channel_info())]);
    json_object(m)
}

/// The body that sends `text` to `to_user_id` as a bot message in state
/// `message_state` (0 new, 1 in progress, 2 finished), under `client_id`.
pub open spec fn spec_send_body(
    to_user_id: Seq<char>,
    context_token: Seq<char>,
    text: Seq<char>,
    message_state: i32,
    client_id: Seq<char>,
) -> JsonModel {
    let item = JsonModel::Object(
        seq![
            ("type"@, int_model(1)),
            ("text_item"@, JsonModel::Object(seq![("text"@, JsonModel::Str(text))])),
        ],
    );
    JsonModel::Object(
        seq![
            ("msg"@, JsonModel::Object(
                seq![
                    ("from_user_id"@, JsonModel::Str(Seq::empty())),
                    ("to_user_id"@, JsonModel::Str(to_user_id)),
                    ("client_id"@, JsonModel::Str(client_id)),
                    ("message_type"@, int_model(2)),
                    ("message_state"@, int_model(message_state as int)),
                    ("context_token"@, JsonModel::Str(context_token)),
                    ("item_list"@, JsonModel::Array(seq![item])),
                ],
            )),
            ("base_info"@, channel_info()),
        ],
    )
}

/// The body that sends `text` to `to_user_id` as a bot message.
pub fn send_message_body(
    to_user_id: &str,
    context_token: &str,
    text: &str,
    message_state: i32,
    client_id: &str,
) -> (r: JsonValue)
    ensures
        json_model(r) == spec_send_body(to_user_id@, context_token@, text@, message_state, client_id@),
{
    let mut t = new_members();
    push_member(&mut t, "text", json_str(text));
    let text_item = json_object(t);
    let mut it = new_members();
    push_member(&mut it, "type", json_int(1));
    push_member(&mut it, "text_item", text_item);
    let item = json_object(it);
    let mut items: Vec<JsonValue> = Vec::new();
    items.push(item);
    proof {
        lemma_array_model(items);
        assert(items_model(items@) =~= seq![json_model(item)]);
    }
    let list = JsonValue::Array(items);
    proof {
        reveal_strlit("");
        assert(""@ =~= Seq::<char>::empty());
        assert(members_model(t@) =~= seq![("text"@, JsonModel::Str(text@))]);
        assert(members_model(it@) =~= seq![
            ("type"@, int_model(1)),
            ("text_item"@, JsonModel::Object(seq![("text"@, JsonModel::Str(text@))])),
        ]);
        assert(json_model(list) == JsonModel::Array(seq![json_model(item)]));
    }
    let mut msg = new_members();
    push_member(&mut msg, "from_user_id", json_str(""));
    push_member(&mut msg, "to_user_id", json_str(to_user_id));
    push_member(&mut msg, "client_id", json_str(client_id));
    push_member(&mut msg, "message_type", json_int(2));
    push_member(&mut msg, "message_state", json_int(message_state as i64));
    push_member(&mut msg, "context_token", json_str(context_token));
    push_member(&mut msg, "item_list", list);
    let msg_value = json_object(msg);
    let mut top = new_members();
    push_member(&mut top, "msg", msg_value);
    push_member(&mut top, "base_info", channel_info_value());
    proof {
        reveal_strlit("");
        assert(members_model(t@) =~= seq![("text"@, JsonModel::Str(text@))]);
        assert(members_model(it@) =~= seq![
            ("type"@, int_model(1)),
            ("text_item"@, JsonModel::Object(seq![("text"@, JsonModel::Str(text@))])),
        ]);
        assert(members_model(top@) =~= seq![("msg"@, json_model(msg_value)), ("base_info"@, channel_info())]);
    }
    let r = json_object(top);
    assert(json_model(msg_value) == spec_send_body(to_user_id@, context_token@, text@, message_state, client_id@)->Object_0[0].1) by {
        assert(members_model(msg@) =~= spec_send_body(to_user_id@, context_token@, text@, message_state, client_id@)->Object_0[0].1->Object_0);
    }
    r
}

/// The body of the request for the account configuration.
pub open spec fn spec_config_body(user_id: Seq<char>, context_token: Option<Seq<char>>) -> JsonModel {
    JsonModel::Object(
        seq![("ilink_user_id"@, JsonModel::Str(user_id))] + match context_token {
            Some(c) => seq![("context_token"@, JsonModel::Str(c))],
            None => Seq::empty(),
        },
    )
}

/// The body of the request for the account configuration.
pub fn config_body(user_id: &str, context_token: Option<&str>) -> (r: JsonValue)
    ensures
        json_model(r) == spec_config_body(user_id@, match context_token {
            Some(c) => Some(c@),
            None => None,
        }),
{
    let mut m = new_members();
    push_member(&mut m, "ilink_user_id", json_str(user_id));
    match context_token {
        Some(c) => {
            push_member(&mut m, "context_token", json_str(c));
        },
        None => {},
    }
    let ghost expected = spec_config_body(user_id@, match context_token {
        Some(c) => Some(c@),
        None => None,
    });
    assert(members_model(m@) =~= expected->Object_0);
    json_object(m)
}

/// The body that switches the typing indicator (1 typing, 2 stopped).
pub open spec fn spec_typing_body(user_id: Seq<char>, ticket: Seq<char>, status: i32) -> JsonModel {
    JsonModel::Object(
        seq![
            ("ilink_user_id"@, JsonModel::Str(user_id)),
            ("typing_ticket"@, JsonModel::Str(ticket)),
            ("status"@, int_model(status as int)),
        ],
    )
}

/// The body that switches the typing indicator.
pub fn typing_body(user_id: &str, ticket: &str, status: i32) -> (r: JsonValue)
    ensures
        json_model(r) == spec_typing_body(user_id@, ticket@, status),
{
    let mut m = new_members();
    push_member(&mut m, "ilink_user_id", json_str(user_id));
    push_member(&mut m, "typing_ticket", json_str(ticket));
    push_member(&mut m, "status", json_int(status as i64));
    assert(members_model(m@) =~= spec_typing_body(user_id@, ticket@, status)->Object_0);
    json_object(m)
}

/// Where a media file goes and what it is, for the request for upload
/// parameters.
pub struct UploadRequest {
    pub filekey: String,
    pub media_type: i32,
    pub to_user_id: String,
    pub rawsize: i64,
    pub rawfilemd5: String,
    pub filesize: i64,
    pub thumb_rawsize: Option<i64>,
    pub thumb_rawfilemd5: Option<String>,
    pub thumb_filesize: Option<i64>,
}

/// The body of the request for upload parameters: the required members,
/// then each thumbnail member that is given.
pub open spec fn spec_upload_body(u: UploadRequest) -> JsonModel {
    JsonModel::Object(
        seq![
            ("filekey"@, JsonModel::Str(u.filekey@)),
            ("media_type"@, int_model(u.media_type as int)),
            ("to_user_id"@, JsonModel::Str(u.to_user_id@)),
            ("rawsize"@, int_model(u.rawsize as int)),
            ("rawfilemd5"@, JsonModel::Str(u.rawfilemd5@)),
            ("filesize"@, int_model(u.filesize as int)),
        ] + match u.thumb_rawsize {
            Some(x) => seq![("thumb_rawsize"@, int_model(x as int))],
            None => Seq::empty(),
        } + match u.thumb_rawfilemd5 {
            Some(x) => seq![("thumb_rawfilemd5"@, JsonModel::Str(x@))],
            None => Seq::empty(),
        } + match u.thumb_filesize {
            Some(x) => seq![("thumb_filesize"@, int_model(x as int))],
            None => Seq::empty(),
        },
    )
}

/// The body of the request for upload parameters.
pub fn upload_body(u: &UploadRequest) -> (r: JsonValue)
    ensures
        json_model(r) == spec_upload_body(*u),
{
    let mut m = new_members();
    push_member(&mut m, "filekey", json_str(u.filekey.as_str()));
    push_member(&mut m, "media_type", json_int(u.media_type as i64));
    push_member(&mut m, "to_user_id", json_str(u.to_user_id.as_str()));
    push_member(&mut m, "rawsize", json_int(u.rawsize));
    push_member(&mut m, "rawfilemd5", json_str(u.rawfilemd5.as_str()));
    push_member(&mut m, "filesize", json_int(u.filesize));
    let ghost base = members_model(m@);
    if let Some(x) = u.thumb_rawsize {
        push_member(&mut m, "thumb_rawsize", json_int(x));
    }
    let ghost with_a = members_model(m@);
    if let Some(x) = &u.thumb_rawfilemd5 {
        push_member(&mut m, "thumb_rawfilemd5", json_str(x.as_str()));
    }
    let ghost with_b = members_model(m@);
    if let Some(x) = u.thumb_filesize {
        push_member(&mut m, "thumb_filesize", json_int(x));
    }
    assert(members_model(m@) =~= spec_upload_body(*u)->Object_0);
    json_object(m)
}

// ---------------------------------------------------------------------------
// Reply bodies, identifiers and media keys
// ---------------------------------------------------------------------------

/// What to do with the body of a reply.
pub enum BodyVerdict {
    /// The call failed; the error text.
    Failed(String),
    /// An empty body, or an empty object: the call succeeded.
    Empty,
    /// Parse the body as JSON.
    Parse,
}

/// The model of a verdict on a reply body.
pub enum VerdictModel {
    Failed(Seq<char>),
    Empty,
    Parse,
}

impl View for BodyVerdict {
    type V = VerdictModel;

    open spec fn view(&self) -> VerdictModel {
        match self {
            BodyVerdict::Failed(e) => VerdictModel::Failed(e@),
            BodyVerdict::Empty => VerdictModel::Empty,
            BodyVerdict::Parse => VerdictModel::Parse,
        }
    }
}

/// At most the first 256 characters of `s`.
pub open spec fn head_256(s: Seq<char>) -> Seq<char> {
    if s.len() <= 256 {
        s
    } else {
        s.take(256)
    }
}

fn head_256_of(s: &str) -> (r: String)
    ensures
        r@ == head_256(s@),
{
    let v = chars_of(s);
    let n: usize = if v.len() <= 256 {
        v.len()
    } else {
        256
    };
    let h = copy_range(&v, 0, n);
    assert(h@ =~= head_256(s@));
    string_from_chars(&h)
}

/// The verdict on the body of a reply to call `op`, given whether the HTTP
/// status was a success, the status and content type as text, and the body.
pub open spec fn spec_body_verdict(
    op: Seq<char>,
    success: bool,
    status: Seq<char>,
    content_type: Seq<char>,
    body: Seq<char>,
) -> VerdictModel {
    if !success {
        VerdictModel::Failed(op + "：HTTP "@ + status + " ct="@ + content_type + " body="@ + head_256(body))
    } else if spec_trim(body).len() == 0 || spec_trim(body) == "{}"@ {
        VerdictModel::Empty
    } else {
        VerdictModel::Parse
    }
}

/// Decides what the body of a reply to call `op` means.  The gateway
/// labels JSON as an octet stream, so the content type is only quoted.
pub fn json_body_verdict(op: &str, success: bool, status: &str, content_type: &str, body: &str) -> (r: BodyVerdict)
    ensures
        r@ == spec_body_verdict(op@, success, status@, content_type@, body@),
{
    if !success {
        let mut s = String::from_str(op);
        s.append("：HTTP ");
        s.append(status);
        s.append(" ct=");
        s.append(content_type);
        s.append(" body=");
        let h = head_256_of(body);
        s.append(h.as_str());
        return BodyVerdict::Failed(s);
    }
    let t = trim_chars(&chars_of(body));
    let ts = string_from_chars(&t);
    if t.len() == 0 || str_eq(ts.as_str(), "{}") {
        BodyVerdict::Empty
    } else {
        BodyVerdict::Parse
    }
}

/// The error for a reply body to call `op` that is not JSON.
pub open spec fn spec_parse_failure(op: Seq<char>, err: Seq<char>, content_type: Seq<char>, body: Seq<char>) -> Seq<char> {
    op + "：JSON 解析失败: "@ + err + " ct="@ + content_type + " body[:256]="@ + head_256(body)
}

/// The error for a reply body to call `op` that is not JSON; `err` is the
/// parser's message.
pub fn json_parse_failure(op: &str, err: &str, content_type: &str, body: &str) -> (r: String)
    ensures
        r@ == spec_parse_failure(op@, err@, content_type@, body@),
{
    let mut s = String::from_str(op);
    s.append("：JSON 解析失败: ");
    s.append(err);
    s.append(" ct=");
    s.append(content_type);
    s.append(" body[:256]=");
    let h = head_256_of(body);
    s.append(h.as_str());
    s
}

/// The reply that an empty body stands for: `{"ret": 0}`.
pub fn empty_reply() -> (r: JsonValue)
    ensures
        json_model(r) == JsonModel::Object(seq![("ret"@, int_model(0))]),
{
    let mut m = new_members();
    push_member(&mut m, "ret", json_int(0));
    assert(members_model(m@) =~= seq![("ret"@, int_model(0))]);
    json_object(m)
}

/// The bytes of ASCII text.
pub open spec fn ascii_bytes(s: Seq<char>) -> Seq<u8> {
    s.map_values(|c: char| c as u8)
}

/// The value of the `X-WECHAT-UIN` header for the number `n`: its decimal
/// text, in base64.
pub open spec fn spec_uin_value(n: u32) -> Seq<char> {
    base64_standard(ascii_bytes(spec_decimal(n as nat)))
}

/// The value of the `X-WECHAT-UIN` header for the number `n`.
pub fn uin_value(n: u32) -> (r: String)
    ensures
        r@ == spec_uin_value(n),
{
    let d = decimal_string(n as u64);
    let cs = chars_of(d.as_str());
    let mut bytes: Vec<u8> = Vec::new();
    let mut k: usize = 0;
    while k < cs.len()
        invariant
            k <= cs.len(),
            bytes@ == ascii_bytes(cs@.take(k as int)),
        decreases cs.len() - k,
    {
        bytes.push(cs[k] as u8);
        k += 1;
        assert(bytes@ =~= ascii_bytes(cs@.take(k as int)));
    }
    assert(cs@.take(k as int) =~= cs@);
    encode_base64(&bytes)
}

/// A uniformly random `u32`: four bytes from `rand::thread_rng()`, read
/// little-endian.  Nothing is stated of the value.
#[verifier::external_body]
fn random_u32() -> (r: u32)
{
    let mut buf = [0u8; 4];
    rand::thread_rng().fill_bytes(&mut buf);
    u32::from_le_bytes(buf)
}

/// A fresh value for the `X-WECHAT-UIN` header, made anew for each call
/// against replay: a random number's decimal text, in base64.
pub fn random_uin_b64() -> (r: String)
    ensures
        exists|n: u32| r@ == #[trigger] spec_uin_value(n),
{
    let n = random_u32();
    uin_value(n)
}

/// `uuid::Uuid::new_v4()` in its simple form: 32 hexadecimal digits of a
/// fresh random identifier.  Which identifier comes out is not stated.
#[verifier::external_body]
fn new_uuid_simple() -> (r: String)
    ensures
        r@.len() == 32,
{
    uuid::Uuid::new_v4().simple().to_string()
}

/// A fresh client id for a sent message: `bot-` and a random identifier.
pub fn new_client_id() -> (r: String)
    ensures
        r@.len() == 36,
        r@.take(4) == "bot-"@,
{
    let u = new_uuid_simple();
    let mut s = String::from_str("bot-");
    proof {
        reveal_strlit("bot-");
    }
    s.append(u.as_str());
    assert(s@.take(4) =~= "bot-"@);
    s
}

/// The bytes that standard base64 text decodes to, or the decoder's error
/// message.
pub uninterp spec fn base64_decode(text: Seq<char>) -> Result<Seq<u8>, Seq<char>>;

/// `Engine::decode` of the standard base64 engine of the `base64` crate,
/// with the error's message on failure.  The contract names the result; it
/// depends on `text` alone.
#[verifier::external_body]
fn decode_base64(text: &str) -> (r: Result<Vec<u8>, String>)
    ensures
        match r {
            Ok(b) => base64_decode(text@) == Ok::<Seq<u8>, Seq<char>>(b@),
            Err(e) => base64_decode(text@) == Err::<Seq<u8>, Seq<char>>(e@),
        },
{
    base64::engine::general_purpose::STANDARD.decode(text).map_err(|e| e.to_string())
}

/// The AES-128 key of an inbound media file, from its base64 text: a key
/// that does not decode, or is not 16 bytes long, is refused.
pub open spec fn spec_media_key(b64: Seq<char>) -> Result<Seq<u8>, Seq<char>> {
    match base64_decode(b64) {
        Err(e) => Err("aes_key base64 解码失败: "@ + e),
        Ok(k) => if k.len() != 16 {
            Err("AES-128 key 长度异常: "@ + spec_decimal(k.len()))
        } else {
            Ok(k)
        },
    }
}

/// Reads the AES-128 key of an inbound media file.
pub fn media_key(b64: &str) -> (r: Result<Vec<u8>, String>)
    ensures
        match r {
            Ok(k) => spec_media_key(b64@) == Ok::<Seq<u8>, Seq<char>>(k@),
            Err(e) => spec_media_key(b64@) == Err::<Seq<u8>, Seq<char>>(e@),
        },
{
    match decode_base64(b64) {
        Err(e) => {
            let mut s = String::from_str("aes_key base64 解码失败: ");
            s.append(e.as_str());
            Err(s)
        },
        Ok(k) => {
            if k.len() != 16 {
                let mut s = String::from_str("AES-128 key 长度异常: ");
                let d = decimal_string(k.len() as u64);
                s.append(d.as_str());
                Err(s)
            } else {
                Ok(k)
            }
        },
    }
}

/// The plaintext of `data` under AES-128 in ECB mode with PKCS#7 padding,
/// or nothing when the padding or length is malformed.
pub uninterp spec fn aes128_ecb_open(key: Seq<u8>, data: Seq<u8>) -> Option<Seq<u8>>;

/// `ecb::Decryptor::<aes::Aes128>` with `decrypt_padded_mut::<Pkcs7>`.  The
/// contract names the plaintext; the crate's only error for a 16-byte key
/// is its unpadding error, whose message is `Unpad Error`.
#[verifier::external_body]
fn aes_ecb_decrypt(key: &Vec<u8>, data: &Vec<u8>) -> (r: Result<Vec<u8>, String>)
    requires
        key@.len() == 16,
    ensures
        match r {
            Ok(d) => aes128_ecb_open(key@, data@) == Some(d@),
            Err(e) => aes128_ecb_open(key@, data@) is None && e@ == "Unpad Error"@,
        },
{
    let cipher = match ecb::Decryptor::<aes::Aes128>::new_from_slice(key) {
        Ok(c) => c,
        Err(e) => return Err(e.to_string()),
    };
    let mut buf = data.clone();
    cipher.decrypt_padded_mut::<Pkcs7>(&mut buf).map(|d| d.to_vec()).map_err(|e| e.to_string())
}

/// The plaintext of an encrypted media file, or the error for a malformed
/// one.
pub open spec fn spec_decrypt_media(key: Seq<u8>, data: Seq<u8>) -> Result<Seq<u8>, Seq<char>> {
    match aes128_ecb_open(key, data) {
        Some(d) => Ok(d),
        None => Err("AES 解密失败: "@ + "Unpad Error"@),
    }
}

/// Decrypts a media file downloaded from the CDN with its 16-byte key.
pub fn decrypt_media(key: &Vec<u8>, data: &Vec<u8>) -> (r: Result<Vec<u8>, String>)
    requires
        key@.len() == 16,
    ensures
        match r {
            Ok(d) => spec_decrypt_media(key@, data@) == Ok::<Seq<u8>, Seq<char>>(d@),
            Err(e) => spec_decrypt_media(key@, data@) == Err::<Seq<u8>, Seq<char>>(e@),
        },
{
    match aes_ecb_decrypt(key, data) {
        Ok(d) => Ok(d),
        Err(e) => {
            let mut s = String::from_str("AES 解密失败: ");
            s.append(e.as_str());
            Err(s)
        },
    }
}

} // verus!
