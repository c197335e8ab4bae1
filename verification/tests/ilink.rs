use ai_companion::ilink::{
    config_body, decrypt_media, empty_reply, i64_text, json_body_verdict, json_parse_failure,
    media_key, new_client_id, parse_incoming_message_at, random_uin_b64, read_bot_qrcode,
    read_qrcode_poll, read_sent_msg_id, read_typing_ticket, read_updates_at, send_message_body,
    timestamp_rfc3339, typing_body, uin_value, updates_body, upload_body, BodyVerdict, UploadRequest,
};
use ai_companion::json::{JsonNumber, JsonValue};
use ai_companion::wechat::{MsgType, QrCodeStatus};
use base64::Engine;
use ecb::cipher::{block_padding::Pkcs7, BlockEncryptMut, KeyInit};

fn st(s: &str) -> JsonValue {
    JsonValue::String(s.to_string())
}

fn num(n: i64) -> JsonValue {
    if n >= 0 {
        JsonValue::Number(JsonNumber::PosInt(n as u64))
    } else {
        JsonValue::Number(JsonNumber::NegInt(n))
    }
}

fn obj(pairs: Vec<(&str, JsonValue)>) -> JsonValue {
    JsonValue::Object(pairs.into_iter().map(|(k, v)| (k.to_string(), v)).collect())
}

fn to_json(v: &JsonValue) -> String {
    match v {
        JsonValue::Null => "null".to_string(),
        JsonValue::Bool(b) => b.to_string(),
        JsonValue::Number(JsonNumber::PosInt(n)) => n.to_string(),
        JsonValue::Number(JsonNumber::NegInt(n)) => n.to_string(),
        JsonValue::Number(JsonNumber::Float(bits)) => f64::from_bits(*bits).to_string(),
        JsonValue::String(s) => format!("\"{}\"", s),
        JsonValue::Array(a) => format!("[{}]", a.iter().map(to_json).collect::<Vec<_>>().join(",")),
        JsonValue::Object(m) => format!(
            "{{{}}}",
            m.iter().map(|(k, v)| format!("\"{}\":{}", k, to_json(v))).collect::<Vec<_>>().join(",")
        ),
    }
}

fn text_item(t: &str) -> JsonValue {
    obj(vec![("type", num(1)), ("text_item", obj(vec![("text", st(t))]))])
}

#[test]
fn parses_a_direct_text_message() {
    let item = obj(vec![
        ("msg_id", num(123)),
        ("from_user_id", st("u1")),
        ("from_user_name", st("Alice")),
        ("context_token", st("ctx")),
        ("item_list", JsonValue::Array(vec![text_item("first"), text_item("hi")])),
    ]);
    let m = parse_incoming_message_at(&item, "NOW").unwrap();
    assert_eq!(m.remote_msg_id, "123");
    assert_eq!(m.msg_type, MsgType::Text);
    assert_eq!(m.content, Some("hi".to_string()));
    assert_eq!(m.media_url, None);
    assert_eq!(m.sender_id, Some("u1".to_string()));
    assert_eq!(m.sender_name, Some("Alice".to_string()));
    assert_eq!(m.peer_id, "u1");
    assert_eq!(m.peer_type, "user");
    assert_eq!(m.peer_name, Some("Alice".to_string()));
    assert_eq!(m.context_token, Some("ctx".to_string()));
    assert_eq!(m.received_at, "NOW");
}

#[test]
fn parses_a_room_media_message() {
    let item = obj(vec![
        ("msg_id", st("m2")),
        ("room_id", st("r1")),
        ("room_name", st("群")),
        ("from_user_id", st("u2")),
        ("sender_name", st("Bob")),
        ("message_type", num(2)),
        ("create_time", num(0)),
        (
            "item_list",
            JsonValue::Array(vec![
                obj(vec![("type", num(2)), ("media_item", obj(vec![("cdn_url", st("http://x"))]))]),
                obj(vec![("type", num(3)), ("media_item", obj(vec![("media_url", st("http://y"))]))]),
            ]),
        ),
    ]);
    let m = parse_incoming_message_at(&item, "NOW").unwrap();
    assert_eq!(m.msg_type, MsgType::Image);
    assert_eq!(m.peer_id, "r1");
    assert_eq!(m.peer_type, "room");
    assert_eq!(m.peer_name, Some("群".to_string()));
    assert_eq!(m.sender_name, Some("Bob".to_string()));
    assert_eq!(m.media_url, Some("http://x".to_string()));
    assert_eq!(m.content, None);
    assert_eq!(m.received_at, "1970-01-01T00:00:00+00:00");
}

#[test]
fn message_without_id_is_skipped() {
    assert!(parse_incoming_message_at(&obj(vec![("text", st("x"))]), "NOW").is_none());
    assert!(parse_incoming_message_at(&obj(vec![("msg_id", st(""))]), "NOW").is_none());
}

#[test]
fn clock_formatting() {
    assert_eq!(timestamp_rfc3339(0), Some("1970-01-01T00:00:00+00:00".to_string()));
    assert_eq!(timestamp_rfc3339(86400), Some("1970-01-02T00:00:00+00:00".to_string()));
    assert_eq!(i64_text(-42), "-42");
    assert_eq!(i64_text(0), "0");
}

#[test]
fn qrcode_reply() {
    let ok = obj(vec![("ret", num(0)), ("qrcode_img_content", st("http://qr")), ("qrcode", st("k1"))]);
    let info = read_bot_qrcode(&ok, "{}").ok().unwrap();
    assert_eq!(info.qrcode_url, "http://qr");
    assert_eq!(info.qrcode_key, "k1");
    assert_eq!(info.expires_in, 300);
    let bad = obj(vec![("ret", num(-5)), ("err_msg", st("busy"))]);
    assert_eq!(read_bot_qrcode(&bad, "R").err().unwrap(), "get_bot_qrcode 业务错误: ret=-5 err_msg=busy");
    let no_err = obj(vec![("ret", num(3))]);
    assert_eq!(
        read_bot_qrcode(&no_err, "R").err().unwrap(),
        "get_bot_qrcode 业务错误: ret=3 err_msg=(no err_msg)"
    );
    let no_url = obj(vec![("qrcode", st("k"))]);
    assert_eq!(
        read_bot_qrcode(&no_url, "RAW").err().unwrap(),
        "二维码 URL 缺失：响应中未找到 qrcode_img_content/qrcode_url 字段。raw=RAW"
    );
    let no_key = obj(vec![("qrcode_url", st("u")), ("expires_in", num(60))]);
    assert_eq!(
        read_bot_qrcode(&no_key, "RAW").err().unwrap(),
        "qrcode 缺失：响应中未找到 qrcode/qrcode_key 字段。raw=RAW"
    );
}

#[test]
fn qrcode_poll_reply() {
    let wait = obj(vec![("status", st("wait"))]);
    let p = read_qrcode_poll(&wait).ok().unwrap();
    assert_eq!(p.status, QrCodeStatus::New);
    assert!(p.login.is_none());
    let scanned = obj(vec![("status", st("scaned")), ("message", st("m"))]);
    let p = read_qrcode_poll(&scanned).ok().unwrap();
    assert_eq!(p.status, QrCodeStatus::Scanning);
    assert_eq!(p.message, Some("m".to_string()));
    let confirmed = obj(vec![
        ("status", st("confirmed")),
        ("credentials", obj(vec![("token", st("T")), ("wxid", st("W"))])),
        ("nick_name", st("N")),
    ]);
    let p = read_qrcode_poll(&confirmed).ok().unwrap();
    assert_eq!(p.status, QrCodeStatus::Confirmed);
    let l = p.login.unwrap();
    assert_eq!(l.bot_token, "T");
    assert_eq!(l.user_id, "W");
    assert_eq!(l.nickname, Some("N".to_string()));
    assert_eq!(l.avatar_url, None);
    let top = obj(vec![("status", st("ok")), ("bot_token", st("T2")), ("user_id", st("U2"))]);
    let l = read_qrcode_poll(&top).ok().unwrap().login.unwrap();
    assert_eq!(l.bot_token, "T2");
    assert_eq!(l.user_id, "U2");
    let no_token = obj(vec![("status", st("confirmed"))]);
    assert_eq!(read_qrcode_poll(&no_token).err().unwrap(), "confirmed 但缺少 bot_token");
    let no_user = obj(vec![("status", st("confirmed")), ("bot_token", st("T"))]);
    assert_eq!(read_qrcode_poll(&no_user).err().unwrap(), "confirmed 但缺少 ilink_user_id");
    let err = obj(vec![("ret", num(1)), ("err_msg", st("x"))]);
    assert_eq!(read_qrcode_poll(&err).err().unwrap(), "get_qrcode_status 业务错误: ret=1 err_msg=x");
}

#[test]
fn updates_reply() {
    let raw = obj(vec![
        ("ret", num(0)),
        (
            "msgs",
            JsonValue::Array(vec![
                obj(vec![("msg_id", st("a")), ("from_user_id", st("u")), ("item_list", JsonValue::Array(vec![text_item("x")]))]),
                obj(vec![("foo", num(1))]),
            ]),
        ),
        ("get_updates_buf", st("b2")),
        ("has_more", JsonValue::Bool(true)),
    ]);
    let r = read_updates_at(&raw, "b1", "NOW").ok().unwrap();
    assert_eq!(r.messages.len(), 1);
    assert_eq!(r.messages[0].content, Some("x".to_string()));
    assert_eq!(r.next_buf, "b2");
    assert!(r.has_more);
    let nothing = obj(vec![("ret", num(-1))]);
    let r = read_updates_at(&nothing, "b1", "NOW").ok().unwrap();
    assert!(r.messages.is_empty());
    assert_eq!(r.next_buf, "b1");
    assert!(!r.has_more);
    let err = obj(vec![("ret", num(-2)), ("errmsg", st("bad"))]);
    assert_eq!(read_updates_at(&err, "b", "NOW").err().unwrap(), "getupdates 业务错误: ret=-2 err_msg=bad");
    let expired = obj(vec![("errcode", num(-14))]);
    assert_eq!(read_updates_at(&expired, "b", "NOW").err().unwrap(), "session timeout, 需重新登录");
    let keep = obj(vec![]);
    assert_eq!(read_updates_at(&keep, "b9", "NOW").ok().unwrap().next_buf, "b9");
}

#[test]
fn small_replies() {
    assert_eq!(read_sent_msg_id(&obj(vec![("id", st("s1"))])), "s1");
    assert_eq!(read_sent_msg_id(&obj(vec![("msg_id", num(5))])), "");
    assert_eq!(read_typing_ticket(&obj(vec![("typing_ticket", st("tt"))]), "R").ok().unwrap(), "tt");
    assert_eq!(
        read_typing_ticket(&obj(vec![]), "R").err().unwrap(),
        "getconfig 响应中缺少 typing_ticket 字段。raw=R"
    );
    assert_eq!(
        read_typing_ticket(&obj(vec![("ret", num(2))]), "R").err().unwrap(),
        "getconfig 业务错误: ret=2 err_msg=(no err_msg)"
    );
}

#[test]
fn request_bodies() {
    assert_eq!(
        to_json(&updates_body("B")),
        "{\"get_updates_buf\":\"B\",\"base_info\":{\"channel_version\":\"1.0.0\"}}"
    );
    assert_eq!(
        to_json(&send_message_body("to", "ctx", "hello", 2, "bot-1")),
        "{\"msg\":{\"from_user_id\":\"\",\"to_user_id\":\"to\",\"client_id\":\"bot-1\",\"message_type\":2,\"message_state\":2,\"context_token\":\"ctx\",\"item_list\":[{\"type\":1,\"text_item\":{\"text\":\"hello\"}}]},\"base_info\":{\"channel_version\":\"1.0.0\"}}"
    );
    assert_eq!(to_json(&config_body("u", None)), "{\"ilink_user_id\":\"u\"}");
    assert_eq!(
        to_json(&config_body("u", Some("c"))),
        "{\"ilink_user_id\":\"u\",\"context_token\":\"c\"}"
    );
    assert_eq!(
        to_json(&typing_body("u", "t", 1)),
        "{\"ilink_user_id\":\"u\",\"typing_ticket\":\"t\",\"status\":1}"
    );
    let u = UploadRequest {
        filekey: "fk".to_string(),
        media_type: 1,
        to_user_id: "to".to_string(),
        rawsize: 10,
        rawfilemd5: "md5".to_string(),
        filesize: 16,
        thumb_rawsize: None,
        thumb_rawfilemd5: Some("tm".to_string()),
        thumb_filesize: None,
    };
    assert_eq!(
        to_json(&upload_body(&u)),
        "{\"filekey\":\"fk\",\"media_type\":1,\"to_user_id\":\"to\",\"rawsize\":10,\"rawfilemd5\":\"md5\",\"filesize\":16,\"thumb_rawfilemd5\":\"tm\"}"
    );
    assert_eq!(to_json(&empty_reply()), "{\"ret\":0}");
}

#[test]
fn body_verdicts() {
    match json_body_verdict("op", false, "500", "text/plain", "oops") {
        BodyVerdict::Failed(e) => assert_eq!(e, "op：HTTP 500 ct=text/plain body=oops"),
        _ => panic!("expected a failure"),
    }
    let long = "x".repeat(300);
    match json_body_verdict("op", false, "502", "ct", &long) {
        BodyVerdict::Failed(e) => assert_eq!(e, format!("op：HTTP 502 ct=ct body={}", "x".repeat(256))),
        _ => panic!("expected a failure"),
    }
    assert!(matches!(json_body_verdict("op", true, "200", "ct", "  "), BodyVerdict::Empty));
    assert!(matches!(json_body_verdict("op", true, "200", "ct", " {} "), BodyVerdict::Empty));
    assert!(matches!(json_body_verdict("op", true, "200", "ct", "{\"a\":1}"), BodyVerdict::Parse));
    assert_eq!(json_parse_failure("op", "bad", "ct", "b"), "op：JSON 解析失败: bad ct=ct body[:256]=b");
}

#[test]
fn uin_header_values() {
    assert_eq!(uin_value(12345), "MTIzNDU=");
    assert_eq!(uin_value(0), "MA==");
    let r = random_uin_b64();
    let decoded = base64::engine::general_purpose::STANDARD.decode(r).unwrap();
    let text = String::from_utf8(decoded).unwrap();
    assert!(text.parse::<u32>().is_ok());
    let c = new_client_id();
    assert_eq!(c.len(), 36);
    assert!(c.starts_with("bot-"));
    assert_ne!(c, new_client_id());
}

#[test]
fn media_keys_and_decryption() {
    let key = media_key("MDEyMzQ1Njc4OWFiY2RlZg==").unwrap();
    assert_eq!(key, b"0123456789abcdef".to_vec());
    assert_eq!(media_key("YWJj").err().unwrap(), "AES-128 key 长度异常: 3");
    assert!(media_key("!!!").err().unwrap().starts_with("aes_key base64 解码失败: "));

    let mut buf = [0u8; 16];
    buf[..5].copy_from_slice(b"hello");
    let ct = ecb::Encryptor::<aes::Aes128>::new_from_slice(&key)
        .unwrap()
        .encrypt_padded_mut::<Pkcs7>(&mut buf, 5)
        .unwrap()
        .to_vec();
    assert_ne!(ct, b"hello".to_vec());
    assert_eq!(decrypt_media(&key, &ct).unwrap(), b"hello".to_vec());
    assert_eq!(decrypt_media(&key, &vec![1u8; 15]).err().unwrap(), "AES 解密失败: Unpad Error");
}
