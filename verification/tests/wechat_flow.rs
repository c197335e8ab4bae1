use ai_companion::ilink::{IncomingMessage, LoginResult, QrCodePollResult};
use ai_companion::json::{JsonNumber, JsonValue};
use ai_companion::models::WeChatMessage;
use ai_companion::wechat::{MsgType, QrCodeStatus};
use ai_companion::wechat_flow::{
    check_send_text, find_context_token, inbound_row, missing_qrcode_status, new_message_id,
    online_event, outbound_row, peer_context, peer_kind, plan_login, plan_reply_sends,
    plan_sync_failure, random_delay_between, random_delay_ms, reply_settings, reply_target,
    rest_after_poll, with_status, ReplySettings,
};

fn s(x: &str) -> String {
    x.to_string()
}

fn row(direction: &str, content: Option<&str>, token: Option<&str>) -> WeChatMessage {
    WeChatMessage {
        id: s("id"),
        account_id: s("acc"),
        session_id: s("ses"),
        remote_msg_id: None,
        direction: s(direction),
        msg_type: s("text"),
        content: content.map(s),
        media_url: None,
        media_local_path: None,
        sender_id: Some(s("peer")),
        sender_name: None,
        context_token: token.map(s),
        status: s("sent"),
        error: None,
        created_at: s("t"),
    }
}

fn settings(segmented: bool, delay: u64, mode: &str) -> ReplySettings {
    ReplySettings { segmented, segment_delay_ms: delay, action_mode: s(mode) }
}

#[test]
fn message_ids_and_kinds() {
    let id = new_message_id();
    assert_eq!(id.chars().count(), 41);
    assert!(id.starts_with("wmsg_"));
    assert_ne!(id, new_message_id());
    assert_eq!(peer_kind("room"), "room");
    assert_eq!(peer_kind("group"), "user");
    let e = online_event("acc");
    assert_eq!(e.account_id, "acc");
    assert_eq!(e.status, "online");
    assert!(e.last_error.is_none());
}

#[test]
fn rows_for_inbound_and_outbound() {
    let m = IncomingMessage {
        remote_msg_id: s("r1"),
        msg_type: MsgType::Voice,
        content: Some(s("hi")),
        media_url: None,
        sender_id: Some(s("u")),
        sender_name: Some(s("U")),
        peer_id: s("u"),
        peer_type: s("user"),
        peer_name: None,
        context_token: Some(s("ctx")),
        received_at: s("2024"),
    };
    let r = inbound_row(s("wmsg_1"), "acc", "ses", &m);
    assert_eq!(r.direction, "inbound");
    assert_eq!(r.msg_type, "voice");
    assert_eq!(r.remote_msg_id, Some(s("r1")));
    assert_eq!(r.status, "sent");
    assert_eq!(r.created_at, "2024");
    assert_eq!(r.context_token, Some(s("ctx")));
    let o = outbound_row(s("wmsg_2"), "acc", "ses", "reply", "ctx", "now");
    assert_eq!(o.direction, "outbound");
    assert_eq!(o.status, "pending");
    assert_eq!(o.content, Some(s("reply")));
    let sent = with_status(&o, "sent", Some(s("remote")), None);
    assert_eq!(sent.status, "sent");
    assert_eq!(sent.remote_msg_id, Some(s("remote")));
    assert_eq!(sent.content, Some(s("reply")));
    let failed = with_status(&o, "failed", None, Some(s("boom")));
    assert_eq!(failed.error, Some(s("boom")));
}

#[test]
fn send_text_checks_and_tokens() {
    assert_eq!(check_send_text("  \n").err().unwrap(), "消息内容不能为空");
    assert!(check_send_text(" x ").is_ok());
    let recent = vec![
        row("outbound", Some("a"), Some("o")),
        row("inbound", Some("b"), None),
        row("inbound", Some("c"), Some("first")),
        row("inbound", Some("d"), Some("second")),
    ];
    assert_eq!(find_context_token(&recent).unwrap(), "first");
    assert_eq!(
        find_context_token(&vec![row("outbound", None, Some("o"))]).err().unwrap(),
        "无法发送：未找到有效的 context_token（需等待用户先发送消息，Bot 才能在 24h 窗口内回复）"
    );
}

#[test]
fn peer_context_newest_first() {
    let msgs = vec![row("inbound", Some("1"), None), row("outbound", None, None), row("outbound", Some("3"), None)];
    assert_eq!(peer_context(&msgs), vec![(s("assistant"), s("3")), (s("user"), s("1"))]);
}

#[test]
fn reply_settings_defaults_and_values() {
    let d = reply_settings(&None);
    assert!(!d.segmented);
    assert_eq!(d.segment_delay_ms, 800);
    assert_eq!(d.action_mode, "inline");
    let w = JsonValue::Object(vec![
        (s("enableSegmentedReply"), JsonValue::Bool(true)),
        (s("segmentDelay"), JsonValue::Number(JsonNumber::PosInt(1500))),
        (s("actionDescriptionMode"), JsonValue::String(s("remove"))),
    ]);
    let r = reply_settings(&Some(w));
    assert!(r.segmented);
    assert_eq!(r.segment_delay_ms, 1500);
    assert_eq!(r.action_mode, "remove");
    let bad = JsonValue::Object(vec![(s("segmentDelay"), JsonValue::String(s("x")))]);
    assert_eq!(reply_settings(&Some(bad)).segment_delay_ms, 800);
}

#[test]
fn reply_targets() {
    let t = reply_target(&row("inbound", Some("你好"), Some("ctx"))).unwrap();
    assert_eq!(t.text, "你好");
    assert_eq!(t.peer_id, "peer");
    assert_eq!(t.context_token, "ctx");
    assert!(reply_target(&row("inbound", Some("  "), Some("ctx"))).is_none());
    assert!(reply_target(&row("inbound", Some("x"), None)).is_none());
    assert!(reply_target(&row("inbound", Some("x"), Some(""))).is_none());
}

#[test]
fn planned_sends() {
    let one = plan_reply_sends("  你好（笑）  ", &settings(false, 800, "inline"));
    assert_eq!(one.len(), 1);
    assert_eq!(one[0].text, "你好（笑）");
    assert!(one[0].pause_before);
    assert!(!one[0].pause_after);
    let removed = plan_reply_sends("你好（笑）", &settings(false, 800, "remove"));
    assert_eq!(removed[0].text, "你好");
    let parts = plan_reply_sends("好的（点头）我知道了", &settings(true, 500, "separate"));
    assert_eq!(parts.len(), 2);
    assert_eq!(parts[0].text, "好的");
    assert!(parts[0].pause_before && parts[0].pause_after);
    assert_eq!(parts[1].text, "（点头）我知道了");
    assert!(!parts[1].pause_before && !parts[1].pause_after);
    let no_delay = plan_reply_sends("好的（点头）我知道了", &settings(true, 0, "separate"));
    assert!(!no_delay[0].pause_after);
    assert!(plan_reply_sends(" \n ", &settings(true, 500, "inline")).is_empty());
}

#[test]
fn random_delays_stay_in_range() {
    for _ in 0..50 {
        let d = random_delay_ms(100, 200);
        assert!((100..=200).contains(&d));
        let e = random_delay_between(1000, 60, 150);
        assert!((600..=1500).contains(&e));
    }
    assert_eq!(random_delay_ms(7, 7), 7);
}

#[test]
fn sync_failures() {
    let f = plan_sync_failure("acc", "getupdates 业务错误: ret=-14 err_msg=x", 5);
    assert!(f.stop);
    assert_eq!(f.event.status, "offline");
    assert_eq!(f.event.last_error, Some(s("会话已过期，请重新扫码登录")));
    let g = plan_sync_failure("acc", "network down", 40);
    assert!(!g.stop);
    assert_eq!(g.event.status, "error");
    assert_eq!(g.event.last_error, Some(s("network down")));
    assert_eq!(g.wait_secs, 40);
    assert_eq!(g.next_backoff, 60);
    assert!(plan_sync_failure("a", "session timeout", 1).stop);
    assert!(rest_after_poll(false, 0));
    assert!(!rest_after_poll(true, 0));
    assert!(!rest_after_poll(false, 2));
}

#[test]
fn login_plans() {
    let m = missing_qrcode_status("acc");
    assert_eq!(m.status, "error");
    assert_eq!(m.message, Some(s("请先申请二维码")));
    let confirmed = QrCodePollResult {
        status: QrCodeStatus::Confirmed,
        login: Some(LoginResult { bot_token: s("T"), user_id: s("U"), nickname: Some(s("N")), avatar_url: None }),
        message: None,
    };
    let p = plan_login("acc", &confirmed);
    assert_eq!(p.stored_status, "confirmed");
    assert_eq!(p.save_login.as_ref().unwrap().bot_token, "T");
    assert!(!p.go_offline);
    assert_eq!(p.event.as_ref().unwrap().status, "online");
    assert_eq!(p.event.as_ref().unwrap().nickname, Some(s("N")));
    assert_eq!(p.reply.status, "confirmed");
    assert_eq!(p.reply.bot_token, Some(s("T")));
    assert_eq!(p.reply.message, Some(s("登录成功")));
    let expired = QrCodePollResult { status: QrCodeStatus::Canceled, login: None, message: Some(s("m")) };
    let p = plan_login("acc", &expired);
    assert_eq!(p.stored_status, "expired");
    assert!(p.go_offline);
    assert_eq!(p.event.as_ref().unwrap().last_error, Some(s("二维码已过期")));
    assert_eq!(p.reply.status, "expired");
    assert_eq!(p.reply.message, Some(s("m")));
    let waiting = QrCodePollResult { status: QrCodeStatus::Scanning, login: None, message: None };
    let p = plan_login("acc", &waiting);
    assert_eq!(p.stored_status, "scanned");
    assert!(!p.go_offline && p.event.is_none() && p.save_login.is_none());
}
