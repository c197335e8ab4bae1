use ai_companion::wechat::{
    auto_reply_enabled, default_account_id, is_emoji, is_sentence_terminator, map_qrcode_status_str,
    map_status, msg_type_str, next_backoff, preview_text, qrcode_status_from_text,
    remove_action_descriptions, smart_split_segments, MsgType, QrCodeStatus,
};

#[test]
fn msg_type_numbers() {
    assert_eq!(MsgType::from_int(1), MsgType::Text);
    assert_eq!(MsgType::from_int(2), MsgType::Image);
    assert_eq!(MsgType::from_int(3), MsgType::Voice);
    assert_eq!(MsgType::from_int(4), MsgType::File);
    assert_eq!(MsgType::from_int(5), MsgType::Video);
    assert_eq!(MsgType::from_int(10000), MsgType::System);
    assert_eq!(MsgType::from_int(10002), MsgType::System);
    assert_eq!(MsgType::from_int(7), MsgType::Unknown);
    assert_eq!(msg_type_str(&MsgType::Voice), "voice");
    assert_eq!(msg_type_str(&MsgType::Unknown), "unknown");
}

#[test]
fn qrcode_status_words() {
    assert_eq!(qrcode_status_from_text("scaned"), QrCodeStatus::Scanning);
    assert_eq!(qrcode_status_from_text("ok"), QrCodeStatus::Confirmed);
    assert_eq!(qrcode_status_from_text("expired"), QrCodeStatus::Expired);
    assert_eq!(qrcode_status_from_text("cancelled"), QrCodeStatus::Canceled);
    assert_eq!(qrcode_status_from_text("wait"), QrCodeStatus::New);
    assert_eq!(map_qrcode_status_str(&QrCodeStatus::New), "pending");
    assert_eq!(map_status(&QrCodeStatus::Scanning), "scanned");
    assert_eq!(map_status(&QrCodeStatus::Canceled), "expired");
    assert_eq!(default_account_id(), "default");
}

#[test]
fn previews_and_settings() {
    assert_eq!(preview_text(&MsgType::Image, &None), "[图片]");
    assert_eq!(preview_text(&MsgType::System, &Some("x".to_string())), "[系统消息]");
    assert_eq!(preview_text(&MsgType::Text, &Some("你好".to_string())), "你好");
    assert_eq!(preview_text(&MsgType::Text, &None), "");
    assert!(auto_reply_enabled("\"true\""));
    assert!(auto_reply_enabled("true"));
    assert!(!auto_reply_enabled("false"));
    assert_eq!(next_backoff(5), 10);
    assert_eq!(next_backoff(30), 60);
    assert_eq!(next_backoff(45), 60);
}

#[test]
fn sentence_terminators_and_emoji() {
    assert!(is_sentence_terminator('。', None));
    assert!(is_sentence_terminator('～', Some('a')));
    assert!(is_sentence_terminator('…', None));
    assert!(is_sentence_terminator('…', Some(' ')));
    assert!(!is_sentence_terminator('…', Some('有')));
    assert!(!is_sentence_terminator('，', None));
    assert!(is_emoji('😀'));
    assert!(is_emoji('❤'));
    assert!(!is_emoji('a'));
    assert!(!is_emoji('你'));
}

#[test]
fn action_descriptions_are_removed() {
    assert_eq!(
        remove_action_descriptions("你好（笑）呀\n\n  (wave) 再见 "),
        "你好呀\n再见"
    );
    assert_eq!(remove_action_descriptions("（（嵌套）还在）留下"), "留下");
    assert_eq!(remove_action_descriptions("(没有闭合"), "");
    assert_eq!(remove_action_descriptions(""), "");
}

#[test]
fn split_lines_merge_short_fragments() {
    assert_eq!(smart_split_segments("你好\n世界", "inline"), vec!["你好世界".to_string()]);
}

#[test]
fn split_empty_text_gives_it_back() {
    assert_eq!(smart_split_segments("", "inline"), vec!["".to_string()]);
    assert_eq!(smart_split_segments("  \n\n ", "inline"), vec!["  \n\n ".to_string()]);
}

#[test]
fn split_separate_actions() {
    assert_eq!(
        smart_split_segments("好的（点头）我知道了", "separate"),
        vec!["好的".to_string(), "（点头）我知道了".to_string()]
    );
    assert_eq!(
        smart_split_segments("好的（点头）我知道了", "inline"),
        vec!["好的（点头）我知道了".to_string()]
    );
}

#[test]
fn split_at_sentence_end_after_target_length() {
    let first = format!("{}。", "甲".repeat(55));
    let second = format!("{}。", "乙".repeat(30));
    let text = format!("{}{}", first, second);
    assert_eq!(smart_split_segments(&text, "inline"), vec![first, second]);
}

#[test]
fn split_short_sentence_waits_for_target_length() {
    let text = format!("{}。{}", "甲".repeat(24), "乙".repeat(10));
    assert_eq!(smart_split_segments(&text, "inline"), vec![text.clone()]);
}

#[test]
fn split_overlong_at_comma() {
    let first = format!("{}，", "甲".repeat(125));
    let second = "乙".repeat(20);
    let text = format!("{}{}", first, second);
    assert_eq!(smart_split_segments(&text, "inline"), vec![first, second]);
}

#[test]
fn split_keeps_short_exclamations() {
    assert_eq!(smart_split_segments("好呀！\n嗯嗯~", "inline"), vec!["好呀！嗯嗯~".to_string()]);
    assert_eq!(
        smart_split_segments("好呀好呀！\n是的是的~", "inline"),
        vec!["好呀好呀！".to_string(), "是的是的~".to_string()]
    );
}

#[test]
fn split_after_emoji() {
    let text = format!("{}😀 后面", "甲".repeat(19));
    assert_eq!(
        smart_split_segments(&text, "inline"),
        vec![format!("{}😀后面", "甲".repeat(19))]
    );
}
