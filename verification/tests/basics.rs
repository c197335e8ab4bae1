use ai_companion::chat::{ChatMessage, ContentPart, ToolCall};
use ai_companion::json::{copy_json, json_int, json_nat, json_object, json_str, new_members, push_member, JsonNumber, JsonValue};
use ai_companion::perception::parse_wav_header;
use ai_companion::relationship::{
    build_relationship_context, milestone_candidates, new_milestones, style_instruction, MilestoneType, MoodBand, ResponseStyle,
};
use ai_companion::text::{
    chars_of, contains, decimal_string, is_whitespace, join_strs, starts_with, str_eq, string_from_chars,
    strip_prefix, trim_chars,
};

fn s(x: &str) -> String {
    x.to_string()
}

#[test]
fn text_helpers_follow_str() {
    assert!(is_whitespace('\u{3000}'));
    assert!(!is_whitespace('a'));
    let v = chars_of("  你好 \n");
    assert_eq!(string_from_chars(&trim_chars(&v)), "你好");
    assert_eq!(join_strs(&vec![s("a"), s("b"), s("c")], "、"), "a、b、c");
    assert_eq!(join_strs(&vec![], ","), "");
    assert_eq!(decimal_string(0), "0");
    assert_eq!(decimal_string(18446744073709551615), "18446744073709551615");
    assert!(starts_with("data: x", "data: "));
    assert!(!starts_with("da", "data"));
    assert_eq!(strip_prefix("model_x", "model_"), "x");
    assert_eq!(strip_prefix("x", "model_"), "x");
    assert!(contains("abcdef", "cde"));
    assert!(contains("abc", ""));
    assert!(!contains("abc", "abcd"));
    assert!(str_eq("你", "你"));
    assert!(!str_eq("a", "b"));
}

#[test]
fn json_values() {
    let mut m = new_members();
    push_member(&mut m, "a", json_str("x"));
    push_member(&mut m, "n", json_int(-3));
    push_member(&mut m, "u", json_nat(7));
    let v = json_object(m);
    assert_eq!(v.get("a").unwrap().as_str(), Some("x"));
    assert_eq!(v.get("n").unwrap().as_i64(), Some(-3));
    assert_eq!(v.get("n").unwrap().as_u64(), None);
    assert_eq!(v.get("u").unwrap().as_u64(), Some(7));
    assert!(v.get("zz").is_none());
    assert!(JsonValue::Null.get("a").is_none());
    assert_eq!(JsonValue::Bool(true).as_bool(), Some(true));
    assert_eq!(JsonValue::Number(JsonNumber::PosInt(u64::MAX)).as_i64(), None);
    assert_eq!(JsonValue::Number(JsonNumber::Float(1.5f64.to_bits())).as_i64(), None);
    let arr = JsonValue::Array(vec![JsonValue::Null, v]);
    let c = copy_json(&arr);
    assert_eq!(c.as_array().unwrap().len(), 2);
    assert_eq!(c.as_array().unwrap()[1].get("a").unwrap().as_str(), Some("x"));
}

#[test]
fn chat_messages() {
    let m = ChatMessage::user("hi");
    assert_eq!(m.role, "user");
    assert!(matches!(&m.content[0], ContentPart::Text(t) if t == "hi"));
    assert_eq!(ChatMessage::system("s").role, "system");
    assert_eq!(ChatMessage::assistant("a").role, "assistant");
    let t = ChatMessage::tool("c1", "out");
    assert_eq!(t.role, "tool");
    assert_eq!(t.tool_call_id, Some(s("c1")));
    let w = ChatMessage::assistant_with_tools("x", vec![ToolCall { id: s("1"), name: s("f"), arguments: s("{}") }]);
    assert_eq!(w.tool_calls.as_ref().unwrap()[0].name, "f");
    let mm = ChatMessage::user_multimodal(vec![ContentPart::text("a"), ContentPart::image_bytes(vec![1, 2])]);
    assert_eq!(mm.content.len(), 2);
    let d = mm.duplicate();
    assert!(matches!(&d.content[1], ContentPart::ImageBytes(b) if b == &vec![1u8, 2]));
}

#[test]
fn relationship_words() {
    assert_eq!(style_instruction(ResponseStyle::Polite), "你刚认识用户，态度礼貌客气，保持适当距离，语气温和但不太过亲昵。");
    let due = milestone_candidates(30, true, false, false);
    let kinds: Vec<MilestoneType> = due.iter().map(|c| c.typ).collect();
    assert_eq!(
        kinds,
        vec![
            MilestoneType::Anniversary3Days,
            MilestoneType::Anniversary7Days,
            MilestoneType::Anniversary30Days,
            MilestoneType::IntimacyLevel20
        ]
    );
    assert_eq!(due[2].title, "相识一个月");
    assert_eq!(due[3].icon, "😊");
    assert!(milestone_candidates(1, false, false, false).is_empty());
    assert_eq!(
        build_relationship_context(ResponseStyle::Friendly, 10, 42, 35, &Some(s("小猫")), MoodBand::Missing, Some(30)),
        "【关系状态】你们已经认识10天，共进行了42次对话。当前亲密度35/100。\n你和用户已经熟悉，可以开玩笑、主动关心，语气轻松自然，像好朋友一样。会用表情符号。\n你对用户的称呼：小猫\n你现在非常想念用户，很想和TA说话。\n距离上次对话已经过去30小时，主动问候一下吧。"
    );
    assert_eq!(
        build_relationship_context(ResponseStyle::Polite, 0, 0, 0, &None, MoodBand::Neutral, Some(5)),
        "【关系状态】你们已经认识0天，共进行了0次对话。当前亲密度0/100。\n你刚认识用户，态度礼貌客气，保持适当距离，语气温和但不太过亲昵。\n你对用户的称呼：你"
    );
}

#[test]
fn wav_headers() {
    let mut wav = Vec::new();
    wav.extend_from_slice(b"RIFF");
    wav.extend_from_slice(&36u32.to_le_bytes());
    wav.extend_from_slice(b"WAVE");
    wav.extend_from_slice(b"fmt ");
    wav.extend_from_slice(&16u32.to_le_bytes());
    wav.extend_from_slice(&1u16.to_le_bytes());
    wav.extend_from_slice(&2u16.to_le_bytes());
    wav.extend_from_slice(&16000u32.to_le_bytes());
    wav.extend_from_slice(&64000u32.to_le_bytes());
    wav.extend_from_slice(&4u16.to_le_bytes());
    wav.extend_from_slice(&16u16.to_le_bytes());
    wav.extend_from_slice(b"data");
    wav.extend_from_slice(&0u32.to_le_bytes());
    assert_eq!(wav.len(), 44);
    assert_eq!(parse_wav_header(&wav), Some((2, 16000, 16)));
    assert_eq!(parse_wav_header(&wav[..20]), None);
    let mut bad = wav.clone();
    bad[0] = b'X';
    assert_eq!(parse_wav_header(&bad), None);
}

#[test]
fn only_new_milestones_are_recorded() {
    let reached = vec![MilestoneType::Anniversary3Days, MilestoneType::IntimacyLevel20];
    let fresh = new_milestones(30, true, false, false, &reached);
    let kinds: Vec<MilestoneType> = fresh.iter().map(|c| c.typ).collect();
    assert_eq!(kinds, vec![MilestoneType::Anniversary7Days, MilestoneType::Anniversary30Days]);
    assert_eq!(fresh[0].title, "相识一周");
    assert!(new_milestones(2, false, false, false, &vec![]).is_empty());
    assert_eq!(new_milestones(100, false, false, true, &vec![]).len(), 5);
}

#[test]
fn a_second_milestone_check_records_nothing() {
    let mut reached = vec![MilestoneType::Anniversary3Days];
    let first: Vec<MilestoneType> = new_milestones(100, false, true, false, &reached).iter().map(|c| c.typ).collect();
    assert_eq!(first.len(), 4);
    reached.extend(first);
    assert!(new_milestones(100, false, true, false, &reached).is_empty());
}
