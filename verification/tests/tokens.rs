use ai_companion::chat::{ChatMessage, ContentPart, ToolCall};
use ai_companion::tokens::{estimate_tokens, message_tokens, trim_history_to_budget};

#[test]
fn test_estimate_tokens_chinese() {
    let t = estimate_tokens("你好世界");
    assert!(t >= 2 && t <= 6);
}

#[test]
fn test_estimate_tokens_english() {
    let t = estimate_tokens("hello world this is a test");
    assert!(t >= 3 && t <= 10);
}

#[test]
fn test_estimate_tokens_empty() {
    assert_eq!(estimate_tokens(""), 1);
}

fn reference_estimate(text: &str) -> usize {
    let mut count: f32 = 0.0;
    for c in text.chars() {
        if c as u32 > 0x7F {
            count += 0.7;
        } else if c.is_ascii_whitespace() {
            count += 0.3;
        } else {
            count += 0.25;
        }
    }
    (count.ceil() as usize).max(1)
}

#[test]
fn estimate_tokens_matches_single_precision_sum() {
    let samples = [
        "",
        "a",
        "abcd",
        "abcde",
        "hello world",
        "你好",
        "你好，世界！",
        "mixed 中文 and English text with spaces   and tabs\t\t",
        "\n\n\n",
    ];
    for s in samples.iter() {
        assert_eq!(estimate_tokens(s), reference_estimate(s), "sample {:?}", s);
    }
    let mut long = String::new();
    for i in 0..5000 {
        long.push(if i % 3 == 0 { '字' } else if i % 3 == 1 { ' ' } else { 'x' });
        assert_eq!(estimate_tokens(&long), reference_estimate(&long));
    }
}

#[test]
fn message_token_counts() {
    assert_eq!(message_tokens(&ChatMessage::user("hello world")), 4 + estimate_tokens("hello world"));
    let mm = ChatMessage::user_multimodal(vec![
        ContentPart::text("看"),
        ContentPart::image_bytes(vec![1, 2, 3]),
        ContentPart::ImageUrl("http://x".to_string()),
        ContentPart::VideoFrames(vec!["a".to_string(), "b".to_string()]),
    ]);
    assert_eq!(message_tokens(&mm), 4 + estimate_tokens("看") + 1024 + 256 + 2 * 768);
    let call = ToolCall { id: "1".to_string(), name: "get_time".to_string(), arguments: "{}".to_string() };
    let with_call = ChatMessage::assistant_with_tools("", vec![call]);
    assert_eq!(message_tokens(&with_call), 4 + 1 + estimate_tokens("get_time") + estimate_tokens("{}"));
}

#[test]
fn history_trimmed_to_budget() {
    let msgs = vec![ChatMessage::user("a"), ChatMessage::assistant("b"), ChatMessage::user("c")];
    let all = trim_history_to_budget(&msgs, 0);
    assert_eq!(all.iter().map(|m| m.role.clone()).collect::<Vec<_>>(), vec!["user", "assistant", "user"]);
    let small_budget = trim_history_to_budget(&msgs, 2_000_000);
    assert_eq!(small_budget.len(), 3);
    let big = ChatMessage::user_multimodal((0..9).map(|_| ContentPart::image_bytes(vec![0])).collect());
    let msgs = vec![big, ChatMessage::assistant("b"), ChatMessage::user("c")];
    let tight = trim_history_to_budget(&msgs, 2_000_000);
    assert_eq!(tight.iter().map(|m| m.role.clone()).collect::<Vec<_>>(), vec!["assistant", "user"]);
    assert!(matches!(&tight[1].content[0], ContentPart::Text(t) if t == "c"));
    assert_eq!(trim_history_to_budget(&msgs, 0).len(), 3);
    assert!(trim_history_to_budget(&[], 0).is_empty());
}

#[test]
fn appending_never_lowers_the_estimate() {
    let base = "你好 world";
    let mut text = base.to_string();
    let mut last = estimate_tokens(&text);
    assert!(last >= 1);
    for piece in ["a", " ", "中文", "\n\n", "long text with many words"] {
        text.push_str(piece);
        let now = estimate_tokens(&text);
        assert!(now >= last);
        last = now;
    }
}
