use ai_companion::chat::{ContentPart, ToolCall};
use ai_companion::json::JsonValue;
use ai_companion::models::{MessageSegment, SegmentType};
use ai_companion::stream::{end_chunk, text_chunk, ChatChunk};
use ai_companion::turns::{
    build_history, chunk_event, collect_assistant_turn, copy_segment, mock_chunks, no_model_error,
    persona_provider, reply_outcome, retitles_session, segment_events, stream_reply_text, user_turn,
    StoredTurn,
};

fn s(x: &str) -> String {
    x.to_string()
}

fn call(id: &str) -> ToolCall {
    ToolCall { id: s(id), name: s("f"), arguments: s("{}") }
}

fn seg(text: &str) -> MessageSegment {
    MessageSegment {
        segment_type: SegmentType::Text,
        content: Some(s(text)),
        language: None,
        image_url: None,
        image_bytes: None,
        tool_call_id: None,
        source: None,
        collapsed: None,
    }
}

fn text_of(p: &ContentPart) -> String {
    match p {
        ContentPart::Text(t) => t.clone(),
        _ => s("<other>"),
    }
}

#[test]
fn assistant_turn_stops_at_done() {
    let chunks = vec![
        text_chunk(s("你")),
        ChatChunk { content: s(""), tool_calls: Some(vec![call("a")]), done: false },
        text_chunk(s("好")),
        end_chunk(),
        text_chunk(s("ignored")),
        ChatChunk { content: s(""), tool_calls: Some(vec![call("b")]), done: false },
    ];
    let (text, calls) = collect_assistant_turn(chunks);
    assert_eq!(text, "你好");
    assert_eq!(calls.len(), 1);
    assert_eq!(calls[0].id, "a");
    let (text, calls) = collect_assistant_turn(vec![text_chunk(s("x")), text_chunk(s("y"))]);
    assert_eq!(text, "xy");
    assert!(calls.is_empty());
}

#[test]
fn streamed_text_and_shown_pieces() {
    let chunks = vec![text_chunk(s("a")), text_chunk(s("")), text_chunk(s("b")), end_chunk(), text_chunk(s("c"))];
    let (full, shown) = stream_reply_text(&chunks);
    assert_eq!(full, "ab");
    assert_eq!(shown, vec![s("a"), s("b")]);
}

#[test]
fn chunk_events() {
    let e = chunk_event("s", "m", s("x"), true);
    assert_eq!(e.session_id, "s");
    assert_eq!(e.message_id, "m");
    assert_eq!(e.chunk, "x");
    assert!(e.done);
}

#[test]
fn mock_chunks_of_two() {
    assert_eq!(mock_chunks("你好世界!"), vec![s("你好"), s("世界"), s("!")]);
    assert_eq!(mock_chunks("ab"), vec![s("ab")]);
    assert!(mock_chunks("").is_empty());
    let text = "这是一个用来测试的句子";
    assert_eq!(mock_chunks(text).concat(), text);
}

#[test]
fn segment_events_mark_the_last() {
    let segs = vec![seg("一"), seg("二"), seg("三")];
    let ev = segment_events("s", "m", &segs);
    assert_eq!(ev.len(), 3);
    for (i, e) in ev.iter().enumerate() {
        assert_eq!(e.segment_index, i);
        assert_eq!(e.done, i == 2);
        assert_eq!(e.session_id, "s");
        assert_eq!(e.segment.content, segs[i].content);
    }
    assert!(segment_events("s", "m", &vec![]).is_empty());
    let c = copy_segment(&segs[1]);
    assert_eq!(c.content, Some(s("二")));
    assert_eq!(c.segment_type, SegmentType::Text);
}

#[test]
fn history_from_stored_turns() {
    let turns = vec![
        StoredTurn { role: s("system"), content: s("ignored"), extra_parts: None, tool_calls: None },
        StoredTurn {
            role: s("user"),
            content: s("看图"),
            extra_parts: Some(vec![ContentPart::ImageUrl(s("http://i"))]),
            tool_calls: None,
        },
        StoredTurn { role: s("assistant"), content: s("好"), extra_parts: None, tool_calls: Some(vec![call("c1")]) },
        StoredTurn { role: s("tool"), content: s("结果"), extra_parts: None, tool_calls: None },
        StoredTurn { role: s("assistant"), content: s("完"), extra_parts: None, tool_calls: None },
    ];
    let h = build_history(&turns);
    assert_eq!(h.len(), 4);
    assert_eq!(h[0].role, "user");
    assert_eq!(h[0].content.len(), 2);
    assert_eq!(text_of(&h[0].content[0]), "看图");
    assert!(matches!(&h[0].content[1], ContentPart::ImageUrl(u) if u == "http://i"));
    assert_eq!(h[1].role, "assistant");
    assert_eq!(h[1].tool_calls.as_ref().unwrap()[0].id, "c1");
    assert_eq!(h[2].role, "tool");
    assert_eq!(text_of(&h[2].content[0]), "结果");
    assert!(h[3].tool_calls.is_none());
}

#[test]
fn new_user_turn() {
    let m = user_turn("hi", &Some(vec![ContentPart::text("more")]));
    assert_eq!(m.role, "user");
    assert_eq!(m.content.iter().map(text_of).collect::<Vec<_>>(), vec![s("hi"), s("more")]);
    assert_eq!(user_turn("x", &None).content.len(), 1);
}

#[test]
fn titles_and_providers() {
    assert!(retitles_session("短消息"));
    assert!(retitles_session("12345678901234567890"));
    assert!(!retitles_session("123456789012345678901"));
    assert!(!retitles_session("七个汉字有多长"));
    let llm = JsonValue::Object(vec![(s("provider"), JsonValue::String(s("qwen")))]);
    assert_eq!(persona_provider(&llm), "qwen");
    assert_eq!(persona_provider(&JsonValue::Null), "");
    assert_eq!(no_model_error(""), "模型服务暂不可用（默认模型），请检查 Ollama 是否已启动并拉取模型");
    assert_eq!(no_model_error("qwen"), "模型服务暂不可用（qwen），请检查 Ollama 是否已启动并拉取模型");
}

#[test]
fn reply_outcomes() {
    assert_eq!(reply_outcome(s("好的")), Ok(s("好的")));
    assert_eq!(reply_outcome(s("")), Err(s("LLM 返回空内容，请检查模型服务")));
    assert_eq!(
        reply_outcome(s("抱歉，正在思考中，请稍后重试。")),
        Err(s("LLM 服务暂不可用，请检查 Ollama 是否启动"))
    );
}
