use ai_companion::chat::ContentPart;
use ai_companion::stream::{
    build_ollama_content, classify_sse_line, cloud_request_failed, collect_images, end_chunk,
    ollama_reply_events, ollama_reply_events_with_ids, ollama_request_failed, ollama_unavailable,
    openai_chunk_events, text_chunk, ChatChunk, LineBuffer, OllamaFunction, OllamaMessage, OllamaReply,
    OllamaToolCall, OpenAiChoice, OpenAiChunk, OpenAiDelta, OpenAiFunction, OpenAiToolCall, SseLine,
};

fn s(x: &str) -> String {
    x.to_string()
}

fn texts(v: &[ChatChunk]) -> Vec<(String, bool)> {
    v.iter().map(|c| (c.content.clone(), c.done)).collect()
}

#[test]
fn line_buffer_splits_lines() {
    let mut b = LineBuffer::new();
    b.push_text("data: a");
    assert_eq!(b.next_line(), None);
    b.push_text("bc \n  data: [DONE]\r\nrest");
    assert_eq!(b.next_line(), Some(s("data: abc")));
    assert_eq!(b.next_line(), Some(s("data: [DONE]")));
    assert_eq!(b.next_line(), None);
    b.push_text("\n\n");
    assert_eq!(b.next_line(), Some(s("rest")));
    assert_eq!(b.next_line(), Some(s("")));
    assert_eq!(b.next_line(), None);
}

#[test]
fn sse_lines() {
    assert!(matches!(classify_sse_line("data: [DONE]"), SseLine::Done));
    match classify_sse_line("data: {\"x\":1}") {
        SseLine::Data(d) => assert_eq!(d, "{\"x\":1}"),
        _ => panic!("expected data"),
    }
    assert!(matches!(classify_sse_line(": keep-alive"), SseLine::Other));
    assert!(matches!(classify_sse_line("data:[DONE]"), SseLine::Other));
    assert!(matches!(classify_sse_line(""), SseLine::Other));
}

fn choice(content: Option<&str>, calls: Option<Vec<OpenAiToolCall>>, finish: Option<&str>) -> OpenAiChunk {
    OpenAiChunk {
        choices: vec![OpenAiChoice {
            delta: OpenAiDelta { content: content.map(s), tool_calls: calls },
            finish_reason: finish.map(s),
        }],
    }
}

#[test]
fn openai_chunks() {
    let (out, end) = openai_chunk_events(&choice(Some("你好"), None, None));
    assert_eq!(texts(&out), vec![(s("你好"), false)]);
    assert!(!end);
    let (out, end) = openai_chunk_events(&choice(Some(""), None, Some("stop")));
    assert_eq!(texts(&out), vec![(s(""), true)]);
    assert!(end);
    let (out, end) = openai_chunk_events(&OpenAiChunk { choices: vec![] });
    assert!(out.is_empty() && !end);
    let calls = vec![
        OpenAiToolCall {
            id: Some(s("c1")),
            function: Some(OpenAiFunction { name: Some(s("get_time")), arguments: Some(s("{\"tz\":\"UTC\"}")) }),
        },
        OpenAiToolCall { id: None, function: Some(OpenAiFunction { name: None, arguments: None }) },
        OpenAiToolCall { id: None, function: Some(OpenAiFunction { name: Some(s("f")), arguments: None }) },
    ];
    let (out, end) = openai_chunk_events(&choice(Some("x"), Some(calls), Some("tool_calls")));
    assert!(end);
    assert_eq!(out.len(), 3);
    let tc = out[0].tool_calls.as_ref().unwrap();
    assert_eq!(tc.len(), 2);
    assert_eq!(tc[0].id, "c1");
    assert_eq!(tc[0].name, "get_time");
    assert_eq!(tc[0].arguments, "{\"tz\":\"UTC\"}");
    assert_eq!(tc[1].id, "");
    assert_eq!(tc[1].arguments, "null");
    assert_eq!(out[1].content, "x");
    assert!(out[2].done);
}

#[test]
fn failure_pieces() {
    assert_eq!(
        texts(&cloud_request_failed("timeout")),
        vec![(s("(云服务商请求失败: timeout)"), false), (s(""), true)]
    );
    assert_eq!(texts(&ollama_unavailable()), vec![(s(""), true)]);
    assert_eq!(
        texts(&ollama_request_failed()),
        vec![(s("(Ollama 未启动，回退 mock)"), false), (s(""), true)]
    );
    let t = text_chunk(s("a"));
    assert!(!t.done && t.tool_calls.is_none());
    assert!(end_chunk().done);
}

fn ollama(content: Option<&str>, calls: Option<Vec<OllamaToolCall>>, done: Option<bool>) -> OllamaReply {
    OllamaReply { message: Some(OllamaMessage { content: content.map(s), tool_calls: calls }), done }
}

#[test]
fn ollama_lines() {
    let (out, done) = ollama_reply_events(&ollama(Some("hi"), None, Some(false)));
    assert_eq!(texts(&out), vec![(s("hi"), false)]);
    assert!(!done);
    let (out, done) = ollama_reply_events(&ollama(Some(""), None, Some(true)));
    assert!(out.is_empty());
    assert!(done);
    let (out, done) = ollama_reply_events(&OllamaReply { message: None, done: None });
    assert!(out.is_empty() && !done);
    let calls = vec![
        OllamaToolCall { function: Some(OllamaFunction { name: Some(s("a")), arguments: Some(s("{}")) }) },
        OllamaToolCall { function: Some(OllamaFunction { name: Some(s("b")), arguments: None }) },
        OllamaToolCall { function: None },
    ];
    let ids = vec![s("i1"), s("i2"), s("i3")];
    let (out, _) = ollama_reply_events_with_ids(&ollama(None, Some(calls), None), &ids);
    assert_eq!(out.len(), 1);
    let tc = out[0].tool_calls.as_ref().unwrap();
    assert_eq!(tc.len(), 1);
    assert_eq!(tc[0].id, "i1");
    assert_eq!(tc[0].name, "a");
    let calls = vec![OllamaToolCall { function: Some(OllamaFunction { name: Some(s("a")), arguments: Some(s("{}")) }) }];
    let (out, _) = ollama_reply_events(&ollama(Some("t"), Some(calls), Some(true)));
    let tc = out[0].tool_calls.as_ref().unwrap();
    assert_eq!(tc[0].id.len(), 39);
    assert!(tc[0].id.starts_with("tc_"));
    assert_eq!(out[1].content, "t");
}

#[test]
fn ollama_request_content() {
    let parts = vec![
        ContentPart::text("看"),
        ContentPart::image_bytes(b"abc".to_vec()),
        ContentPart::ImageUrl(s("data:image/png;base64,QUJD")),
        ContentPart::ImageUrl(s("http://x/y.png")),
        ContentPart::ImageUrl(s("data:nocomma")),
        ContentPart::text("这个"),
    ];
    assert_eq!(build_ollama_content(&parts), "看这个");
    assert_eq!(collect_images(&parts), vec![s("YWJj"), s("QUJD")]);
    assert!(collect_images(&vec![]).is_empty());
}
