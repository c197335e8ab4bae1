use ai_companion::builtin::{
    clipboard_action, clipboard_failed, clipboard_read_answer, clipboard_written_answer, file_search_answer,
    ClipboardAction, ClipboardStep,
};
use ai_companion::json::{JsonNumber, JsonValue};

fn obj(members: Vec<(&str, JsonValue)>) -> JsonValue {
    JsonValue::Object(members.into_iter().map(|(k, v)| (k.to_string(), v)).collect())
}

fn st(x: &str) -> JsonValue {
    JsonValue::String(x.to_string())
}

fn text_of(v: &JsonValue, k: &str) -> String {
    v.get(k).and_then(|x| x.as_str()).unwrap_or("").to_string()
}

#[test]
fn file_search_matches_names_ignoring_case() {
    let entries = vec![
        ("/a/Report.TXT".to_string(), "Report.TXT".to_string()),
        ("/a/notes.md".to_string(), "notes.md".to_string()),
        ("/b/report-2.txt".to_string(), "report-2.txt".to_string()),
    ];
    let r = file_search_answer("report", &entries);
    let items = r.as_array().unwrap();
    assert_eq!(items.len(), 2);
    assert_eq!(items[0].as_str(), Some("/a/Report.TXT"));
    assert_eq!(items[1].as_str(), Some("/b/report-2.txt"));
}

#[test]
fn file_search_stops_at_ten_and_ignores_empty_query() {
    let entries: Vec<(String, String)> = (0..15).map(|i| (format!("/d/f{i}.rs"), format!("f{i}.rs"))).collect();
    assert_eq!(file_search_answer("f", &entries).as_array().unwrap().len(), 10);
    assert_eq!(file_search_answer("", &entries).as_array().unwrap().len(), 0);
}

#[test]
fn clipboard_requests_are_read() {
    assert!(matches!(clipboard_action(&obj(vec![])), ClipboardAction::Read));
    match clipboard_action(&obj(vec![("action", st("write")), ("text", st("hi"))])) {
        ClipboardAction::Write(t) => assert_eq!(t, "hi"),
        _ => panic!("expected a write"),
    }
    match clipboard_action(&obj(vec![("action", st("write"))])) {
        ClipboardAction::Refused(v) => {
            assert_eq!(text_of(&v, "status"), "error");
            assert_eq!(text_of(&v, "message"), "要写入的文本为空");
        }
        _ => panic!("expected a refusal"),
    }
}

#[test]
fn clipboard_answers() {
    let short = clipboard_read_answer("你好");
    assert_eq!(text_of(&short, "display"), "你好");
    assert!(matches!(short.get("length"), Some(JsonValue::Number(JsonNumber::PosInt(6)))));
    let long = "a".repeat(600);
    let r = clipboard_read_answer(&long);
    assert_eq!(text_of(&r, "display"), format!("{}...(共600字符)", "a".repeat(500)));
    let w = clipboard_written_answer("abc");
    assert_eq!(text_of(&w, "message"), "已将 3 个字符写入剪贴板");
    let f = clipboard_failed(ClipboardStep::Write, "busy");
    assert_eq!(text_of(&f, "message"), "写入剪贴板失败: busy");
}
