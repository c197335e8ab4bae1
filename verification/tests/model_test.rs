use ai_companion::json::JsonValue;
use ai_companion::model_test::{
    asr_health_detail, asr_message, byte_prefix, embedding_outcome, final_event, ollama_outcome, step_event,
    test_route, tts_health_detail, tts_message, TestRoute,
};

fn s(x: &str) -> String {
    x.to_string()
}

fn keys(v: &JsonValue) -> Vec<String> {
    match v {
        JsonValue::Object(m) => m.iter().map(|(k, _)| k.clone()).collect(),
        _ => vec![],
    }
}

#[test]
fn routes() {
    assert!(matches!(test_route("llm", "ollama/qwen2.5"), TestRoute::OllamaLlm { tag } if tag == "qwen2.5"));
    assert!(matches!(test_route("llm", "gguf/x"), TestRoute::LocalLlm));
    assert!(matches!(test_route("asr", "funasr"), TestRoute::Asr));
    assert!(matches!(test_route("tts", "piper"), TestRoute::Tts));
    assert!(matches!(test_route("embedding", "bge-m3"), TestRoute::Embedding));
    assert!(matches!(test_route("vision", "x"), TestRoute::Unsupported));
}

#[test]
fn events() {
    let e = step_event("m1", "load_config", "active", Some("读取模型配置…"));
    assert_eq!(keys(&e), vec![s("modelId"), s("step"), s("status"), s("detail")]);
    assert_eq!(e.get("detail").unwrap().as_str(), Some("读取模型配置…"));
    assert_eq!(keys(&step_event("m1", "x", "done", None)), vec![s("modelId"), s("step"), s("status")]);
    let f = final_event("m1", true, Some(42), "ok");
    assert_eq!(keys(&f), vec![s("modelId"), s("done"), s("success"), s("latencyMs"), s("message")]);
    assert_eq!(f.get("latencyMs").unwrap().as_u64(), Some(42));
    assert_eq!(f.get("done").unwrap().as_bool(), Some(true));
    assert_eq!(keys(&final_event("m1", false, None, "no")), vec![s("modelId"), s("done"), s("success"), s("message")]);
}

#[test]
fn messages() {
    assert_eq!(ollama_outcome(true, 120), Ok(s("Ollama 就绪 (120ms)")));
    assert_eq!(ollama_outcome(false, 120), Err(s("Ollama 无响应")));
    assert_eq!(byte_prefix("你好世界", 6), "你好");
    assert_eq!(byte_prefix("abc", 10), "abc");
    assert_eq!(asr_health_detail(true, None), "ASR 模型加载成功");
    assert_eq!(asr_health_detail(false, None), "模型加载警告: 模型加载返回错误");
    let long = "e".repeat(100);
    assert_eq!(asr_health_detail(false, Some(&long)), format!("模型加载警告: {}", "e".repeat(80)));
    assert_eq!(asr_message(true, 12, "", None), "ASR 引擎就绪 (12ms，静音测试无文字输出)");
    assert_eq!(asr_message(true, 5, "你好", None), "ASR 引擎就绪 (5ms): \"你好\"");
    assert_eq!(asr_message(false, 0, "", Some("boom")), "ASR 推理异常: boom");
    assert_eq!(asr_message(false, 0, "", None), "ASR 推理异常: ");
    assert_eq!(tts_health_detail(true, &vec![s("piper"), s("cosyvoice")]), "可用后端: piper, cosyvoice");
    assert_eq!(tts_health_detail(true, &vec![]), "TTS 引擎就绪");
    assert_eq!(tts_health_detail(false, &vec![s("x")]), "TTS 引擎状态检查失败，尝试合成测试");
    assert_eq!(tts_message(true, 7, "piper", None), "TTS 引擎就绪 (7ms, 后端: piper)");
    assert_eq!(tts_message(false, 7, "unknown", None), "TTS 合成失败: 合成返回空数据");
    assert_eq!(tts_message(false, 7, "unknown", Some("bad voice")), "TTS 合成失败: bad voice");
    assert_eq!(embedding_outcome(None), Ok(s("Embedding 引擎通信正常")));
    assert_eq!(embedding_outcome(Some("down")), Err(s("Embedding 通信异常: down")));
}
