use ai_companion::modelhub::{
    build_model_desc, download_route, mask_key, model_download_id, model_install_command,
    model_live_status, model_runtime_hint, model_source_label, ollama_tag, parse_i32,
    DownloadMonitor, DownloadOutcome, DownloadRoute,
};

fn s(x: &str) -> String {
    x.to_string()
}

#[test]
fn download_ids_and_commands() {
    assert_eq!(model_download_id("model_whisper_med"), "whisper-medium");
    assert_eq!(model_download_id("model_bge_m3"), "bge-m3");
    assert_eq!(model_download_id("plain_name"), "plain-name");
    assert_eq!(ollama_tag("ollama/qwen2.5:7b"), "qwen2.5:7b");
    assert_eq!(ollama_tag("ollama/ollama/x"), "x");
    assert_eq!(ollama_tag("local/x"), "local/x");
    assert_eq!(model_install_command("m", "ollama/llama3"), "ollama pull llama3");
    assert_eq!(
        model_install_command("model_piper_zh", "piper"),
        "python workers/download_models.py piper-zh"
    );
}

#[test]
fn labels_and_hints() {
    assert_eq!(model_source_label("llm", "ollama/x"), "Ollama");
    assert_eq!(model_source_label("tts", "cosyvoice"), "ModelScope / HuggingFace");
    assert_eq!(model_source_label("tts", "piper"), "HuggingFace");
    assert_eq!(model_source_label("asr", "whisper"), "HuggingFace");
    assert_eq!(model_source_label("llm", "gguf"), "Local");
    assert_eq!(model_runtime_hint("llm", "ollama/x"), "需要本机 Ollama 服务运行；下载后可直接在对话中启用。");
    assert_eq!(model_runtime_hint("tts", "piper"), "需要 piper-tts Python 包；CPU 即可实时合成。");
    assert_eq!(model_runtime_hint("vision", "x"), "下载后可在模型中心启用并测试。");
    assert_eq!(build_model_desc("Qwen", "llm", "gguf"), "Qwen（本地 GGUF）");
    assert_eq!(build_model_desc("Qwen", "llm", "ollama/qwen"), "ollama pull qwen");
    assert_eq!(build_model_desc("BGE", "embedding", "bge-m3"), "BGE（向量化）");
    assert_eq!(build_model_desc("X", "other", "p"), "X");
}

#[test]
fn masked_keys() {
    assert_eq!(mask_key(""), "");
    assert_eq!(mask_key("12345678"), "****");
    assert_eq!(mask_key("sk-abcdefgh1234"), "sk-a…1234");
}

#[test]
fn live_states() {
    let names = vec![s("qwen:latest"), s("llama3:8b")];
    assert_eq!(model_live_status("ollama/qwen", "not_downloaded", &names, false), "downloaded");
    assert_eq!(model_live_status("ollama/llama3:8b", "x", &names, false), "downloaded");
    assert_eq!(model_live_status("ollama/mistral", "downloaded", &names, true), "not_downloaded");
    assert_eq!(model_live_status("piper", "active", &names, false), "not_downloaded");
    assert_eq!(model_live_status("piper", "active", &names, true), "active");
    assert_eq!(model_live_status("piper", "downloading", &names, false), "downloading");
}

#[test]
fn download_routes() {
    assert!(matches!(download_route("ollama/qwen"), DownloadRoute::Ollama { tag } if tag == "qwen"));
    assert!(matches!(download_route("modelscope/x"), DownloadRoute::Script { backend: "modelscope" }));
    assert!(matches!(download_route("piper"), DownloadRoute::Script { backend: "auto" }));
}

#[test]
fn integers_as_from_str_reads_them() {
    assert_eq!(parse_i32("42"), Some(42));
    assert_eq!(parse_i32("+7"), Some(7));
    assert_eq!(parse_i32("-2147483648"), Some(i32::MIN));
    assert_eq!(parse_i32("2147483648"), None);
    assert_eq!(parse_i32(""), None);
    assert_eq!(parse_i32("4 2"), None);
    assert_eq!(parse_i32("-"), None);
}

#[test]
fn monitor_success_after_done() {
    let mut m = DownloadMonitor::new();
    let r = m.on_line("PROGRESS: 50");
    assert_eq!(r.progress, Some(50));
    assert!(!r.stop);
    let r = m.on_line("LOADCHECK:OK:loaded fine");
    assert_eq!(r.loadcheck, Some((true, s("loaded fine"))));
    assert!(m.loadcheck_ok);
    let r = m.on_line("DONE");
    assert_eq!(r.progress, Some(100));
    assert!(m.done_received);
    assert!(matches!(m.outcome(true, Some(0)), DownloadOutcome::Success));
    assert!(matches!(m.outcome(false, Some(1)), DownloadOutcome::Failed(_)));
}

#[test]
fn monitor_errors_and_cancellation() {
    let mut m = DownloadMonitor::new();
    let r = m.on_line("LOADCHECK:FAIL");
    assert_eq!(r.loadcheck, Some((false, s(""))));
    let r = m.on_line("ERROR:  disk full ");
    assert!(r.stop);
    assert_eq!(m.final_error, Some(s("disk full")));
    match m.outcome(true, Some(0)) {
        DownloadOutcome::Failed(e) => assert_eq!(e, "disk full"),
        _ => panic!("expected a failure"),
    }
    let mut c = DownloadMonitor::new();
    assert!(c.on_line("CANCELLED: by user").stop);
    assert!(matches!(c.outcome(true, Some(0)), DownloadOutcome::Cancelled));
    let quiet = DownloadMonitor::new();
    match quiet.outcome(true, None) {
        DownloadOutcome::Failed(e) => assert_eq!(e, "下载进程异常退出 (exit=-1, done=false, loadcheck=false)"),
        _ => panic!("expected a failure"),
    }
    assert!(m.on_line("PROGRESS: x").progress.is_none());
}
