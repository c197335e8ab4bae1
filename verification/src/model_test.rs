//! The self-test of a model: which test a model gets, the progress events
//! shown while it runs, and the messages that report its outcome.

use vstd::prelude::*;
use vstd::string::StringSliceAdditionalSpecFns;
use vstd::utf8::{decode_utf8, is_char_boundary};
use crate::json::{JsonValue, JsonModel, json_model, json_str, json_nat, json_object, new_members, push_member, members_model};
use crate::modelhub::{ollama_tag, strip_all_prefix};
use crate::text::{spec_decimal, decimal_string, spec_starts_with, starts_with, str_eq, spec_join, strs_view, join_strs};

verus! {

/// The test a model gets.
pub enum TestRoute {
    /// A model served by Ollama under this tag: ask it for a completion.
    OllamaLlm { tag: String },
    /// A local language model: not tested.
    LocalLlm,
    /// A speech recogniser: ping, health check, transcription.
    Asr,
    /// A speech synthesiser: ping, health check, synthesis.
    Tts,
    /// An embedding model: ping.
    Embedding,
    /// Any other kind: not supported.
    Unsupported,
}

/// The test a model of type `model_type` with provider `provider_id` gets.
pub fn test_route(model_type: &str, provider_id: &str) -> (r: TestRoute)
    ensures
        model_type@ == "llm"@ && spec_starts_with(provider_id@, "ollama/"@) ==> (r matches TestRoute::OllamaLlm { tag }
            && tag@ == strip_all_prefix(provider_id@, "ollama/"@)),
        model_type@ == "llm"@ && !spec_starts_with(provider_id@, "ollama/"@) ==> r is LocalLlm,
        model_type@ != "llm"@ && model_type@ == "asr"@ ==> r is Asr,
        model_type@ != "llm"@ && model_type@ != "asr"@ && model_type@ == "tts"@ ==> r is Tts,
        model_type@ != "llm"@ && model_type@ != "asr"@ && model_type@ != "tts"@ && model_type@ == "embedding"@
            ==> r is Embedding,
        !(model_type@ == "llm"@ || model_type@ == "asr"@ || model_type@ == "tts"@ || model_type@ == "embedding"@)
            ==> r is Unsupported,
{
    if str_eq(model_type, "llm") {
        if starts_with(provider_id, "ollama/") {
            TestRoute::OllamaLlm { tag: ollama_tag(provider_id) }
        } else {
            TestRoute::LocalLlm
        }
    } else if str_eq(model_type, "asr") {
        TestRoute::Asr
    } else if str_eq(model_type, "tts") {
        TestRoute::Tts
    } else if str_eq(model_type, "embedding") {
        TestRoute::Embedding
    } else {
        TestRoute::Unsupported
    }
}

/// A progress event of a test step.
pub open spec fn step_event_model(model_id: Seq<char>, step: Seq<char>, status: Seq<char>, detail: Option<Seq<char>>) -> JsonModel {
    JsonModel::Object(
        seq![
            ("modelId"@, JsonModel::Str(model_id)),
            ("step"@, JsonModel::Str(step)),
            ("status"@, JsonModel::Str(status)),
        ] + match detail {
            Some(d) => seq![("detail"@, JsonModel::Str(d))],
            None => Seq::empty(),
        },
    )
}

/// The progress event of a test step: the model, the step, its status and,
/// when given, a detail.
pub fn step_event(model_id: &str, step: &str, status: &str, detail: Option<&str>) -> (r: JsonValue)
    ensures
        json_model(r) == step_event_model(model_id@, step@, status@, match detail {
            Some(d) => Some(d@),
            None => None,
        }),
{
    let mut m = new_members();
    push_member(&mut m, "modelId", json_str(model_id));
    push_member(&mut m, "step", json_str(step));
    push_member(&mut m, "status", json_str(status));
    match detail {
        Some(d) => {
            push_member(&mut m, "detail", json_str(d));
        },
        None => {},
    }
    let ghost expected = step_event_model(model_id@, step@, status@, match detail {
        Some(d) => Some(d@),
        None => None,
    });
    assert(members_model(m@) =~= expected->Object_0);
    json_object(m)
}

/// The event that ends a test: its outcome, the latency when measured, and
/// the message.
pub open spec fn final_event_model(model_id: Seq<char>, success: bool, latency_ms: Option<u64>, message: Seq<char>) -> JsonModel {
    JsonModel::Object(
        seq![
            ("modelId"@, JsonModel::Str(model_id)),
            ("done"@, JsonModel::Bool(true)),
            ("success"@, JsonModel::Bool(success)),
        ] + match latency_ms {
            Some(l) => seq![("latencyMs"@, crate::json::int_model(l as int))],
            None => Seq::empty(),
        } + seq![("message"@, JsonModel::Str(message))],
    )
}

/// The event that ends a test.
pub fn final_event(model_id: &str, success: bool, latency_ms: Option<u64>, message: &str) -> (r: JsonValue)
    ensures
        json_model(r) == final_event_model(model_id@, success, latency_ms, message@),
{
    let mut m = new_members();
    push_member(&mut m, "modelId", json_str(model_id));
    push_member(&mut m, "done", JsonValue::Bool(true));
    push_member(&mut m, "success", JsonValue::Bool(success));
    match latency_ms {
        Some(l) => {
            push_member(&mut m, "latencyMs", json_nat(l));
        },
        None => {},
    }
    push_member(&mut m, "message", json_str(message));
    assert(members_model(m@) =~= final_event_model(model_id@, success, latency_ms, message@)->Object_0);
    json_object(m)
}

/// How long a reply took, as the messages show it: `N ms` without a space.
pub open spec fn ms(latency_ms: u64) -> Seq<char> {
    spec_decimal(latency_ms as nat) + "ms"@
}

/// What an Ollama model's test reports: ready after the measured latency,
/// or not answering.
pub open spec fn spec_ollama_outcome(success: bool, latency_ms: u64) -> Result<Seq<char>, Seq<char>> {
    if success {
        Ok("Ollama 就绪 ("@ + ms(latency_ms) + ")"@)
    } else {
        Err("Ollama 无响应"@)
    }
}

/// What an Ollama model's test reports.
pub fn ollama_outcome(success: bool, latency_ms: u64) -> (r: Result<String, String>)
    ensures
        match r {
            Ok(m) => spec_ollama_outcome(success, latency_ms) == Ok::<Seq<char>, Seq<char>>(m@),
            Err(e) => spec_ollama_outcome(success, latency_ms) == Err::<Seq<char>, Seq<char>>(e@),
        },
{
    if success {
        let mut s = String::from_str("Ollama 就绪 (");
        s.append(decimal_string(latency_ms).as_str());
        s.append("ms");
        s.append(")");
        assert(s@ =~= "Ollama 就绪 ("@ + ms(latency_ms) + ")"@);
        Ok(s)
    } else {
        Err(String::from_str("Ollama 无响应"))
    }
}

/// The first `n` bytes of a text, or all of it when it is shorter.
pub open spec fn byte_head(b: Seq<u8>, n: nat) -> Seq<u8> {
    if b.len() <= n {
        b
    } else {
        b.take(n as int)
    }
}

/// Whether cutting a text after `n` bytes keeps its characters whole.
pub open spec fn cuts_cleanly(s: &str, n: nat) -> bool {
    s.spec_bytes().len() <= n || is_char_boundary(s.spec_bytes(), n as int)
}

/// The text of the first `n` bytes of a text, or all of it when it is
/// shorter.
pub open spec fn text_head(s: &str, n: nat) -> Seq<char> {
    decode_utf8(byte_head(s.spec_bytes(), n))
}

/// The first `n` bytes of a text, which must end on a character boundary.
pub fn byte_prefix(s: &str, n: usize) -> (r: String)
    requires
        cuts_cleanly(s, n as nat),
    ensures
        r@ == text_head(s, n as nat),
{
    proof {
        vstd::utf8::encode_utf8_decode_utf8(s@);
    }
    if s.as_bytes().len() <= n {
        return s.to_owned();
    }
    let (head, _) = s.split_at(n);
    proof {
        vstd::utf8::encode_utf8_decode_utf8(head@);
        assert(head.spec_bytes() =~= byte_head(s.spec_bytes(), n as nat));
    }
    head.to_owned()
}

/// The detail of a speech recogniser's health check: loaded, or a warning
/// with (at most 80 bytes of) the error of the call, or a generic error
/// when the worker answered with one.
pub open spec fn spec_asr_health_detail(health_ok: bool, call_error: Option<&str>) -> Seq<char> {
    if health_ok {
        "ASR 模型加载成功"@
    } else {
        "模型加载警告: "@ + match call_error {
            Some(e) => text_head(e, 80),
            None => "模型加载返回错误"@,
        }
    }
}

/// The detail of a speech recogniser's health check.
pub fn asr_health_detail(health_ok: bool, call_error: Option<&str>) -> (r: String)
    requires
        call_error matches Some(e) ==> cuts_cleanly(e, 80),
    ensures
        r@ == spec_asr_health_detail(health_ok, call_error),
{
    if health_ok {
        return String::from_str("ASR 模型加载成功");
    }
    let mut s = String::from_str("模型加载警告: ");
    match call_error {
        Some(e) => {
            let head = byte_prefix(e, 80);
            s.append(head.as_str());
        },
        None => {
            s.append("模型加载返回错误");
        },
    }
    s
}

/// The message of a speech recogniser's test: ready, with (at most 50 bytes
/// of) the text it heard or a note that the silent test tone gave none; or
/// the error of the call (none when the worker answered with an error).
pub open spec fn spec_asr_message(ok: bool, latency_ms: u64, text: &str, call_error: Option<&str>) -> Seq<char> {
    if ok {
        if text@.len() == 0 {
            "ASR 引擎就绪 ("@ + ms(latency_ms) + "，静音测试无文字输出)"@
        } else {
            "ASR 引擎就绪 ("@ + ms(latency_ms) + "): \""@ + text_head(text, 50) + "\""@
        }
    } else {
        "ASR 推理异常: "@ + match call_error {
            Some(e) => e@,
            None => Seq::empty(),
        }
    }
}

/// The message of a speech recogniser's test.
pub fn asr_message(ok: bool, latency_ms: u64, text: &str, call_error: Option<&str>) -> (r: String)
    requires
        ok ==> cuts_cleanly(text, 50),
    ensures
        r@ == spec_asr_message(ok, latency_ms, text, call_error),
{
    if ok {
        let mut s = String::from_str("ASR 引擎就绪 (");
        s.append(decimal_string(latency_ms).as_str());
        s.append("ms");
        if text.is_empty() {
            s.append("，静音测试无文字输出)");
        } else {
            s.append("): \"");
            s.append(byte_prefix(text, 50).as_str());
            s.append("\"");
        }
        s
    } else {
        let mut s = String::from_str("ASR 推理异常: ");
        match call_error {
            Some(e) => s.append(e),
            None => {},
        }
        s
    }
}

/// The detail of a speech synthesiser's health check: the back ends it
/// lists, or that it is ready when it lists none; a note that the check
/// failed and synthesis is tried anyway.
pub open spec fn spec_tts_health_detail(health_ok: bool, backends: Seq<Seq<char>>) -> Seq<char> {
    if health_ok {
        if spec_join(backends, ", "@).len() == 0 {
            "TTS 引擎就绪"@
        } else {
            "可用后端: "@ + spec_join(backends, ", "@)
        }
    } else {
        "TTS 引擎状态检查失败，尝试合成测试"@
    }
}

/// The detail of a speech synthesiser's health check; `backends` are the
/// names it lists.
pub fn tts_health_detail(health_ok: bool, backends: &Vec<String>) -> (r: String)
    ensures
        r@ == spec_tts_health_detail(health_ok, strs_view(backends@)),
{
    if !health_ok {
        return String::from_str("TTS 引擎状态检查失败，尝试合成测试");
    }
    let joined = join_strs(backends, ", ");
    if joined.as_str().is_empty() {
        String::from_str("TTS 引擎就绪")
    } else {
        let mut s = String::from_str("可用后端: ");
        s.append(joined.as_str());
        s
    }
}

/// The message of a speech synthesiser's test: ready with the back end
/// used; or a failure with (at most 120 bytes of) the error: that of the
/// call, else the worker's, else that no audio came back.
pub open spec fn spec_tts_message(ok: bool, latency_ms: u64, backend: Seq<char>, err: Option<&str>) -> Seq<char> {
    if ok {
        "TTS 引擎就绪 ("@ + ms(latency_ms) + ", 后端: "@ + backend + ")"@
    } else {
        "TTS 合成失败: "@ + match err {
            Some(e) => text_head(e, 120),
            None => "合成返回空数据"@,
        }
    }
}

/// The message of a speech synthesiser's test; `err` is the error of the
/// call or, failing that, the worker's.
pub fn tts_message(ok: bool, latency_ms: u64, backend: &str, err: Option<&str>) -> (r: String)
    requires
        !ok && err is Some ==> cuts_cleanly(err.unwrap(), 120),
    ensures
        r@ == spec_tts_message(ok, latency_ms, backend@, err),
{
    if ok {
        let mut s = String::from_str("TTS 引擎就绪 (");
        s.append(decimal_string(latency_ms).as_str());
        s.append("ms");
        s.append(", 后端: ");
        s.append(backend);
        s.append(")");
        s
    } else {
        let mut s = String::from_str("TTS 合成失败: ");
        match err {
            Some(e) => s.append(byte_prefix(e, 120).as_str()),
            None => s.append("合成返回空数据"),
        }
        s
    }
}

/// What an embedding model's test reports: the worker answers, or the
/// error of the call.
pub fn embedding_outcome(call_error: Option<&str>) -> (r: Result<String, String>)
    ensures
        match call_error {
            None => r matches Ok(m) && m@ == "Embedding 引擎通信正常"@,
            Some(e) => r matches Err(m) && m@ == "Embedding 通信异常: "@ + e@,
        },
{
    match call_error {
        None => Ok(String::from_str("Embedding 引擎通信正常")),
        Some(e) => {
            let mut s = String::from_str("Embedding 通信异常: ");
            s.append(e);
            Err(s)
        },
    }
}

} // verus!
