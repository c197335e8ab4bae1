//! The model centre: how a model is named for download, where it comes
//! from, what it needs at run time and how it is described, and how API
//! keys are shown without revealing them.

use vstd::prelude::*;
use vstd::string::StringExecFns;
use crate::chat::opt_str;
use crate::text::{
    chars_of, copy_range, string_from_chars, spec_starts_with, starts_with, spec_strip_prefix,
    strip_prefix, str_eq, strs_view, spec_trim, trim_chars,
};

verus! {

/// `s` with every `a` replaced by `b`.
pub open spec fn replace_char(s: Seq<char>, a: char, b: char) -> Seq<char> {
    s.map_values(|c: char| if c == a { b } else { c })
}

/// The name a model is downloaded under: the id without a leading
/// "model_", underscores turned into hyphens, and "whisper-med" spelled out
/// as "whisper-medium".
pub open spec fn spec_model_download_id(model_id: Seq<char>) -> Seq<char> {
    let n = replace_char(spec_strip_prefix(model_id, "model_"@), '_', '-');
    if n == "whisper-med"@ {
        "whisper-medium"@
    } else {
        n
    }
}

fn replace_underscores(s: &str) -> (r: String)
    ensures
        r@ == replace_char(s@, '_', '-'),
{
    let a = chars_of(s);
    let mut out: Vec<char> = Vec::new();
    let mut k: usize = 0;
    while k < a.len()
        invariant
            k <= a.len(),
            a@ == s@,
            out@ == replace_char(s@, '_', '-').take(k as int),
        decreases a.len() - k,
    {
        let c = if a[k] == '_' { '-' } else { a[k] };
        out.push(c);
        k += 1;
        assert(out@ =~= replace_char(s@, '_', '-').take(k as int));
    }
    assert(replace_char(s@, '_', '-').take(k as int) =~= replace_char(s@, '_', '-'));
    string_from_chars(&out)
}

/// The name a model is downloaded under.
pub fn model_download_id(model_id: &str) -> (r: String)
    ensures
        r@ == spec_model_download_id(model_id@),
{
    let stripped = strip_prefix(model_id, "model_");
    let normalized = replace_underscores(stripped.as_str());
    if str_eq(normalized.as_str(), "whisper-med") {
        String::from_str("whisper-medium")
    } else {
        normalized
    }
}

/// Where a model comes from.
pub open spec fn spec_model_source_label(model_type: Seq<char>, provider_id: Seq<char>) -> Seq<char> {
    if spec_starts_with(provider_id, "ollama/"@) {
        "Ollama"@
    } else if provider_id == "cosyvoice"@ || provider_id == "funasr"@ || provider_id == "bge-m3"@
        || provider_id == "bge-small"@ || provider_id == "chattts"@ {
        "ModelScope / HuggingFace"@
    } else if provider_id == "piper"@ {
        "HuggingFace"@
    } else if model_type == "embedding"@ || model_type == "asr"@ || model_type == "tts"@ {
        "HuggingFace"@
    } else {
        "Local"@
    }
}

/// Where a model comes from.
pub fn model_source_label(model_type: &str, provider_id: &str) -> (r: &'static str)
    ensures
        r@ == spec_model_source_label(model_type@, provider_id@),
{
    if starts_with(provider_id, "ollama/") {
        "Ollama"
    } else if str_eq(provider_id, "cosyvoice") || str_eq(provider_id, "funasr") || str_eq(provider_id, "bge-m3")
        || str_eq(provider_id, "bge-small") || str_eq(provider_id, "chattts") {
        "ModelScope / HuggingFace"
    } else if str_eq(provider_id, "piper") {
        "HuggingFace"
    } else if str_eq(model_type, "embedding") || str_eq(model_type, "asr") || str_eq(model_type, "tts") {
        "HuggingFace"
    } else {
        "Local"
    }
}

/// What a model needs to run.
pub open spec fn spec_model_runtime_hint(model_type: Seq<char>, provider_id: Seq<char>) -> Seq<char> {
    if spec_starts_with(provider_id, "ollama/"@) {
        "需要本机 Ollama 服务运行；下载后可直接在对话中启用。"@
    } else if model_type == "asr"@ {
        "需要 Python Worker 与 faster-whisper / funasr 依赖；下载后用“功能测试”验证转写链路。"@
    } else if model_type == "tts"@ {
        if provider_id == "cosyvoice"@ {
            "需要 CosyVoice Python 包与 PyTorch；下载后角色音色可使用 cosyvoice。"@
        } else if provider_id == "chattts"@ {
            "需要 ChatTTS 运行依赖；适合对话韵律，但当前 Worker 优先支持 CosyVoice / Piper / pyttsx3。"@
        } else if provider_id == "piper"@ {
            "需要 piper-tts Python 包；CPU 即可实时合成。"@
        } else {
            "需要 TTS Worker 依赖；下载后用“功能测试”试听合成结果。"@
        }
    } else if model_type == "embedding"@ {
        "需要 sentence-transformers；下载后知识库 RAG 与长期记忆会使用向量检索。"@
    } else {
        "下载后可在模型中心启用并测试。"@
    }
}

/// What a model needs to run.
pub fn model_runtime_hint(model_type: &str, provider_id: &str) -> (r: &'static str)
    ensures
        r@ == spec_model_runtime_hint(model_type@, provider_id@),
{
    if starts_with(provider_id, "ollama/") {
        "需要本机 Ollama 服务运行；下载后可直接在对话中启用。"
    } else if str_eq(model_type, "asr") {
        "需要 Python Worker 与 faster-whisper / funasr 依赖；下载后用“功能测试”验证转写链路。"
    } else if str_eq(model_type, "tts") {
        if str_eq(provider_id, "cosyvoice") {
            "需要 CosyVoice Python 包与 PyTorch；下载后角色音色可使用 cosyvoice。"
        } else if str_eq(provider_id, "chattts") {
            "需要 ChatTTS 运行依赖；适合对话韵律，但当前 Worker 优先支持 CosyVoice / Piper / pyttsx3。"
        } else if str_eq(provider_id, "piper") {
            "需要 piper-tts Python 包；CPU 即可实时合成。"
        } else {
            "需要 TTS Worker 依赖；下载后用“功能测试”试听合成结果。"
        }
    } else if str_eq(model_type, "embedding") {
        "需要 sentence-transformers；下载后知识库 RAG 与长期记忆会使用向量检索。"
    } else {
        "下载后可在模型中心启用并测试。"
    }
}

/// `s` with every leading copy of `p` removed (`p` not empty).
pub open spec fn strip_all_prefix(s: Seq<char>, p: Seq<char>) -> Seq<char>
    decreases s.len(),
{
    if p.len() > 0 && spec_starts_with(s, p) {
        strip_all_prefix(s.subrange(p.len() as int, s.len() as int), p)
    } else {
        s
    }
}

/// The Ollama tag of a provider id: the id without its leading "ollama/"
/// parts.
pub fn ollama_tag(provider_id: &str) -> (r: String)
    ensures
        r@ == strip_all_prefix(provider_id@, "ollama/"@),
{
    proof {
        reveal_strlit("ollama/");
    }
    let a = chars_of(provider_id);
    let p = chars_of("ollama/");
    let mut k: usize = 0;
    assert(a@.skip(0) =~= a@);
    assert("ollama/"@ =~= seq!['o', 'l', 'l', 'a', 'm', 'a', '/']);
    while a.len() >= 7 && k <= a.len() - 7 && a[k] == 'o' && a[k + 1] == 'l' && a[k + 2] == 'l' && a[k + 3] == 'a'
        && a[k + 4] == 'm' && a[k + 5] == 'a' && a[k + 6] == '/'
        invariant
            k <= a.len(),
            a@ == provider_id@,
            p@ == "ollama/"@,
            "ollama/"@ == seq!['o', 'l', 'l', 'a', 'm', 'a', '/'],
            strip_all_prefix(provider_id@, "ollama/"@) == strip_all_prefix(a@.skip(k as int), "ollama/"@),
        decreases a.len() - k,
    {
        assert(a@.skip(k as int).subrange(0, 7) =~= "ollama/"@);
        assert(a@.skip(k as int).subrange(7, a@.skip(k as int).len() as int) =~= a@.skip(k + 7));
        k += 7;
    }
    proof {
        let rest = a@.skip(k as int);
        if spec_starts_with(rest, "ollama/"@) {
            assert(rest.subrange(0, 7)[0] == a@[k as int]);
            assert(rest.subrange(0, 7)[6] == a@[k + 6]);
            assert(rest.subrange(0, 7)[1] == a@[k + 1]);
            assert(rest.subrange(0, 7)[2] == a@[k + 2]);
            assert(rest.subrange(0, 7)[3] == a@[k + 3]);
            assert(rest.subrange(0, 7)[4] == a@[k + 4]);
            assert(rest.subrange(0, 7)[5] == a@[k + 5]);
        }
        assert(rest =~= a@.subrange(k as int, a@.len() as int));
    }
    let v = copy_range(&a, k, a.len());
    string_from_chars(&v)
}

/// The command that downloads a model.
pub open spec fn spec_model_install_command(model_id: Seq<char>, provider_id: Seq<char>) -> Seq<char> {
    if spec_starts_with(provider_id, "ollama/"@) {
        "ollama pull "@ + strip_all_prefix(provider_id, "ollama/"@)
    } else {
        "python workers/download_models.py "@ + spec_model_download_id(model_id)
    }
}

/// The command that downloads a model.
pub fn model_install_command(model_id: &str, provider_id: &str) -> (r: String)
    ensures
        r@ == spec_model_install_command(model_id@, provider_id@),
{
    if starts_with(provider_id, "ollama/") {
        let mut r = String::from_str("ollama pull ");
        r.append(ollama_tag(provider_id).as_str());
        r
    } else {
        let mut r = String::from_str("python workers/download_models.py ");
        r.append(model_download_id(model_id).as_str());
        r
    }
}

/// A short description of a model.
pub open spec fn spec_build_model_desc(name: Seq<char>, model_type: Seq<char>, provider_id: Seq<char>) -> Seq<char> {
    if spec_starts_with(provider_id, "ollama/"@) {
        "ollama pull "@ + strip_all_prefix(provider_id, "ollama/"@)
    } else if model_type == "llm"@ {
        name + "（本地 GGUF）"@
    } else if model_type == "asr"@ {
        name + "（语音识别）"@
    } else if model_type == "tts"@ {
        name + "（语音合成）"@
    } else if model_type == "embedding"@ {
        name + "（向量化）"@
    } else {
        name
    }
}

/// A short description of a model.
pub fn build_model_desc(name: &str, model_type: &str, provider_id: &str) -> (r: String)
    ensures
        r@ == spec_build_model_desc(name@, model_type@, provider_id@),
{
    if starts_with(provider_id, "ollama/") {
        let mut r = String::from_str("ollama pull ");
        r.append(ollama_tag(provider_id).as_str());
        r
    } else {
        let mut r = String::from_str(name);
        if str_eq(model_type, "llm") {
            r.append("（本地 GGUF）");
        } else if str_eq(model_type, "asr") {
            r.append("（语音识别）");
        } else if str_eq(model_type, "tts") {
            r.append("（语音合成）");
        } else if str_eq(model_type, "embedding") {
            r.append("（向量化）");
        } else {
            proof {
                reveal_strlit("");
            }
        }
        assert(r@ =~= spec_build_model_desc(name@, model_type@, provider_id@));
        r
    }
}

/// An API key as it is shown: nothing for an empty key, four stars for a
/// key of at most eight characters, else its first four and last four
/// characters around an ellipsis.
pub open spec fn spec_mask_key(key: Seq<char>) -> Seq<char> {
    if key.len() == 0 {
        Seq::empty()
    } else if key.len() <= 8 {
        "****"@
    } else {
        key.subrange(0, 4) + "…"@ + key.subrange(key.len() - 4, key.len() as int)
    }
}

/// Shows an API key without revealing it.
pub fn mask_key(key: &str) -> (r: String)
    ensures
        r@ == spec_mask_key(key@),
{
    let c = chars_of(key);
    let len = c.len();
    if len == 0 {
        return String::new();
    }
    if len <= 8 {
        return String::from_str("****");
    }
    let head = copy_range(&c, 0, 4);
    let tail = copy_range(&c, len - 4, len);
    let mut r = string_from_chars(&head);
    r.append("…");
    r.append(string_from_chars(&tail).as_str());
    r
}

// ---------------------------------------------------------------------------
// Model states and downloads

/// Whether `names` holds `n`.
pub open spec fn has_name(names: Seq<Seq<char>>, n: Seq<char>) -> bool {
    exists|i: int| 0 <= i < names.len() && names[i] == n
}

fn holds_name(names: &Vec<String>, n: &str) -> (r: bool)
    ensures
        r == has_name(strs_view(names@), n@),
{
    let mut k: usize = 0;
    while k < names.len()
        invariant
            k <= names@.len(),
            forall|i: int| 0 <= i < k ==> strs_view(names@)[i] != n@,
        decreases names.len() - k,
    {
        if str_eq(names[k].as_str(), n) {
            assert(strs_view(names@)[k as int] == n@);
            return true;
        }
        k += 1;
    }
    false
}

/// The state a model is shown in: an Ollama model is downloaded when
/// Ollama lists its tag (or the tag with `:latest`); a model recorded as
/// downloaded or active whose files are missing is not downloaded; any
/// other keeps its recorded state.
pub open spec fn spec_live_status(
    provider_id: Seq<char>,
    recorded: Seq<char>,
    ollama_names: Seq<Seq<char>>,
    files_present: bool,
) -> Seq<char> {
    if spec_starts_with(provider_id, "ollama/"@) {
        let tag = strip_all_prefix(provider_id, "ollama/"@);
        if has_name(ollama_names, tag) || has_name(ollama_names, tag + ":latest"@) {
            "downloaded"@
        } else {
            "not_downloaded"@
        }
    } else if (recorded == "downloaded"@ || recorded == "active"@) && !files_present {
        "not_downloaded"@
    } else {
        recorded
    }
}

/// The state a model is shown in, given the models Ollama lists and
/// whether the model's directory exists and is not empty.
pub fn model_live_status(provider_id: &str, recorded: &str, ollama_names: &Vec<String>, files_present: bool) -> (r: String)
    ensures
        r@ == spec_live_status(provider_id@, recorded@, strs_view(ollama_names@), files_present),
{
    if starts_with(provider_id, "ollama/") {
        let tag = ollama_tag(provider_id);
        let mut latest = tag.clone();
        latest.append(":latest");
        if holds_name(ollama_names, tag.as_str()) || holds_name(ollama_names, latest.as_str()) {
            String::from_str("downloaded")
        } else {
            String::from_str("not_downloaded")
        }
    } else if (str_eq(recorded, "downloaded") || str_eq(recorded, "active")) && !files_present {
        String::from_str("not_downloaded")
    } else {
        String::from_str(recorded)
    }
}

/// How a model is downloaded: pulled by Ollama under its tag, or fetched
/// by the download script from ModelScope or from any source.
pub enum DownloadRoute {
    Ollama { tag: String },
    Script { backend: &'static str },
}

/// How the model with provider id `provider_id` is downloaded.
pub fn download_route(provider_id: &str) -> (r: DownloadRoute)
    ensures
        spec_starts_with(provider_id@, "ollama/"@) ==> (r matches DownloadRoute::Ollama { tag } && tag@ == strip_all_prefix(provider_id@, "ollama/"@)),
        !spec_starts_with(provider_id@, "ollama/"@) ==> (r matches DownloadRoute::Script { backend } && backend@ == if spec_starts_with(provider_id@, "modelscope/"@) {
            "modelscope"@
        } else {
            "auto"@
        }),
{
    if starts_with(provider_id, "ollama/") {
        DownloadRoute::Ollama { tag: ollama_tag(provider_id) }
    } else if starts_with(provider_id, "modelscope/") {
        DownloadRoute::Script { backend: "modelscope" }
    } else {
        DownloadRoute::Script { backend: "auto" }
    }
}

/// What the download script has reported so far.
pub struct DownloadMonitor {
    pub loadcheck_ok: bool,
    pub done_received: bool,
    pub final_error: Option<String>,
    pub cancelled: bool,
}

/// What one line of the download script's output calls for.
pub struct LineReport {
    /// Show this progress, in percent.
    pub progress: Option<i32>,
    /// Record the result of the load check: whether it passed, and its
    /// detail.
    pub loadcheck: Option<(bool, String)>,
    /// Stop reading: the script failed or was cancelled.
    pub stop: bool,
}

/// The part of `s` before the first `c`, and after it if there is one.
pub open spec fn split_once_at(s: Seq<char>, c: char) -> (Seq<char>, Option<Seq<char>>) {
    match crate::stream::first_index(s, c) {
        Some(i) => (s.take(i), Some(s.skip(i + 1))),
        None => (s, None),
    }
}

/// What `i32::from_str` reads: an optional sign, then ASCII digits,
/// within range.
pub open spec fn spec_parse_i32(s: Seq<char>) -> Option<i32> {
    match crate::builtin::spec_parse_i64(s) {
        Some(v) => if i32::MIN <= v <= i32::MAX {
            Some(v as i32)
        } else {
            None
        },
        None => None,
    }
}

/// Reads an `i32` as `i32::from_str` does.
pub fn parse_i32(s: &str) -> (r: Option<i32>)
    ensures
        r == spec_parse_i32(s@),
{
    match crate::builtin::parse_i64(s) {
        Some(v) => {
            if i32::MIN as i64 <= v && v <= i32::MAX as i64 {
                Some(v as i32)
            } else {
                None
            }
        },
        None => None,
    }
}

/// What a line of the download script's output says: `PROGRESS:` with a
/// percentage, `DONE` (100 percent), `LOADCHECK:` with a state (`OK` or
/// another) and a detail, `ERROR:` with a message, or `CANCELLED:`.
pub open spec fn spec_line_report(line: Seq<char>) -> (Option<i32>, Option<(bool, Seq<char>)>, bool) {
    let progress = if spec_starts_with(line, "PROGRESS:"@) {
        spec_parse_i32(spec_trim(spec_strip_prefix(line, "PROGRESS:"@)))
    } else if line == "DONE"@ {
        Some(100i32)
    } else {
        None
    };
    let loadcheck = if spec_starts_with(line, "LOADCHECK:"@) {
        let parts = split_once_at(spec_strip_prefix(line, "LOADCHECK:"@), ':');
        Some((parts.0 == "OK"@, match parts.1 {
            Some(d) => d,
            None => Seq::empty(),
        }))
    } else {
        None
    };
    let stop = spec_starts_with(line, "ERROR:"@) || spec_starts_with(line, "CANCELLED:"@);
    (progress, loadcheck, stop)
}

/// The outcome of a finished download: success needs no cancellation, a
/// successful exit, no reported error, and a passed load check or the
/// `DONE` line.
pub enum DownloadOutcome {
    Success,
    Cancelled,
    Failed(String),
}

fn split_once_colon(s: &str) -> (r: (String, Option<String>))
    ensures
        (r.0@, match r.1 {
            Some(x) => Some(x@),
            None => None,
        }) == split_once_at(s@, ':'),
{
    let v = chars_of(s);
    let mut i: usize = 0;
    while i < v.len() && v[i] != ':'
        invariant
            i <= v@.len(),
            v@ == s@,
            forall|j: int| 0 <= j < i ==> v@[j] != ':',
        decreases v.len() - i,
    {
        i += 1;
    }
    if i == v.len() {
        assert(!(exists|j: int| 0 <= j < s@.len() && s@[j] == ':'));
        return (String::from_str(s), None);
    }
    proof {
        assert(exists|j: int| 0 <= j < s@.len() && s@[j] == ':');
        let q = choose|j: int| 0 <= j < s@.len() && s@[j] == ':' && forall|k: int| 0 <= k < j ==> s@[k] != ':';
        if q < i {
            assert(v@[q] != ':');
        }
        if i < q {
            assert(s@[i as int] != ':');
        }
    }
    let head = copy_range(&v, 0, i);
    let tail = copy_range(&v, i + 1, v.len());
    assert(head@ =~= s@.take(i as int));
    assert(tail@ =~= s@.skip(i + 1));
    (string_from_chars(&head), Some(string_from_chars(&tail)))
}

/// The boolean as `Display` writes it.
pub open spec fn bool_text(b: bool) -> Seq<char> {
    if b {
        "true"@
    } else {
        "false"@
    }
}

impl DownloadMonitor {
    /// Nothing reported yet.
    pub fn new() -> (r: Self)
        ensures
            !r.loadcheck_ok && !r.done_received && r.final_error is None && !r.cancelled,
    {
        DownloadMonitor { loadcheck_ok: false, done_received: false, final_error: None, cancelled: false }
    }

    /// Takes one line of the script's output: records a passed load
    /// check, the `DONE` line, an error (trimmed) or a cancellation, and
    /// says what to show and whether to stop reading.
    pub fn on_line(&mut self, line: &str) -> (r: LineReport)
        ensures
            (r.progress, match r.loadcheck {
                Some((ok, d)) => Some((ok, d@)),
                None => None,
            }, r.stop) == spec_line_report(line@),
            final(self).loadcheck_ok == (old(self).loadcheck_ok || (r.loadcheck is Some && r.loadcheck.unwrap().0)),
            final(self).done_received == (old(self).done_received || line@ == "DONE"@),
            opt_str(final(self).final_error) == if spec_starts_with(line@, "ERROR:"@) {
                Some(spec_trim(spec_strip_prefix(line@, "ERROR:"@)))
            } else {
                opt_str(old(self).final_error)
            },
            final(self).cancelled == (old(self).cancelled || spec_starts_with(line@, "CANCELLED:"@)),
    {
        let progress = if starts_with(line, "PROGRESS:") {
            let rest = strip_prefix(line, "PROGRESS:");
            let t = string_from_chars(&trim_chars(&chars_of(rest.as_str())));
            parse_i32(t.as_str())
        } else if str_eq(line, "DONE") {
            Some(100i32)
        } else {
            None
        };
        if str_eq(line, "DONE") {
            self.done_received = true;
        }
        let loadcheck = if starts_with(line, "LOADCHECK:") {
            let rest = strip_prefix(line, "LOADCHECK:");
            let (state, detail) = split_once_colon(rest.as_str());
            let ok = str_eq(state.as_str(), "OK");
            if ok {
                self.loadcheck_ok = true;
            }
            let d = match detail {
                Some(x) => x,
                None => String::new(),
            };
            Some((ok, d))
        } else {
            None
        };
        let mut stop = false;
        if starts_with(line, "ERROR:") {
            let rest = strip_prefix(line, "ERROR:");
            self.final_error = Some(string_from_chars(&trim_chars(&chars_of(rest.as_str()))));
            stop = true;
        }
        if starts_with(line, "CANCELLED:") {
            self.cancelled = true;
            stop = true;
        }
        LineReport { progress, loadcheck, stop }
    }

    /// The outcome once the script has exited, successfully or not, with
    /// its exit code when it has one.
    pub fn outcome(&self, exit_success: bool, exit_code: Option<i32>) -> (r: DownloadOutcome)
        ensures
            (!self.cancelled && exit_success && self.final_error is None && (self.loadcheck_ok || self.done_received))
                ==> r is Success,
            !(!self.cancelled && exit_success && self.final_error is None && (self.loadcheck_ok || self.done_received))
                ==> if self.cancelled {
                r is Cancelled
            } else {
                (r matches DownloadOutcome::Failed(e) && e@ == match self.final_error {
                    Some(f) => f@,
                    None => "下载进程异常退出 (exit="@ + crate::ilink::spec_int_text(match exit_code {
                        Some(c) => c as int,
                        None => -1,
                    }) + ", done="@ + bool_text(self.done_received) + ", loadcheck="@ + bool_text(self.loadcheck_ok) + ")"@,
                })
            },
    {
        if !self.cancelled && exit_success && self.final_error.is_none() && (self.loadcheck_ok || self.done_received) {
            DownloadOutcome::Success
        } else if self.cancelled {
            DownloadOutcome::Cancelled
        } else {
            match &self.final_error {
                Some(f) => DownloadOutcome::Failed(f.clone()),
                None => {
                    let code: i64 = match exit_code {
                        Some(c) => c as i64,
                        None => -1,
                    };
                    let mut s = String::from_str("下载进程异常退出 (exit=");
                    s.append(crate::ilink::i64_text(code).as_str());
                    s.append(", done=");
                    s.append(if self.done_received {
                        "true"
                    } else {
                        "false"
                    });
                    s.append(", loadcheck=");
                    s.append(if self.loadcheck_ok {
                        "true"
                    } else {
                        "false"
                    });
                    s.append(")");
                    DownloadOutcome::Failed(s)
                },
            }
        }
    }
}

} // verus!
