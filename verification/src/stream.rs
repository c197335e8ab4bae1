//! Streamed model replies.  The received text is collected in a line
//! buffer; OpenAI-compatible services send server-sent-event lines, Ollama
//! sends one JSON document per line.  Each decoded line contributes pieces
//! of the reply: text, requested tool calls, or the end of the reply.

use vstd::prelude::*;
use vstd::string::StringExecFns;
use base64::Engine as _;
use crate::chat::{ContentPart, PartModel, ToolCall, ToolCallModel, calls_view, parts_view};
use crate::text::{
    chars_of, copy_range, trim_chars, string_from_chars, spec_trim, starts_with,
    spec_starts_with, strip_prefix, spec_strip_prefix, str_eq, strs_view, lemma_strs_view_push,
};

verus! {

/// One piece of a streamed reply.
pub struct ChatChunk {
    pub content: String,
    pub tool_calls: Option<Vec<ToolCall>>,
    pub done: bool,
}

/// The model of a reply piece.
pub struct ChunkModel {
    pub content: Seq<char>,
    pub tool_calls: Option<Seq<ToolCallModel>>,
    pub done: bool,
}

impl View for ChatChunk {
    type V = ChunkModel;

    open spec fn view(&self) -> ChunkModel {
        ChunkModel {
            content: self.content@,
            tool_calls: match self.tool_calls {
                Some(c) => Some(calls_view(c@)),
                None => None,
            },
            done: self.done,
        }
    }
}

/// The models of a sequence of reply pieces.
pub open spec fn chunks_view(v: Seq<ChatChunk>) -> Seq<ChunkModel> {
    v.map_values(|c: ChatChunk| c@)
}

/// A piece carrying text.
pub open spec fn text_piece(t: Seq<char>) -> ChunkModel {
    ChunkModel { content: t, tool_calls: None, done: false }
}

/// A piece carrying tool calls.
pub open spec fn calls_piece(c: Seq<ToolCallModel>) -> ChunkModel {
    ChunkModel { content: Seq::empty(), tool_calls: Some(c), done: false }
}

/// The piece that ends a reply.
pub open spec fn end_piece() -> ChunkModel {
    ChunkModel { content: Seq::empty(), tool_calls: None, done: true }
}

/// A piece carrying text.
pub fn text_chunk(t: String) -> (r: ChatChunk)
    ensures
        r@ == text_piece(t@),
{
    ChatChunk { content: t, tool_calls: None, done: false }
}

/// The piece that ends a reply.
pub fn end_chunk() -> (r: ChatChunk)
    ensures
        r@ == end_piece(),
{
    ChatChunk { content: String::new(), tool_calls: None, done: true }
}

fn calls_chunk(c: Vec<ToolCall>) -> (r: ChatChunk)
    ensures
        r@ == calls_piece(calls_view(c@)),
{
    ChatChunk { content: String::new(), tool_calls: Some(c), done: false }
}

// ---------------------------------------------------------------------------
// Line buffer

/// Text received so far that has not been taken out as lines.
pub struct LineBuffer {
    pending: Vec<char>,
}

impl View for LineBuffer {
    type V = Seq<char>;

    closed spec fn view(&self) -> Seq<char> {
        self.pending@
    }
}

impl LineBuffer {
    /// An empty buffer.
    pub fn new() -> (r: Self)
        ensures
            r@ == Seq::<char>::empty(),
    {
        LineBuffer { pending: Vec::new() }
    }

    /// Appends received text.
    pub fn push_text(&mut self, text: &str)
        ensures
            final(self)@ == old(self)@ + text@,
    {
        let t = chars_of(text);
        let ghost start = self.pending@;
        let mut k: usize = 0;
        while k < t.len()
            invariant
                k <= t.len(),
                t@ == text@,
                self.pending@ == start + t@.take(k as int),
            decreases t.len() - k,
        {
            self.pending.push(t[k]);
            k += 1;
            assert(self.pending@ =~= start + t@.take(k as int));
        }
        assert(t@.take(k as int) =~= t@);
    }

    /// Takes out the first complete line, without its line break and with
    /// white space trimmed from both ends; nothing while no line break has
    /// arrived.
    pub fn next_line(&mut self) -> (r: Option<String>)
        ensures
            match first_index(old(self)@, '\n') {
                Some(p) => r is Some && r.unwrap()@ == spec_trim(old(self)@.take(p))
                    && final(self)@ == old(self)@.skip(p + 1),
                None => r is None && final(self)@ == old(self)@,
            },
    {
        let n = self.pending.len();
        let mut p: usize = 0;
        while p < n && self.pending[p] != '\n'
            invariant
                p <= n == self.pending.len(),
                forall|j: int| 0 <= j < p ==> self.pending@[j] != '\n',
            decreases n - p,
        {
            p += 1;
        }
        if p == n {
            assert(!(exists|i: int| 0 <= i < self.pending@.len() && self.pending@[i] == '\n'));
            return None;
        }
        proof {
            lemma_first_index(self.pending@, '\n', p as int);
        }
        let line = copy_range(&self.pending, 0, p);
        let rest = copy_range(&self.pending, p + 1, n);
        assert(line@ =~= self.pending@.take(p as int));
        assert(rest@ =~= self.pending@.skip(p + 1));
        let trimmed = trim_chars(&line);
        self.pending = rest;
        Some(string_from_chars(&trimmed))
    }
}

// ---------------------------------------------------------------------------
// Server-sent events

/// A line of an event stream.
pub enum SseLine {
    /// The end-of-stream marker.
    Done,
    /// The payload of a data line.
    Data(String),
    /// Any other line.
    Other,
}

/// The model of an event-stream line.
pub enum SseModel {
    Done,
    Data(Seq<char>),
    Other,
}

impl View for SseLine {
    type V = SseModel;

    open spec fn view(&self) -> SseModel {
        match self {
            SseLine::Done => SseModel::Done,
            SseLine::Data(d) => SseModel::Data(d@),
            SseLine::Other => SseModel::Other,
        }
    }
}

/// The prefix of a data line.
pub open spec fn sse_data_prefix() -> Seq<char> {
    seq!['d', 'a', 't', 'a', ':', ' ']
}

/// The payload that marks the end of the stream.
pub open spec fn sse_done_marker() -> Seq<char> {
    seq!['[', 'D', 'O', 'N', 'E', ']']
}

/// What an (already trimmed) event-stream line says.
pub open spec fn spec_sse_line(line: Seq<char>) -> SseModel {
    if spec_starts_with(line, sse_data_prefix()) {
        let d = spec_strip_prefix(line, sse_data_prefix());
        if d == sse_done_marker() {
            SseModel::Done
        } else {
            SseModel::Data(d)
        }
    } else {
        SseModel::Other
    }
}

/// Classifies an event-stream line.
pub fn classify_sse_line(line: &str) -> (r: SseLine)
    ensures
        r@ == spec_sse_line(line@),
{
    let prefix = "data: ";
    let marker = "[DONE]";
    proof {
        reveal_strlit("data: ");
        reveal_strlit("[DONE]");
    }
    assert(prefix@ =~= sse_data_prefix());
    assert(marker@ =~= sse_done_marker());
    if starts_with(line, prefix) {
        let d = strip_prefix(line, prefix);
        if str_eq(d.as_str(), marker) {
            SseLine::Done
        } else {
            SseLine::Data(d)
        }
    } else {
        SseLine::Other
    }
}


// ---------------------------------------------------------------------------
// OpenAI-compatible replies

/// The function named by a streamed tool call.  `arguments` is the
/// argument object as compact JSON text, when the service sent argument
/// text that parses as JSON.
pub struct OpenAiFunction {
    pub name: Option<String>,
    pub arguments: Option<String>,
}

/// A tool call in a streamed delta.
pub struct OpenAiToolCall {
    pub id: Option<String>,
    pub function: Option<OpenAiFunction>,
}

/// What one streamed choice adds to the reply.
pub struct OpenAiDelta {
    pub content: Option<String>,
    pub tool_calls: Option<Vec<OpenAiToolCall>>,
}

/// One choice of a streamed chunk.
pub struct OpenAiChoice {
    pub delta: OpenAiDelta,
    pub finish_reason: Option<String>,
}

/// One decoded data line of an OpenAI-compatible stream.
pub struct OpenAiChunk {
    pub choices: Vec<OpenAiChoice>,
}

/// The JSON text `null`.
pub open spec fn null_text() -> Seq<char> {
    seq!['n', 'u', 'l', 'l']
}

/// The text of an optional string, empty when absent.
pub open spec fn or_empty(o: Option<String>) -> Seq<char> {
    match o {
        Some(s) => s@,
        None => Seq::empty(),
    }
}

/// The tool call that a streamed call stands for: only calls that name a
/// function count; a missing id is empty, missing arguments are `null`.
pub open spec fn openai_call(tc: OpenAiToolCall) -> Option<ToolCallModel> {
    match tc.function {
        Some(f) => match f.name {
            Some(n) => Some(
                ToolCallModel {
                    id: or_empty(tc.id),
                    name: n@,
                    arguments: match f.arguments {
                        Some(a) => a@,
                        None => null_text(),
                    },
                },
            ),
            None => None,
        },
        None => None,
    }
}

/// The tool calls that a list of streamed calls stands for, in order.
pub open spec fn openai_calls(s: Seq<OpenAiToolCall>) -> Seq<ToolCallModel>
    decreases s.len(),
{
    if s.len() == 0 {
        Seq::empty()
    } else {
        let p = openai_calls(s.drop_last());
        match openai_call(s.last()) {
            Some(c) => p.push(c),
            None => p,
        }
    }
}

/// The pieces of the reply that a decoded chunk adds, and whether the
/// reply ends with it.  Only the first choice is read: first its tool calls
/// (one piece, when any counts), then its text (when not empty), then the
/// end of the reply when it carries a finish reason.
pub open spec fn openai_events(c: OpenAiChunk) -> (Seq<ChunkModel>, bool) {
    if c.choices@.len() == 0 {
        (Seq::empty(), false)
    } else {
        let ch = c.choices@[0];
        let calls = match ch.delta.tool_calls {
            Some(tcs) => {
                let cs = openai_calls(tcs@);
                if cs.len() > 0 {
                    seq![calls_piece(cs)]
                } else {
                    Seq::empty()
                }
            },
            None => Seq::empty(),
        };
        let text = match ch.delta.content {
            Some(t) => if t@.len() > 0 {
                seq![text_piece(t@)]
            } else {
                Seq::empty()
            },
            None => Seq::empty(),
        };
        let end = ch.finish_reason is Some;
        (calls + text + if end {
            seq![end_piece()]
        } else {
            Seq::empty()
        }, end)
    }
}

fn openai_tool_calls(s: &Vec<OpenAiToolCall>) -> (r: Vec<ToolCall>)
    ensures
        calls_view(r@) == openai_calls(s@),
{
    let mut out: Vec<ToolCall> = Vec::new();
    let mut k: usize = 0;
    assert(s@.take(0) =~= Seq::<OpenAiToolCall>::empty());
    assert(calls_view(out@) =~= Seq::<ToolCallModel>::empty());
    while k < s.len()
        invariant
            k <= s.len(),
            calls_view(out@) == openai_calls(s@.take(k as int)),
        decreases s.len() - k,
    {
        assert(s@.take(k + 1).drop_last() =~= s@.take(k as int));
        assert(s@.take(k + 1).last() == s@[k as int]);
        let tc = &s[k];
        if let Some(f) = &tc.function {
            if let Some(n) = &f.name {
                let id = match &tc.id {
                    Some(i) => i.clone(),
                    None => String::new(),
                };
                let arguments = match &f.arguments {
                    Some(a) => a.clone(),
                    None => {
                        let t = "null";
                        proof {
                            reveal_strlit("null");
                        }
                        assert(t@ =~= null_text());
                        t.to_owned()
                    },
                };
                let call = ToolCall { id, name: n.clone(), arguments };
                let ghost before = out@;
                out.push(call);
                assert(calls_view(out@) =~= calls_view(before).push(call@));
            }
        }
        k += 1;
    }
    assert(s@.take(k as int) =~= s@);
    out
}

/// The pieces of the reply that a decoded chunk adds, and whether the
/// reply ends with it.
pub fn openai_chunk_events(c: &OpenAiChunk) -> (r: (Vec<ChatChunk>, bool))
    ensures
        chunks_view(r.0@) == openai_events(*c).0,
        r.1 == openai_events(*c).1,
{
    let mut out: Vec<ChatChunk> = Vec::new();
    if c.choices.len() == 0 {
        assert(chunks_view(out@) =~= Seq::<ChunkModel>::empty());
        return (out, false);
    }
    let ch = &c.choices[0];
    let ghost calls_part: Seq<ChunkModel> = Seq::empty();
    if let Some(tcs) = &ch.delta.tool_calls {
        let calls = openai_tool_calls(tcs);
        if calls.len() > 0 {
            let piece = calls_chunk(calls);
            out.push(piece);
            proof {
                calls_part = seq![piece@];
            }
        }
    }
    assert(chunks_view(out@) =~= calls_part);
    let ghost text_part: Seq<ChunkModel> = Seq::empty();
    if let Some(t) = &ch.delta.content {
        if !t.as_str().is_empty() {
            let piece = text_chunk(t.clone());
            out.push(piece);
            proof {
                text_part = seq![piece@];
            }
        }
    }
    assert(chunks_view(out@) =~= calls_part + text_part);
    let end = ch.finish_reason.is_some();
    if end {
        let ghost before = out@;
        out.push(end_chunk());
        assert(chunks_view(out@) =~= calls_part + text_part + seq![end_piece()]);
    } else {
        assert(chunks_view(out@) =~= calls_part + text_part + Seq::<ChunkModel>::empty());
    }
    (out, end)
}

/// What a failed request to an OpenAI-compatible service streams: a note
/// with the error, then the end of the reply.
pub open spec fn spec_cloud_failure(err: Seq<char>) -> Seq<ChunkModel> {
    seq![text_piece(seq!['('] + cloud_failure_label() + err + seq![')']), end_piece()]
}

/// The words that introduce a failed request to a cloud service.
pub open spec fn cloud_failure_label() -> Seq<char> {
    seq!['云', '服', '务', '商', '请', '求', '失', '败', ':', ' ']
}

/// The pieces streamed when the request to an OpenAI-compatible service
/// failed with the error text `err`.
pub fn cloud_request_failed(err: &str) -> (r: Vec<ChatChunk>)
    ensures
        chunks_view(r@) == spec_cloud_failure(err@),
{
    let label = "(云服务商请求失败: ";
    proof {
        reveal_strlit("(云服务商请求失败: ");
        reveal_strlit(")");
    }
    let mut s = label.to_owned();
    s.append(err);
    s.append(")");
    assert(s@ =~= seq!['('] + cloud_failure_label() + err@ + seq![')']);
    let mut out: Vec<ChatChunk> = Vec::new();
    out.push(text_chunk(s));
    out.push(end_chunk());
    assert(chunks_view(out@) =~= spec_cloud_failure(err@));
    out
}

// ---------------------------------------------------------------------------
// Ollama replies

/// The function named by a tool call in an Ollama reply.  `arguments` is
/// the argument value as compact JSON text; absent when the reply has none
/// or has `null`.
pub struct OllamaFunction {
    pub name: Option<String>,
    pub arguments: Option<String>,
}

/// A tool call in an Ollama reply.
pub struct OllamaToolCall {
    pub function: Option<OllamaFunction>,
}

/// The message of an Ollama reply line.
pub struct OllamaMessage {
    pub content: Option<String>,
    pub tool_calls: Option<Vec<OllamaToolCall>>,
}

/// One decoded line of an Ollama chat stream.
pub struct OllamaReply {
    pub message: Option<OllamaMessage>,
    pub done: Option<bool>,
}

/// The tool call that an Ollama call stands for, with identifier `id`: only
/// calls with a function that has a name and arguments count.
pub open spec fn ollama_call(tc: OllamaToolCall, id: Seq<char>) -> Option<ToolCallModel> {
    match tc.function {
        Some(f) => match (f.name, f.arguments) {
            (Some(n), Some(a)) => Some(ToolCallModel { id: id, name: n@, arguments: a@ }),
            _ => None,
        },
        None => None,
    }
}

/// The tool calls that Ollama calls stand for, in order; the call at
/// position `i` gets identifier `ids[i]`.
pub open spec fn ollama_calls(s: Seq<OllamaToolCall>, ids: Seq<Seq<char>>) -> Seq<ToolCallModel>
    decreases s.len(),
{
    if s.len() == 0 {
        Seq::empty()
    } else {
        let p = ollama_calls(s.drop_last(), ids);
        match ollama_call(s.last(), ids[s.len() - 1]) {
            Some(c) => p.push(c),
            None => p,
        }
    }
}

/// The pieces of the reply that an Ollama line adds, with identifiers
/// `ids` for its tool calls, and whether the reply is done with it: first
/// the tool calls (one piece, when any counts), then the text (when not
/// empty).
pub open spec fn ollama_events(r: OllamaReply, ids: Seq<Seq<char>>) -> (Seq<ChunkModel>, bool) {
    let calls = match r.message {
        Some(m) => match m.tool_calls {
            Some(tcs) => {
                let cs = ollama_calls(tcs@, ids);
                if cs.len() > 0 {
                    seq![calls_piece(cs)]
                } else {
                    Seq::empty()
                }
            },
            None => Seq::empty(),
        },
        None => Seq::empty(),
    };
    let text = match r.message {
        Some(m) => match m.content {
            Some(t) => if t@.len() > 0 {
                seq![text_piece(t@)]
            } else {
                Seq::empty()
            },
            None => Seq::empty(),
        },
        None => Seq::empty(),
    };
    (calls + text, r.done == Some(true))
}

/// The number of tool calls in an Ollama line.
pub open spec fn ollama_call_count(r: OllamaReply) -> nat {
    match r.message {
        Some(m) => match m.tool_calls {
            Some(tcs) => tcs@.len(),
            None => 0,
        },
        None => 0,
    }
}

fn ollama_tool_calls(s: &Vec<OllamaToolCall>, ids: &Vec<String>) -> (r: Vec<ToolCall>)
    requires
        ids@.len() >= s@.len(),
    ensures
        calls_view(r@) == ollama_calls(s@, strs_view(ids@)),
{
    let mut out: Vec<ToolCall> = Vec::new();
    let mut k: usize = 0;
    assert(calls_view(out@) =~= Seq::<ToolCallModel>::empty());
    while k < s.len()
        invariant
            k <= s.len() <= ids.len(),
            calls_view(out@) == ollama_calls(s@.take(k as int), strs_view(ids@)),
        decreases s.len() - k,
    {
        assert(s@.take(k + 1).drop_last() =~= s@.take(k as int));
        assert(s@.take(k + 1).last() == s@[k as int]);
        let tc = &s[k];
        if let Some(f) = &tc.function {
            if let (Some(n), Some(a)) = (&f.name, &f.arguments) {
                let call = ToolCall { id: ids[k].clone(), name: n.clone(), arguments: a.clone() };
                let ghost before = out@;
                out.push(call);
                assert(calls_view(out@) =~= calls_view(before).push(call@));
            }
        }
        k += 1;
    }
    assert(s@.take(k as int) =~= s@);
    out
}

/// The pieces of the reply that an Ollama line adds, and whether the
/// reply is done with it; the tool call at position `i` of the line gets
/// identifier `ids[i]`.
pub fn ollama_reply_events_with_ids(r: &OllamaReply, ids: &Vec<String>) -> (res: (Vec<ChatChunk>, bool))
    requires
        ids@.len() >= ollama_call_count(*r),
    ensures
        chunks_view(res.0@) == ollama_events(*r, strs_view(ids@)).0,
        res.1 == ollama_events(*r, strs_view(ids@)).1,
{
    let mut out: Vec<ChatChunk> = Vec::new();
    let ghost calls_part: Seq<ChunkModel> = Seq::empty();
    let ghost text_part: Seq<ChunkModel> = Seq::empty();
    if let Some(m) = &r.message {
        if let Some(tcs) = &m.tool_calls {
            let calls = ollama_tool_calls(tcs, ids);
            if calls.len() > 0 {
                let piece = calls_chunk(calls);
                out.push(piece);
                proof {
                    calls_part = seq![piece@];
                }
            }
        }
        assert(chunks_view(out@) =~= calls_part);
        if let Some(t) = &m.content {
            if !t.as_str().is_empty() {
                let piece = text_chunk(t.clone());
                out.push(piece);
                proof {
                    text_part = seq![piece@];
                }
            }
        }
    }
    assert(chunks_view(out@) =~= calls_part + text_part);
    let done = match r.done {
        Some(d) => d,
        None => false,
    };
    (out, done)
}

/// Identifiers for tool calls of an Ollama reply: `tc_` and a fresh
/// random identifier.
pub open spec fn is_tool_call_id(id: Seq<char>) -> bool {
    id.len() == 39 && id.take(3) == seq!['t', 'c', '_']
}

/// `uuid::Uuid::new_v4()` as text: a fresh random identifier in the
/// hyphenated form of 36 characters.  Which identifier comes out is not
/// stated.
#[verifier::external_body]
pub(crate) fn new_uuid_text() -> (r: String)
    ensures
        r@.len() == 36,
{
    uuid::Uuid::new_v4().to_string()
}

/// The pieces of the reply that an Ollama line adds, and whether the
/// reply is done with it; each tool call gets a fresh identifier made of
/// `tc_` and a random identifier.
pub fn ollama_reply_events(r: &OllamaReply) -> (res: (Vec<ChatChunk>, bool))
    ensures
        exists|ids: Seq<Seq<char>>|
            ids.len() == ollama_call_count(*r)
            && (forall|i: int| 0 <= i < ids.len() ==> is_tool_call_id(#[trigger] ids[i]))
            && chunks_view(res.0@) == ollama_events(*r, ids).0 && res.1 == ollama_events(*r, ids).1,
{
    let n: usize = match &r.message {
        Some(m) => match &m.tool_calls {
            Some(tcs) => tcs.len(),
            None => 0,
        },
        None => 0,
    };
    let mut ids: Vec<String> = Vec::new();
    let prefix = "tc_";
    proof {
        reveal_strlit("tc_");
    }
    assert(prefix@ =~= seq!['t', 'c', '_']);
    while ids.len() < n
        invariant
            ids@.len() <= n,
            prefix@ == seq!['t', 'c', '_'],
            forall|i: int| 0 <= i < ids@.len() ==> is_tool_call_id(#[trigger] strs_view(ids@)[i]),
        decreases n - ids.len(),
    {
        let u = new_uuid_text();
        let mut id = prefix.to_owned();
        id.append(u.as_str());
        assert(id@ =~= prefix@ + u@);
        assert(id@.take(3) =~= seq!['t', 'c', '_']);
        let ghost before = ids@;
        ids.push(id);
        proof {
            lemma_strs_view_push(before, id);
            assert(is_tool_call_id(id@));
            assert forall|i: int| 0 <= i < ids@.len() implies is_tool_call_id(#[trigger] strs_view(ids@)[i]) by {
                if i < before.len() {
                    assert(strs_view(ids@)[i] == strs_view(before)[i]);
                }
            }
        }
    }
    let res = ollama_reply_events_with_ids(r, &ids);
    assert(strs_view(ids@).len() == ollama_call_count(*r));
    res
}

/// What an Ollama chat streams when the service is known to be down: only
/// the end of the reply.
pub fn ollama_unavailable() -> (r: Vec<ChatChunk>)
    ensures
        chunks_view(r@) == seq![end_piece()],
{
    let mut out: Vec<ChatChunk> = Vec::new();
    out.push(end_chunk());
    assert(chunks_view(out@) =~= seq![end_piece()]);
    out
}

/// The note streamed when the request to Ollama fails.
pub open spec fn ollama_failure_note() -> Seq<char> {
    seq!['(', 'O', 'l', 'l', 'a', 'm', 'a', ' ', '未', '启', '动', '，', '回', '退', ' ', 'm', 'o', 'c', 'k', ')']
}

/// What an Ollama chat streams when the request fails: a note, then the
/// end of the reply.
pub fn ollama_request_failed() -> (r: Vec<ChatChunk>)
    ensures
        chunks_view(r@) == seq![text_piece(ollama_failure_note()), end_piece()],
{
    let note = "(Ollama 未启动，回退 mock)";
    proof {
        reveal_strlit("(Ollama 未启动，回退 mock)");
    }
    assert(note@ =~= ollama_failure_note());
    let mut out: Vec<ChatChunk> = Vec::new();
    out.push(text_chunk(note.to_owned()));
    out.push(end_chunk());
    assert(chunks_view(out@) =~= seq![text_piece(ollama_failure_note()), end_piece()]);
    out
}

// ---------------------------------------------------------------------------
// Request contents

/// The text of a message: its text parts joined, other parts left out.
pub open spec fn parts_text(s: Seq<PartModel>) -> Seq<char>
    decreases s.len(),
{
    if s.len() == 0 {
        Seq::empty()
    } else {
        parts_text(s.drop_last()) + match s.last() {
            PartModel::Text(t) => t,
            _ => Seq::empty(),
        }
    }
}

/// The text of a message: its text parts joined, other parts left out.
pub fn build_ollama_content(parts: &Vec<ContentPart>) -> (r: String)
    ensures
        r@ == parts_text(parts_view(parts@)),
{
    let mut text = String::new();
    let mut k: usize = 0;
    while k < parts.len()
        invariant
            k <= parts.len(),
            text@ == parts_text(parts_view(parts@.take(k as int))),
        decreases parts.len() - k,
    {
        assert(parts_view(parts@.take(k + 1)).drop_last() =~= parts_view(parts@.take(k as int)));
        assert(parts_view(parts@.take(k + 1)).last() == parts@[k as int]@);
        match &parts[k] {
            ContentPart::Text(t) => {
                text.append(t.as_str());
            },
            _ => {},
        }
        k += 1;
    }
    assert(parts@.take(k as int) =~= parts@);
    text
}

/// A character of the standard base64 alphabet: `A`-`Z`, `a`-`z`, `0`-`9`,
/// `+`, `/` for the values 0 to 63.
pub open spec fn b64_char(v: int) -> char {
    if v < 26 {
        (65 + v) as char
    } else if v < 52 {
        (71 + v) as char
    } else if v < 62 {
        (v - 4) as char
    } else if v == 62 {
        '+'
    } else {
        '/'
    }
}

/// The standard base64 encoding, with padding, of `bytes`: each group of
/// three bytes as four characters of six bits each; a last group of one or
/// two bytes padded with `=`.
pub open spec fn base64_standard(b: Seq<u8>) -> Seq<char>
    decreases b.len(),
{
    if b.len() == 0 {
        Seq::empty()
    } else if b.len() == 1 {
        seq![b64_char(b[0] as int / 4), b64_char((b[0] % 4) * 16), '=', '=']
    } else if b.len() == 2 {
        seq![b64_char(b[0] as int / 4), b64_char((b[0] % 4) * 16 + b[1] / 16), b64_char((b[1] as int % 16) * 4), '=']
    } else {
        seq![
            b64_char(b[0] as int / 4),
            b64_char((b[0] % 4) * 16 + b[1] / 16),
            b64_char((b[1] % 16) * 4 + b[2] / 64),
            b64_char(b[2] as int % 64),
        ] + base64_standard(b.skip(3))
    }
}

/// The standard base64 engine of the `base64` crate (standard alphabet,
/// with padding), `Engine::encode`.  The contract states the encoding and
/// its length, four characters for every started group of three bytes.  The crate panics only on lengths that no vector in memory can
/// reach.
#[verifier::external_body]
pub(crate) fn encode_base64(bytes: &Vec<u8>) -> (r: String)
    ensures
        r@ == base64_standard(bytes@),
        r@.len() == 4 * ((bytes@.len() + 2) / 3),
{
    base64::engine::GeneralPurpose::new(&base64::alphabet::STANDARD, base64::engine::general_purpose::PAD)
        .encode(bytes)
}

/// The position of the first `c` in `s`, if any.
pub open spec fn first_index(s: Seq<char>, c: char) -> Option<int> {
    if exists|i: int| 0 <= i < s.len() && s[i] == c {
        Some(choose|i: int| 0 <= i < s.len() && s[i] == c && forall|j: int| 0 <= j < i ==> s[j] != c)
    } else {
        None
    }
}

proof fn lemma_first_index(s: Seq<char>, c: char, p: int)
    requires
        0 <= p < s.len(),
        s[p] == c,
        forall|j: int| 0 <= j < p ==> s[j] != c,
    ensures
        first_index(s, c) == Some(p),
{
    assert(exists|i: int| 0 <= i < s.len() && s[i] == c && forall|j: int| 0 <= j < i ==> s[j] != c);
    let q = choose|i: int| 0 <= i < s.len() && s[i] == c && forall|j: int| 0 <= j < i ==> s[j] != c;
    if q < p {
        assert(s[q] != c);
    }
    if p < q {
        assert(s[p] != c);
    }
}

/// The prefix of a data URL.
pub open spec fn data_url_prefix() -> Seq<char> {
    seq!['d', 'a', 't', 'a', ':']
}

/// The image that a part contributes to an Ollama message: raw bytes in
/// base64, or the payload after the first comma of a `data:` URL.
pub open spec fn part_image(p: PartModel) -> Option<Seq<char>> {
    match p {
        PartModel::ImageBytes(d) => Some(base64_standard(d)),
        PartModel::ImageUrl(u) => if spec_starts_with(u, data_url_prefix()) {
            let rest = u.skip(5);
            match first_index(rest, ',') {
                Some(i) => Some(rest.skip(i + 1)),
                None => None,
            }
        } else {
            None
        },
        _ => None,
    }
}

/// The images of a message, in order.
pub open spec fn parts_images(s: Seq<PartModel>) -> Seq<Seq<char>>
    decreases s.len(),
{
    if s.len() == 0 {
        Seq::empty()
    } else {
        let p = parts_images(s.drop_last());
        match part_image(s.last()) {
            Some(i) => p.push(i),
            None => p,
        }
    }
}

proof fn lemma_data_url(u: Seq<char>, i: int)
    requires
        spec_starts_with(u, data_url_prefix()),
        5 <= i <= u.len(),
        forall|j: int| 5 <= j < i ==> u[j] != ',',
        i == u.len() || u[i] == ',',
    ensures
        part_image(PartModel::ImageUrl(u)) == if i == u.len() {
            None
        } else {
            Some(u.skip(i + 1))
        },
{
    let rest = u.skip(5);
    if i == u.len() {
        assert forall|j: int| 0 <= j < rest.len() implies rest[j] != ',' by {
            assert(rest[j] == u[j + 5]);
        }
        assert(first_index(rest, ',') is None);
    } else {
        assert forall|j: int| 0 <= j < i - 5 implies rest[j] != ',' by {
            assert(rest[j] == u[j + 5]);
        }
        lemma_first_index(rest, ',', i - 5);
        assert(rest.skip(i - 5 + 1) =~= u.skip(i + 1));
    }
}

fn data_url_payload(u: &String) -> (r: Option<String>)
    ensures
        match r {
            Some(x) => part_image(PartModel::ImageUrl(u@)) == Some(x@),
            None => part_image(PartModel::ImageUrl(u@)) is None,
        },
{
    let prefix = "data:";
    proof {
        reveal_strlit("data:");
    }
    assert(prefix@ =~= data_url_prefix());
    if !starts_with(u.as_str(), prefix) {
        return None;
    }
    let v = chars_of(u.as_str());
    let mut i: usize = 5;
    while i < v.len() && v[i] != ','
        invariant
            5 <= i <= v.len(),
            v@ == u@,
            forall|j: int| 5 <= j < i ==> v@[j] != ',',
        decreases v.len() - i,
    {
        i += 1;
    }
    proof {
        lemma_data_url(u@, i as int);
    }
    if i == v.len() {
        return None;
    }
    let payload = copy_range(&v, i + 1, v.len());
    assert(payload@ =~= u@.skip(i + 1));
    Some(string_from_chars(&payload))
}

/// The images of a message for Ollama, in order: raw image bytes in
/// base64, and the payload of `data:` URLs; other parts give none.
pub fn collect_images(parts: &Vec<ContentPart>) -> (r: Vec<String>)
    ensures
        strs_view(r@) == parts_images(parts_view(parts@)),
{
    let mut out: Vec<String> = Vec::new();
    let mut k: usize = 0;
    assert(strs_view(out@) =~= Seq::<Seq<char>>::empty());
    while k < parts.len()
        invariant
            k <= parts.len(),
            strs_view(out@) == parts_images(parts_view(parts@.take(k as int))),
        decreases parts.len() - k,
    {
        assert(parts_view(parts@.take(k + 1)).drop_last() =~= parts_view(parts@.take(k as int)));
        assert(parts_view(parts@.take(k + 1)).last() == parts@[k as int]@);
        match &parts[k] {
            ContentPart::ImageBytes(data) => {
                let e = encode_base64(data);
                let ghost before = out@;
                out.push(e);
                proof {
                    lemma_strs_view_push(before, e);
                }
            },
            ContentPart::ImageUrl(url) => {
                match data_url_payload(url) {
                    Some(p) => {
                        let ghost before = out@;
                        out.push(p);
                        proof {
                            lemma_strs_view_push(before, p);
                        }
                    },
                    None => {},
                }
            },
            _ => {},
        }
        k += 1;
    }
    assert(parts@.take(k as int) =~= parts@);
    out
}

} // verus!
