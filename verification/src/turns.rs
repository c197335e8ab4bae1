//! One chat turn: the messages sent to the model (stored history and the
//! new user message), how a streamed reply is gathered, the events that
//! show it, and the stand-in reply used when no model answers.

use vstd::prelude::*;
use vstd::string::StringExecFns;
use crate::chat::{
    ChatMessage, ContentPart, MessageModel, PartModel, ToolCall, ToolCallModel, calls_view, copy_calls,
    messages_view, parts_view, text_message,
};
use crate::models::MessageSegment;
use crate::segments::{SegModel, seg_view, segs_view};
use crate::stream::{ChatChunk, ChunkModel, chunks_view};
use crate::text::{str_eq, chars_of, string_from_chars, spec_contains, contains, strs_view, lemma_strs_view_push};

verus! {

/// A piece of a reply shown while it streams.
pub struct ChatChunkEvent {
    pub session_id: String,
    pub message_id: String,
    pub chunk: String,
    pub done: bool,
}

/// A segment of a finished reply shown to the user.
pub struct ChatSegmentEvent {
    pub session_id: String,
    pub message_id: String,
    pub segment: MessageSegment,
    pub segment_index: usize,
    pub done: bool,
}

// ---------------------------------------------------------------------------
// Gathering streamed replies

/// The number of pieces of a stream that are read: up to and including
/// the first that ends the reply, else all of them.
pub open spec fn read_count(chunks: Seq<ChunkModel>) -> nat
    decreases chunks.len(),
{
    if chunks.len() == 0 {
        0
    } else if chunks[0].done {
        1
    } else {
        1 + read_count(chunks.drop_first())
    }
}

/// The text of pieces, joined.
pub open spec fn joined_text(chunks: Seq<ChunkModel>) -> Seq<char>
    decreases chunks.len(),
{
    if chunks.len() == 0 {
        Seq::empty()
    } else {
        joined_text(chunks.drop_last()) + chunks.last().content
    }
}

/// The tool calls of pieces, in order.
pub open spec fn joined_calls(chunks: Seq<ChunkModel>) -> Seq<ToolCallModel>
    decreases chunks.len(),
{
    if chunks.len() == 0 {
        Seq::empty()
    } else {
        joined_calls(chunks.drop_last()) + match chunks.last().tool_calls {
            Some(c) => c,
            None => Seq::empty(),
        }
    }
}

/// The non-empty texts of pieces, in order.
pub open spec fn shown_texts(chunks: Seq<ChunkModel>) -> Seq<Seq<char>>
    decreases chunks.len(),
{
    if chunks.len() == 0 {
        Seq::empty()
    } else {
        let p = shown_texts(chunks.drop_last());
        if chunks.last().content.len() > 0 {
            p.push(chunks.last().content)
        } else {
            p
        }
    }
}

proof fn lemma_read_count(chunks: Seq<ChunkModel>, k: int)
    requires
        0 <= k < chunks.len(),
        forall|j: int| 0 <= j < k ==> !(#[trigger] chunks[j]).done,
    ensures
        chunks[k].done ==> read_count(chunks) == k + 1,
        k + 1 <= read_count(chunks),
    decreases k,
{
    if k > 0 {
        let d = chunks.drop_first();
        assert forall|j: int| 0 <= j < k - 1 implies !(#[trigger] d[j]).done by {
            assert(d[j] == chunks[j + 1]);
        }
        assert(!chunks[0].done);
        lemma_read_count(d, k - 1);
    }
}

proof fn lemma_read_all(chunks: Seq<ChunkModel>)
    requires
        forall|j: int| 0 <= j < chunks.len() ==> !(#[trigger] chunks[j]).done,
    ensures
        read_count(chunks) == chunks.len(),
    decreases chunks.len(),
{
    if chunks.len() > 0 {
        let d = chunks.drop_first();
        assert forall|j: int| 0 <= j < d.len() implies !(#[trigger] d[j]).done by {
            assert(d[j] == chunks[j + 1]);
        }
        lemma_read_all(d);
    }
}

/// Gathers the first turn of a reply: its text and the tool calls it asks
/// for, reading up to and including the piece that ends it.
pub fn collect_assistant_turn(chunks: Vec<ChatChunk>) -> (r: (String, Vec<ToolCall>))
    ensures
        r.0@ == joined_text(chunks_view(chunks@).take(read_count(chunks_view(chunks@)) as int)),
        calls_view(r.1@) == joined_calls(chunks_view(chunks@).take(read_count(chunks_view(chunks@)) as int)),
{
    let ghost cv = chunks_view(chunks@);
    let mut content = String::new();
    let mut calls: Vec<ToolCall> = Vec::new();
    let mut k: usize = 0;
    assert(cv.take(0) =~= Seq::<ChunkModel>::empty());
    assert(calls_view(calls@) =~= Seq::<ToolCallModel>::empty());
    while k < chunks.len()
        invariant
            k <= chunks@.len(),
            cv == chunks_view(chunks@),
            forall|j: int| 0 <= j < k ==> !(#[trigger] cv[j]).done,
            content@ == joined_text(cv.take(k as int)),
            calls_view(calls@) == joined_calls(cv.take(k as int)),
        decreases chunks.len() - k,
    {
        let c = &chunks[k];
        assert(cv[k as int] == c@);
        assert(cv.take(k + 1).drop_last() =~= cv.take(k as int));
        content.append(c.content.as_str());
        if let Some(tc) = &c.tool_calls {
            let more = copy_calls(tc);
            let ghost before = calls@;
            let mut m = more;
            calls.append(&mut m);
            assert(calls_view(calls@) =~= calls_view(before) + calls_view(tc@));
        } else {
            assert(calls_view(calls@) =~= calls_view(calls@) + Seq::<ToolCallModel>::empty());
        }
        if c.done {
            proof {
                lemma_read_count(cv, k as int);
            }
            return (content, calls);
        }
        k += 1;
    }
    proof {
        lemma_read_all(cv);
        assert(cv.take(k as int) =~= cv);
    }
    (content, calls)
}

/// Gathers a streamed reply: the text of the pieces up to and including
/// the one that ends it, and the non-empty pieces to show as they come.
pub fn stream_reply_text(chunks: &Vec<ChatChunk>) -> (r: (String, Vec<String>))
    ensures
        r.0@ == joined_text(chunks_view(chunks@).take(read_count(chunks_view(chunks@)) as int)),
        strs_view(r.1@) == shown_texts(chunks_view(chunks@).take(read_count(chunks_view(chunks@)) as int)),
{
    let ghost cv = chunks_view(chunks@);
    let mut full = String::new();
    let mut shown: Vec<String> = Vec::new();
    let mut k: usize = 0;
    assert(cv.take(0) =~= Seq::<ChunkModel>::empty());
    assert(strs_view(shown@) =~= Seq::<Seq<char>>::empty());
    while k < chunks.len()
        invariant
            k <= chunks@.len(),
            cv == chunks_view(chunks@),
            forall|j: int| 0 <= j < k ==> !(#[trigger] cv[j]).done,
            full@ == joined_text(cv.take(k as int)),
            strs_view(shown@) == shown_texts(cv.take(k as int)),
        decreases chunks.len() - k,
    {
        let c = &chunks[k];
        assert(cv[k as int] == c@);
        assert(cv.take(k + 1).drop_last() =~= cv.take(k as int));
        full.append(c.content.as_str());
        if !c.content.as_str().is_empty() {
            let ghost before = shown@;
            shown.push(c.content.clone());
            proof {
                lemma_strs_view_push(before, c.content);
            }
        }
        if c.done {
            proof {
                lemma_read_count(cv, k as int);
            }
            return (full, shown);
        }
        k += 1;
    }
    proof {
        lemma_read_all(cv);
        assert(cv.take(k as int) =~= cv);
    }
    (full, shown)
}

/// The events that show a streamed piece of text.
pub fn chunk_event(session_id: &str, message_id: &str, chunk: String, done: bool) -> (r: ChatChunkEvent)
    ensures
        r.session_id@ == session_id@,
        r.message_id@ == message_id@,
        r.chunk == chunk,
        r.done == done,
{
    ChatChunkEvent { session_id: String::from_str(session_id), message_id: String::from_str(message_id), chunk, done }
}

/// The pieces in which a stand-in reply is shown: two characters at a
/// time, the last piece holding what is left.
pub open spec fn pair_chunks(text: Seq<char>) -> Seq<Seq<char>>
    decreases text.len(),
{
    if text.len() <= 2 {
        if text.len() == 0 {
            Seq::empty()
        } else {
            seq![text]
        }
    } else {
        seq![text.take(2)] + pair_chunks(text.skip(2))
    }
}

/// Cuts a text into pieces of two characters.
pub fn mock_chunks(text: &str) -> (r: Vec<String>)
    ensures
        strs_view(r@) == pair_chunks(text@),
{
    let v = chars_of(text);
    let mut out: Vec<String> = Vec::new();
    let mut i: usize = 0;
    assert(v@.skip(0) =~= v@);
    assert(strs_view(out@) =~= Seq::<Seq<char>>::empty());
    while i < v.len()
        invariant
            i <= v@.len(),
            v@ == text@,
            strs_view(out@) + pair_chunks(v@.skip(i as int)) == pair_chunks(text@),
        decreases v.len() - i,
    {
        let end = if v.len() - i >= 2 {
            i + 2
        } else {
            v.len()
        };
        let piece = crate::text::copy_range(&v, i, end);
        let s = string_from_chars(&piece);
        let ghost rest = v@.skip(i as int);
        proof {
            if rest.len() <= 2 {
                assert(piece@ =~= rest);
                assert(v@.skip(end as int) =~= Seq::<char>::empty());
            } else {
                assert(piece@ =~= rest.take(2));
                assert(rest.skip(2) =~= v@.skip(end as int));
            }
        }
        let ghost before = out@;
        out.push(s);
        proof {
            lemma_strs_view_push(before, s);
            assert(strs_view(out@) + pair_chunks(v@.skip(end as int)) =~= strs_view(before) + pair_chunks(rest));
        }
        i = end;
    }
    assert(strs_view(out@) + Seq::<Seq<char>>::empty() =~= strs_view(out@));
    out
}

/// Joining the pieces of a stand-in reply gives the reply back.
pub proof fn law_mock_chunks_rejoin(text: Seq<char>)
    ensures
        crate::text::concat_all(pair_chunks(text)) == text,
    decreases text.len(),
{
    if text.len() > 2 {
        law_mock_chunks_rejoin(text.skip(2));
        lemma_concat_all_front(text.take(2), pair_chunks(text.skip(2)));
        assert(text.take(2) + text.skip(2) =~= text);
    } else if text.len() > 0 {
        let s = seq![text];
        assert(s.drop_last() =~= Seq::<Seq<char>>::empty());
        assert(crate::text::concat_all(s) == crate::text::concat_all(s.drop_last()) + s.last());
        assert(crate::text::concat_all(Seq::<Seq<char>>::empty()) == Seq::<char>::empty());
        assert(Seq::<char>::empty() + text =~= text);
    } else {
        assert(text =~= Seq::<char>::empty());
    }
}

proof fn lemma_concat_all_front(a: Seq<char>, rest: Seq<Seq<char>>)
    ensures
        crate::text::concat_all(seq![a] + rest) == a + crate::text::concat_all(rest),
    decreases rest.len(),
{
    let s = seq![a] + rest;
    if rest.len() == 0 {
        assert(s.drop_last() =~= Seq::<Seq<char>>::empty());
        assert(s.last() == a);
        assert(crate::text::concat_all(s) == crate::text::concat_all(s.drop_last()) + s.last());
        assert(crate::text::concat_all(Seq::<Seq<char>>::empty()) == Seq::<char>::empty());
        assert(Seq::<char>::empty() + a =~= a);
        assert(a + Seq::<char>::empty() =~= a);
    } else {
        lemma_concat_all_front(a, rest.drop_last());
        assert(s.drop_last() =~= seq![a] + rest.drop_last());
        assert(s.last() == rest.last());
        assert(crate::text::concat_all(s) == crate::text::concat_all(s.drop_last()) + s.last());
        assert(crate::text::concat_all(rest) == crate::text::concat_all(rest.drop_last()) + rest.last());
        assert(a + crate::text::concat_all(rest.drop_last()) + rest.last() =~= a + (crate::text::concat_all(rest.drop_last()) + rest.last()));
    }
}

// ---------------------------------------------------------------------------
// Showing a finished reply

fn copy_opt(o: &Option<String>) -> (r: Option<String>)
    ensures
        r == *o,
{
    match o {
        Some(s) => Some(s.clone()),
        None => None,
    }
}

/// A copy of a segment with the same kind, text, language and address.
pub fn copy_segment(m: &MessageSegment) -> (r: MessageSegment)
    ensures
        seg_view(r) == seg_view(*m),
{
    MessageSegment {
        segment_type: m.segment_type,
        content: copy_opt(&m.content),
        language: copy_opt(&m.language),
        image_url: copy_opt(&m.image_url),
        image_bytes: match &m.image_bytes {
            Some(b) => Some(crate::chat::copy_bytes(b)),
            None => None,
        },
        tool_call_id: copy_opt(&m.tool_call_id),
        source: match &m.source {
            Some(src) => Some(crate::models::MessageSegmentSource { name: src.name.clone(), url: copy_opt(&src.url) }),
            None => None,
        },
        collapsed: m.collapsed,
    }
}

/// The events that show the segments of a finished reply, in order, the
/// last one marked as done.
pub fn segment_events(session_id: &str, message_id: &str, segments: &Vec<MessageSegment>) -> (r: Vec<ChatSegmentEvent>)
    ensures
        r@.len() == segments@.len(),
        forall|i: int|
            0 <= i < r@.len() ==> {
                &&& (#[trigger] r@[i]).session_id@ == session_id@
                &&& r@[i].message_id@ == message_id@
                &&& seg_view(r@[i].segment) == seg_view(segments@[i])
                &&& r@[i].segment_index == i
                &&& r@[i].done == (i == segments@.len() - 1)
            },
{
    let count = segments.len();
    let last = if count == 0 {
        0
    } else {
        count - 1
    };
    let mut out: Vec<ChatSegmentEvent> = Vec::new();
    let mut k: usize = 0;
    while k < count
        invariant
            k <= count == segments@.len(),
            last == if count == 0 { 0 } else { count - 1 },
            out@.len() == k,
            forall|i: int|
                0 <= i < k ==> {
                    &&& (#[trigger] out@[i]).session_id@ == session_id@
                    &&& out@[i].message_id@ == message_id@
                    &&& seg_view(out@[i].segment) == seg_view(segments@[i])
                    &&& out@[i].segment_index == i
                    &&& out@[i].done == (i == segments@.len() - 1)
                },
        decreases count - k,
    {
        out.push(
            ChatSegmentEvent {
                session_id: String::from_str(session_id),
                message_id: String::from_str(message_id),
                segment: copy_segment(&segments[k]),
                segment_index: k,
                done: k == last,
            },
        );
        k += 1;
    }
    out
}

// ---------------------------------------------------------------------------
// The messages sent to the model

/// A stored message of the session, its attachments and tool calls read
/// back from their stored JSON when that parses.
pub struct StoredTurn {
    pub role: String,
    pub content: String,
    pub extra_parts: Option<Vec<ContentPart>>,
    pub tool_calls: Option<Vec<ToolCall>>,
}

/// The message a stored turn is sent to the model as: a user turn with its
/// text first, then its attachments; an assistant turn with its tool
/// calls, if any; a tool result; nothing for other roles.
pub open spec fn history_message(t: StoredTurn) -> Option<MessageModel> {
    if t.role@ == "user"@ {
        Some(MessageModel {
            role: "user"@,
            content: seq![PartModel::Text(t.content@)] + match t.extra_parts {
                Some(p) => parts_view(p@),
                None => Seq::empty(),
            },
            tool_calls: None,
            tool_call_id: None,
        })
    } else if t.role@ == "assistant"@ {
        match t.tool_calls {
            Some(c) => Some(MessageModel {
                role: "assistant"@,
                content: seq![PartModel::Text(t.content@)],
                tool_calls: Some(calls_view(c@)),
                tool_call_id: None,
            }),
            None => Some(text_message("assistant"@, t.content@)),
        }
    } else if t.role@ == "tool"@ {
        Some(MessageModel {
            role: "tool"@,
            content: seq![PartModel::Text(t.content@)],
            tool_calls: None,
            tool_call_id: Some(Seq::empty()),
        })
    } else {
        None
    }
}

/// The messages stored turns are sent as, in order.
pub open spec fn history_messages(ts: Seq<StoredTurn>) -> Seq<MessageModel>
    decreases ts.len(),
{
    if ts.len() == 0 {
        Seq::empty()
    } else {
        let p = history_messages(ts.drop_last());
        match history_message(ts.last()) {
            Some(m) => p.push(m),
            None => p,
        }
    }
}

fn text_then_parts(text: &str, extra: &Option<Vec<ContentPart>>) -> (r: Vec<ContentPart>)
    ensures
        parts_view(r@) == seq![PartModel::Text(text@)] + match *extra {
            Some(p) => parts_view(p@),
            None => Seq::empty(),
        },
{
    let mut out: Vec<ContentPart> = Vec::new();
    out.push(ContentPart::text(text));
    match extra {
        Some(p) => {
            let mut k: usize = 0;
            while k < p.len()
                invariant
                    k <= p@.len(),
                    parts_view(out@) == seq![PartModel::Text(text@)] + parts_view(p@.take(k as int)),
                decreases p.len() - k,
            {
                let ghost before = out@;
                let d = p[k].duplicate();
                out.push(d);
                assert(parts_view(out@) =~= parts_view(before).push(d@));
                assert(parts_view(p@.take(k + 1)) =~= parts_view(p@.take(k as int)).push(p@[k as int]@));
                assert(parts_view(out@) =~= seq![PartModel::Text(text@)] + parts_view(p@.take(k + 1)));
                k += 1;
            }
            assert(p@.take(k as int) =~= p@);
        },
        None => {
            assert(parts_view(out@) =~= seq![PartModel::Text(text@)] + Seq::<PartModel>::empty());
        },
    }
    out
}

/// The messages stored turns are sent as.
pub fn build_history(turns: &Vec<StoredTurn>) -> (r: Vec<ChatMessage>)
    ensures
        messages_view(r@) == history_messages(turns@),
{
    let mut out: Vec<ChatMessage> = Vec::new();
    let mut k: usize = 0;
    assert(messages_view(out@) =~= Seq::<MessageModel>::empty());
    while k < turns.len()
        invariant
            k <= turns@.len(),
            messages_view(out@) == history_messages(turns@.take(k as int)),
        decreases turns.len() - k,
    {
        let t = &turns[k];
        assert(turns@.take(k + 1).drop_last() =~= turns@.take(k as int));
        assert(turns@.take(k + 1).last() == *t);
        let ghost before = out@;
        if str_eq(t.role.as_str(), "user") {
            let m = ChatMessage { role: String::from_str("user"), content: text_then_parts(t.content.as_str(), &t.extra_parts), tool_calls: None, tool_call_id: None };
            out.push(m);
            assert(messages_view(out@) =~= messages_view(before).push(m@));
        } else if str_eq(t.role.as_str(), "assistant") {
            let m = match &t.tool_calls {
                Some(c) => ChatMessage::assistant_with_tools(t.content.as_str(), copy_calls(c)),
                None => ChatMessage::assistant(t.content.as_str()),
            };
            out.push(m);
            assert(messages_view(out@) =~= messages_view(before).push(m@));
        } else if str_eq(t.role.as_str(), "tool") {
            let m = ChatMessage::tool("", t.content.as_str());
            proof {
                reveal_strlit("");
                assert(""@ =~= Seq::<char>::empty());
            }
            out.push(m);
            assert(messages_view(out@) =~= messages_view(before).push(m@));
        }
        k += 1;
    }
    assert(turns@.take(k as int) =~= turns@);
    out
}

/// The new user message: its text first, then its attachments.
pub fn user_turn(content: &str, parts: &Option<Vec<ContentPart>>) -> (r: ChatMessage)
    ensures
        r@ == (MessageModel {
            role: "user"@,
            content: seq![PartModel::Text(content@)] + match *parts {
                Some(p) => parts_view(p@),
                None => Seq::empty(),
            },
            tool_calls: None,
            tool_call_id: None,
        }),
{
    ChatMessage { role: String::from_str("user"), content: text_then_parts(content, parts), tool_calls: None, tool_call_id: None }
}

/// Whether a new message becomes the session's title: when its UTF-8 text
/// is at most 20 bytes long.
pub fn retitles_session(content: &str) -> (r: bool)
    ensures
        r == (content.len() <= 20),
{
    content.len() <= 20
}

/// The model a persona prefers: the text of its `provider` setting, empty
/// when it has none.
pub fn persona_provider(llm: &crate::json::JsonValue) -> (r: String)
    ensures
        r@ == match crate::json::spec_get(*llm, "provider"@) {
            Some(x) => match crate::json::spec_as_str(x) {
                Some(s) => s,
                None => Seq::empty(),
            },
            None => Seq::empty(),
        },
{
    match llm.get("provider") {
        Some(x) => match x.as_str() {
            Some(s) => String::from_str(s),
            None => String::new(),
        },
        None => String::new(),
    }
}

// ---------------------------------------------------------------------------
// Replies to WeChat messages

/// What the text a model streamed means for an automatic reply: the text
/// itself, or an error when it is empty or is the service's busy notice.
pub open spec fn spec_reply_outcome(full: Seq<char>) -> Result<Seq<char>, Seq<char>> {
    if full.len() == 0 {
        Err("LLM 返回空内容，请检查模型服务"@)
    } else if spec_contains(full, "正在思考中，请稍后重试"@) {
        Err("LLM 服务暂不可用，请检查 Ollama 是否启动"@)
    } else {
        Ok(full)
    }
}

/// Judges the text a model streamed for an automatic reply.
pub fn reply_outcome(full: String) -> (r: Result<String, String>)
    ensures
        match r {
            Ok(t) => spec_reply_outcome(full@) == Ok::<Seq<char>, Seq<char>>(t@),
            Err(e) => spec_reply_outcome(full@) == Err::<Seq<char>, Seq<char>>(e@),
        },
{
    if full.as_str().is_empty() {
        Err(String::from_str("LLM 返回空内容，请检查模型服务"))
    } else if contains(full.as_str(), "正在思考中，请稍后重试") {
        Err(String::from_str("LLM 服务暂不可用，请检查 Ollama 是否启动"))
    } else {
        Ok(full)
    }
}

/// The error when no model can answer: it names the persona's preferred
/// model, or the default one.
pub fn no_model_error(persona_provider: &str) -> (r: String)
    ensures
        r@ == "模型服务暂不可用（"@ + (if persona_provider@.len() == 0 {
            "默认模型"@
        } else {
            persona_provider@
        }) + "），请检查 Ollama 是否已启动并拉取模型"@,
{
    let mut s = String::from_str("模型服务暂不可用（");
    if persona_provider.is_empty() {
        s.append("默认模型");
    } else {
        s.append(persona_provider);
    }
    s.append("），请检查 Ollama 是否已启动并拉取模型");
    s
}

} // verus!
