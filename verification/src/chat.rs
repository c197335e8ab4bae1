//! Chat message types exchanged with model providers, with their
//! mathematical models (views) and exact duplication functions.

use vstd::prelude::*;
use crate::text::strs_view;

verus! {

/// The model of an optional string.
pub open spec fn opt_str(o: Option<String>) -> Option<Seq<char>> {
    match o {
        Some(s) => Some(s@),
        None => None,
    }
}

/// Copies an optional string.
pub fn copy_opt_str(o: &Option<String>) -> (r: Option<String>)
    ensures
        opt_str(r) == opt_str(*o),
{
    match o {
        Some(s) => Some(s.clone()),
        None => None,
    }
}

/// Copies a byte vector.
pub fn copy_bytes(v: &Vec<u8>) -> (r: Vec<u8>)
    ensures
        r@ == v@,
{
    let mut r: Vec<u8> = Vec::new();
    for i in 0..v.len()
        invariant
            r@ == v@.take(i as int),
    {
        r.push(v[i]);
    }
    assert(r@ =~= v@);
    r
}

/// Copies a vector of strings.
pub fn copy_strs(v: &Vec<String>) -> (r: Vec<String>)
    ensures
        strs_view(r@) == strs_view(v@),
{
    let mut r: Vec<String> = Vec::new();
    for i in 0..v.len()
        invariant
            r@.len() == i,
            forall|j: int| 0 <= j < i ==> #[trigger] r@[j]@ == v@[j]@,
    {
        r.push(v[i].clone());
    }
    assert(strs_view(r@) =~= strs_view(v@));
    r
}

/// Capabilities that a model provider declares.
pub struct Capabilities {
    pub vision: bool,
    pub audio_input: bool,
    pub video: bool,
    pub tool_use: bool,
    pub max_context: usize,
}

/// One part of a multimodal message.  The duration of an audio clip is
/// carried as the bit pattern of its `f64` value.
pub enum ContentPart {
    Text(String),
    ImageBytes(Vec<u8>),
    ImageUrl(String),
    AudioBytes {
        data: Vec<u8>,
        duration_bits: Option<u64>,
        transcript: Option<String>,
        mime: Option<String>,
        file_id: Option<String>,
    },
    VideoFrames(Vec<String>),
}

/// The model of a content part.
pub enum PartModel {
    Text(Seq<char>),
    ImageBytes(Seq<u8>),
    ImageUrl(Seq<char>),
    AudioBytes {
        data: Seq<u8>,
        duration_bits: Option<u64>,
        transcript: Option<Seq<char>>,
        mime: Option<Seq<char>>,
        file_id: Option<Seq<char>>,
    },
    VideoFrames(Seq<Seq<char>>),
}

impl View for ContentPart {
    type V = PartModel;

    open spec fn view(&self) -> PartModel {
        match self {
            ContentPart::Text(t) => PartModel::Text(t@),
            ContentPart::ImageBytes(b) => PartModel::ImageBytes(b@),
            ContentPart::ImageUrl(u) => PartModel::ImageUrl(u@),
            ContentPart::AudioBytes { data, duration_bits, transcript, mime, file_id } => {
                PartModel::AudioBytes {
                    data: data@,
                    duration_bits: *duration_bits,
                    transcript: opt_str(*transcript),
                    mime: opt_str(*mime),
                    file_id: opt_str(*file_id),
                }
            },
            ContentPart::VideoFrames(f) => PartModel::VideoFrames(strs_view(f@)),
        }
    }
}

impl ContentPart {
    /// A text part.
    pub fn text(text: &str) -> (r: Self)
        ensures
            r@ == PartModel::Text(text@),
    {
        ContentPart::Text(text.to_owned())
    }

    /// An image part holding raw bytes.
    pub fn image_bytes(data: Vec<u8>) -> (r: Self)
        ensures
            r@ == PartModel::ImageBytes(data@),
    {
        ContentPart::ImageBytes(data)
    }

    /// A copy of this part.
    pub fn duplicate(&self) -> (r: Self)
        ensures
            r@ == self@,
    {
        match self {
            ContentPart::Text(t) => ContentPart::Text(t.clone()),
            ContentPart::ImageBytes(b) => ContentPart::ImageBytes(copy_bytes(b)),
            ContentPart::ImageUrl(u) => ContentPart::ImageUrl(u.clone()),
            ContentPart::AudioBytes { data, duration_bits, transcript, mime, file_id } => {
                ContentPart::AudioBytes {
                    data: copy_bytes(data),
                    duration_bits: *duration_bits,
                    transcript: copy_opt_str(transcript),
                    mime: copy_opt_str(mime),
                    file_id: copy_opt_str(file_id),
                }
            },
            ContentPart::VideoFrames(f) => ContentPart::VideoFrames(copy_strs(f)),
        }
    }
}

/// A tool call requested by the model; `arguments` is the compact JSON text
/// of the call's argument object.
pub struct ToolCall {
    pub id: String,
    pub name: String,
    pub arguments: String,
}

/// The model of a tool call.
pub struct ToolCallModel {
    pub id: Seq<char>,
    pub name: Seq<char>,
    pub arguments: Seq<char>,
}

impl View for ToolCall {
    type V = ToolCallModel;

    open spec fn view(&self) -> ToolCallModel {
        ToolCallModel { id: self.id@, name: self.name@, arguments: self.arguments@ }
    }
}

impl ToolCall {
    /// A copy of this call.
    pub fn duplicate(&self) -> (r: Self)
        ensures
            r@ == self@,
    {
        ToolCall { id: self.id.clone(), name: self.name.clone(), arguments: self.arguments.clone() }
    }
}

/// A message of the conversation history sent to a model.
pub struct ChatMessage {
    pub role: String,
    pub content: Vec<ContentPart>,
    pub tool_calls: Option<Vec<ToolCall>>,
    pub tool_call_id: Option<String>,
}

/// The model of a chat message.
pub struct MessageModel {
    pub role: Seq<char>,
    pub content: Seq<PartModel>,
    pub tool_calls: Option<Seq<ToolCallModel>>,
    pub tool_call_id: Option<Seq<char>>,
}

/// The model of a sequence of parts.
pub open spec fn parts_view(v: Seq<ContentPart>) -> Seq<PartModel> {
    v.map_values(|p: ContentPart| p@)
}

/// The model of a sequence of tool calls.
pub open spec fn calls_view(v: Seq<ToolCall>) -> Seq<ToolCallModel> {
    v.map_values(|c: ToolCall| c@)
}

/// The model of a sequence of messages.
pub open spec fn messages_view(v: Seq<ChatMessage>) -> Seq<MessageModel> {
    v.map_values(|m: ChatMessage| m@)
}

impl View for ChatMessage {
    type V = MessageModel;

    open spec fn view(&self) -> MessageModel {
        MessageModel {
            role: self.role@,
            content: parts_view(self.content@),
            tool_calls: match self.tool_calls {
                Some(c) => Some(calls_view(c@)),
                None => None,
            },
            tool_call_id: opt_str(self.tool_call_id),
        }
    }
}

/// Copies a vector of parts.
pub fn copy_parts(v: &Vec<ContentPart>) -> (r: Vec<ContentPart>)
    ensures
        parts_view(r@) == parts_view(v@),
{
    let mut r: Vec<ContentPart> = Vec::new();
    for i in 0..v.len()
        invariant
            r@.len() == i,
            forall|j: int| 0 <= j < i ==> #[trigger] r@[j]@ == v@[j]@,
    {
        r.push(v[i].duplicate());
    }
    assert(parts_view(r@) =~= parts_view(v@));
    r
}

/// Copies a vector of tool calls.
pub fn copy_calls(v: &Vec<ToolCall>) -> (r: Vec<ToolCall>)
    ensures
        calls_view(r@) == calls_view(v@),
{
    let mut r: Vec<ToolCall> = Vec::new();
    for i in 0..v.len()
        invariant
            r@.len() == i,
            forall|j: int| 0 <= j < i ==> #[trigger] r@[j]@ == v@[j]@,
    {
        r.push(v[i].duplicate());
    }
    assert(calls_view(r@) =~= calls_view(v@));
    r
}

/// The model of a message with the given role and a single text part.
pub open spec fn text_message(role: Seq<char>, text: Seq<char>) -> MessageModel {
    MessageModel {
        role,
        content: seq![PartModel::Text(text)],
        tool_calls: None,
        tool_call_id: None,
    }
}

impl ChatMessage {
    /// A copy of this message.
    pub fn duplicate(&self) -> (r: Self)
        ensures
            r@ == self@,
    {
        ChatMessage {
            role: self.role.clone(),
            content: copy_parts(&self.content),
            tool_calls: match &self.tool_calls {
                Some(c) => Some(copy_calls(c)),
                None => None,
            },
            tool_call_id: copy_opt_str(&self.tool_call_id),
        }
    }

    fn single_text(role: &str, text: &str) -> (r: Self)
        ensures
            r@ == text_message(role@, text@),
    {
        let mut content: Vec<ContentPart> = Vec::new();
        content.push(ContentPart::text(text));
        assert(parts_view(content@) =~= seq![PartModel::Text(text@)]);
        ChatMessage { role: role.to_owned(), content, tool_calls: None, tool_call_id: None }
    }

    /// A system message.
    pub fn system(text: &str) -> (r: Self)
        ensures
            r@ == text_message("system"@, text@),
    {
        Self::single_text("system", text)
    }

    /// A user message.
    pub fn user(text: &str) -> (r: Self)
        ensures
            r@ == text_message("user"@, text@),
    {
        Self::single_text("user", text)
    }

    /// An assistant message.
    pub fn assistant(text: &str) -> (r: Self)
        ensures
            r@ == text_message("assistant"@, text@),
    {
        Self::single_text("assistant", text)
    }

    /// A user message made of several parts.
    pub fn user_multimodal(parts: Vec<ContentPart>) -> (r: Self)
        ensures
            r@ == (MessageModel {
                role: "user"@,
                content: parts_view(parts@),
                tool_calls: None,
                tool_call_id: None,
            }),
    {
        ChatMessage { role: "user".to_owned(), content: parts, tool_calls: None, tool_call_id: None }
    }

    /// An assistant message that requests tool calls.
    pub fn assistant_with_tools(text: &str, tool_calls: Vec<ToolCall>) -> (r: Self)
        ensures
            r@ == (MessageModel {
                role: "assistant"@,
                content: seq![PartModel::Text(text@)],
                tool_calls: Some(calls_view(tool_calls@)),
                tool_call_id: None,
            }),
    {
        let m = Self::single_text("assistant", text);
        ChatMessage { role: m.role, content: m.content, tool_calls: Some(tool_calls), tool_call_id: None }
    }

    /// The result of a tool call, answering the call `tool_call_id`.
    pub fn tool(tool_call_id: &str, content: &str) -> (r: Self)
        ensures
            r@ == (MessageModel {
                role: "tool"@,
                content: seq![PartModel::Text(content@)],
                tool_calls: None,
                tool_call_id: Some(tool_call_id@),
            }),
    {
        let m = Self::single_text("tool", content);
        ChatMessage {
            role: m.role,
            content: m.content,
            tool_calls: None,
            tool_call_id: Some(tool_call_id.to_owned()),
        }
    }
}

} // verus!
