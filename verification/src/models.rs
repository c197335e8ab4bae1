//! Records kept in the local database: chat sessions and messages, reply
//! segments, workflows and the WeChat account, session and message rows.

use vstd::prelude::*;
use crate::json::JsonValue;
use crate::chat::opt_str;

verus! {

/// A chat session with a persona.
pub struct Session {
    pub id: String,
    pub persona_id: String,
    pub title: String,
    pub summary: Option<String>,
    pub is_pinned: bool,
    pub created_at: String,
    pub updated_at: String,
}

/// The emotion recognised in a message; valence and arousal are kept as the
/// bit patterns of their `f64` values.
pub struct EmotionTag {
    pub emotion: String,
    pub valence_bits: u64,
    pub arousal_bits: u64,
}

/// A stored chat message.
pub struct Message {
    pub id: String,
    pub session_id: String,
    pub role: String,
    pub content: String,
    pub content_parts: Option<String>,
    pub segments: Option<Vec<MessageSegment>>,
    pub emotion_tag: Option<EmotionTag>,
    pub tool_calls: Option<String>,
    pub created_at: String,
}

/// The kind of one segment of a multi-part reply.
#[derive(Clone, Copy, Debug, PartialEq, Eq, Structural)]
pub enum SegmentType {
    Text,
    Code,
    Image,
    Think,
    ToolResult,
}

/// Where a segment's content came from.
pub struct MessageSegmentSource {
    pub name: String,
    pub url: Option<String>,
}

/// One segment of a multi-part reply.
pub struct MessageSegment {
    pub segment_type: SegmentType,
    pub content: Option<String>,
    pub language: Option<String>,
    pub image_url: Option<String>,
    pub image_bytes: Option<Vec<u8>>,
    pub tool_call_id: Option<String>,
    pub source: Option<MessageSegmentSource>,
    pub collapsed: Option<bool>,
}

/// What starts a workflow.
pub enum WorkflowTrigger {
    Message { pattern: Option<String> },
    Scheduled { cron: String },
    Event { event_name: String },
}

/// A workflow with its trigger and actions as JSON documents.
pub struct Workflow {
    pub id: String,
    pub persona_id: String,
    pub name: String,
    pub description: Option<String>,
    pub enabled: bool,
    pub trigger: JsonValue,
    pub actions: JsonValue,
    pub created_at: String,
    pub updated_at: String,
}

/// A persona: who the companion is and how it behaves.
pub struct PersonaDefinition {
    pub id: String,
    pub name: String,
    pub version: String,
    pub appearance: JsonValue,
    pub voice: JsonValue,
    pub llm: JsonValue,
    pub system_prompt: String,
    pub personality: Vec<String>,
    pub greeting: String,
    pub memory_policy: JsonValue,
    pub skills: Vec<String>,
    pub knowledge_bases: Vec<String>,
    pub workflows: Option<Vec<Workflow>>,
    pub emotion_profile: JsonValue,
    pub multimodal: JsonValue,
    pub wechat: Option<JsonValue>,
}

/// A stored persona row.
pub struct PersonaRow {
    pub id: String,
    pub name: String,
    pub version: String,
    pub definition: PersonaDefinition,
    pub is_active: bool,
}

/// A workflow as stored, with its trigger and actions as JSON text.
pub struct WorkflowRow {
    pub id: String,
    pub persona_id: String,
    pub name: String,
    pub description: Option<String>,
    pub enabled: bool,
    pub trigger_json: String,
    pub actions_json: String,
    pub created_at: String,
    pub updated_at: String,
}

/// A WeChat account bound to the application.
pub struct WeChatAccount {
    pub id: String,
    pub user_id: Option<String>,
    pub nickname: Option<String>,
    pub avatar_url: Option<String>,
    pub has_bot_token: bool,
    pub get_updates_buf: Option<String>,
    pub persona_id: Option<String>,
    pub status: String,
    pub last_error: Option<String>,
    pub last_login_at: Option<String>,
    pub last_sync_at: Option<String>,
    pub created_at: String,
    pub updated_at: String,
}

/// An account as the settings page shows it, with its pending login QR
/// code.
pub struct WeChatAccountView {
    pub account: WeChatAccount,
    pub qrcode_url: Option<String>,
    pub qrcode_status: Option<String>,
}

/// The application's name, version and data directory.
pub struct AppInfo {
    pub name: String,
    pub version: String,
    pub data_dir: String,
}

/// A WeChat conversation with one peer or room.
pub struct WeChatSession {
    pub id: String,
    pub account_id: String,
    pub peer_id: String,
    pub peer_type: String,
    pub peer_name: Option<String>,
    pub peer_avatar: Option<String>,
    pub last_msg_preview: Option<String>,
    pub last_msg_at: Option<String>,
    pub unread_count: i64,
    pub is_pinned: bool,
    pub is_muted: bool,
    pub created_at: String,
    pub updated_at: String,
}

/// A WeChat message, inbound or outbound.
pub struct WeChatMessage {
    pub id: String,
    pub account_id: String,
    pub session_id: String,
    pub remote_msg_id: Option<String>,
    pub direction: String,
    pub msg_type: String,
    pub content: Option<String>,
    pub media_url: Option<String>,
    pub media_local_path: Option<String>,
    pub sender_id: Option<String>,
    pub sender_name: Option<String>,
    pub context_token: Option<String>,
    pub status: String,
    pub error: Option<String>,
    pub created_at: String,
}

/// A login QR code issued for an account.
pub struct WeChatQrCode {
    pub account_id: String,
    pub qrcode_url: String,
    pub qrcode_key: String,
    pub expires_in: i64,
}

/// The state of a WeChat login as shown to the user.
pub struct WeChatLoginStatus {
    pub status: String,
    pub account_id: String,
    pub bot_token: Option<String>,
    pub user_id: Option<String>,
    pub nickname: Option<String>,
    pub avatar_url: Option<String>,
    pub message: Option<String>,
}

/// The model of a WeChat message row.
pub struct WeChatMessageModel {
    pub id: Seq<char>,
    pub account_id: Seq<char>,
    pub session_id: Seq<char>,
    pub remote_msg_id: Option<Seq<char>>,
    pub direction: Seq<char>,
    pub msg_type: Seq<char>,
    pub content: Option<Seq<char>>,
    pub media_url: Option<Seq<char>>,
    pub media_local_path: Option<Seq<char>>,
    pub sender_id: Option<Seq<char>>,
    pub sender_name: Option<Seq<char>>,
    pub context_token: Option<Seq<char>>,
    pub status: Seq<char>,
    pub error: Option<Seq<char>>,
    pub created_at: Seq<char>,
}

impl View for WeChatMessage {
    type V = WeChatMessageModel;

    open spec fn view(&self) -> WeChatMessageModel {
        WeChatMessageModel {
            id: self.id@,
            account_id: self.account_id@,
            session_id: self.session_id@,
            remote_msg_id: opt_str(self.remote_msg_id),
            direction: self.direction@,
            msg_type: self.msg_type@,
            content: opt_str(self.content),
            media_url: opt_str(self.media_url),
            media_local_path: opt_str(self.media_local_path),
            sender_id: opt_str(self.sender_id),
            sender_name: opt_str(self.sender_name),
            context_token: opt_str(self.context_token),
            status: self.status@,
            error: opt_str(self.error),
            created_at: self.created_at@,
        }
    }
}

/// The model of a login state.
pub struct LoginStatusModel {
    pub status: Seq<char>,
    pub account_id: Seq<char>,
    pub bot_token: Option<Seq<char>>,
    pub user_id: Option<Seq<char>>,
    pub nickname: Option<Seq<char>>,
    pub avatar_url: Option<Seq<char>>,
    pub message: Option<Seq<char>>,
}

impl View for WeChatLoginStatus {
    type V = LoginStatusModel;

    open spec fn view(&self) -> LoginStatusModel {
        LoginStatusModel {
            status: self.status@,
            account_id: self.account_id@,
            bot_token: opt_str(self.bot_token),
            user_id: opt_str(self.user_id),
            nickname: opt_str(self.nickname),
            avatar_url: opt_str(self.avatar_url),
            message: opt_str(self.message),
        }
    }
}

} // verus!
