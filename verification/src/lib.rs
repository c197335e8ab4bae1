//! Verified core logic of an AI companion desktop application: token
//! budgeting, message segmentation, memory merging, skill definitions and
//! the small decision rules that surround chat, WeChat and proactive
//! greetings.

pub mod builtin;
pub mod chat;
pub mod context;
pub mod ilink;
pub mod json;
pub mod memory;
pub mod model_test;
pub mod modelhub;
pub mod models;
pub mod perception;
pub mod pipeline;
pub mod plugin;
pub mod proactive;
pub mod rag;
pub mod reminder;
pub mod providers;
pub mod relationship;
pub mod segments;
pub mod skill;
pub mod stream;
pub mod text;
pub mod tokens;
pub mod turns;
pub mod wechat;
pub mod wechat_flow;
pub mod workflow;
