//! Plain data exchanged between the Git layer, the AI assistant and the frontend.
use vstd::prelude::*;

verus! {

/// One commit as the frontend shows it.
#[derive(Clone)]
pub struct CommitInfo {
    pub hash: String,
    pub short_hash: String,
    pub message: String,
    pub author: String,
    pub email: String,
    pub timestamp: String,
}

/// The change to one file: its path, its patch text and its added and deleted line counts.
#[derive(Clone)]
pub struct DiffInfo {
    pub file: String,
    pub patch: String,
    pub added: i32,
    pub deleted: i32,
}

/// One message of the chat history sent by the frontend.
#[derive(Clone)]
pub struct InputMessage {
    pub role: String,
    pub content: String,
}

/// What the user is looking at while chatting: the two branches being compared.
#[derive(Clone)]
pub struct ChatContext {
    pub base_branch: String,
    pub compare_branch: String,
    pub has_diff: bool,
}

/// A chat request: the history and the optional viewing context.
pub struct ChatRequest {
    pub messages: Vec<InputMessage>,
    pub context: Option<ChatContext>,
}

/// A request to analyze a diff with a question.
pub struct AnalyzeRequest {
    pub diff: Vec<DiffInfo>,
    pub prompt: String,
}

/// The longest chat history a request may carry.
pub const MAX_CHAT_MESSAGES: usize = 50;

impl ChatRequest {
    /// Rejects a history longer than `MAX_CHAT_MESSAGES` messages.
    pub fn check_history(&self) -> (r: Result<(), String>)
        ensures
            r is Ok <==> self.messages.len() <= MAX_CHAT_MESSAGES,
            r matches Err(e) ==> e@ == "消息历史过长，最多支持 50 条"@,
    {
        if self.messages.len() > MAX_CHAT_MESSAGES {
            Err("消息历史过长，最多支持 50 条".to_string())
        } else {
            Ok(())
        }
    }
}

} // verus!
