//! GitX core: the verified logic of an AI-assisted Git diff browser.
pub mod ai;
pub mod model;
pub mod text;

pub use model::{AnalyzeRequest, ChatContext, ChatRequest, CommitInfo, DiffInfo, InputMessage};
pub mod sse;
pub mod agent;
pub mod json;
pub mod git;
pub mod intent;
pub mod tools;
