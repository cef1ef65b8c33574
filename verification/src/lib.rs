//! A transcript layout engine for a chat client: it turns an ordered set of
//! chat messages plus viewport constraints into a deterministic sequence of
//! renderable rows (date separators, message rows, reaction rows, an unread
//! marker), and maintains a clamped cursor over that sequence.

pub mod chat_box;
pub mod color;
pub mod laws;
pub mod message;
pub mod rows;
pub mod text;
