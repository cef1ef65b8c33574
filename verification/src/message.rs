//! The chat message as the layout engine reads it: plain values only.
//! The surrounding application converts its backend's message objects into
//! this type, precomputing the date and time labels of each timestamp.

use vstd::prelude::*;

verus! {

/// One chat message, reduced to the values the layout engine reads.
pub struct ChatMessage {
    /// Unique identifier; the transcript is ordered by it.
    pub id: u64,
    /// The message's date, already formatted with the configured format.
    pub date_label: String,
    /// The message's time of day, already formatted.
    pub time_label: String,
    /// Stable identifier of the author, used for color assignment.
    pub actor_id: String,
    /// Display name of the author.
    pub name: String,
    /// The message body.
    pub body: String,
    /// The message is itself a reaction.
    pub is_reaction: bool,
    /// The message is an edit note.
    pub is_edit_note: bool,
    /// The message is a deleted comment.
    pub is_comment_deleted: bool,
    /// Summary of the reactions to this message; empty when there are none.
    pub reactions: String,
}

/// The mathematical view of a [`ChatMessage`].
#[verifier::ext_equal]
pub ghost struct MsgModel {
    pub id: u64,
    pub date_label: Seq<char>,
    pub time_label: Seq<char>,
    pub actor_id: Seq<char>,
    pub name: Seq<char>,
    pub body: Seq<char>,
    pub is_reaction: bool,
    pub is_edit_note: bool,
    pub is_comment_deleted: bool,
    pub reactions: Seq<char>,
}

impl View for ChatMessage {
    type V = MsgModel;

    open spec fn view(&self) -> MsgModel {
        MsgModel {
            id: self.id,
            date_label: self.date_label@,
            time_label: self.time_label@,
            actor_id: self.actor_id@,
            name: self.name@,
            body: self.body@,
            is_reaction: self.is_reaction,
            is_edit_note: self.is_edit_note,
            is_comment_deleted: self.is_comment_deleted,
            reactions: self.reactions@,
        }
    }
}

impl DeepView for ChatMessage {
    type V = MsgModel;

    open spec fn deep_view(&self) -> MsgModel {
        self@
    }
}

/// A message is kept out of the transcript when any of its exclusion
/// flags holds.
pub open spec fn filtered_out(m: MsgModel) -> bool {
    m.is_reaction || m.is_edit_note || m.is_comment_deleted
}

} // verus!
