//! The transcript view: the row sequence of a room, a clamped selection
//! index over it, and the last-applied body column width.

use vstd::prelude::*;
use vstd::string::*;
use crate::message::ChatMessage;
use crate::rows::{build_rows, spec_rows, Row, RowModel, NAME_WIDTH, TIME_WIDTH};

verus! {

/// The smallest body column width ever used; narrower viewports clamp to it.
pub const MIN_BODY_WIDTH: u16 = 10;

/// The transcript view of one room.
pub struct ChatBox {
    messages: Vec<Row>,
    current_index: usize,
    width: u16,
    date_format: String,
}

/// The mathematical view of a [`ChatBox`].
#[verifier::ext_equal]
pub ghost struct ChatBoxModel {
    pub rows: Seq<RowModel>,
    pub current_index: usize,
    pub width: u16,
    pub date_format: Seq<char>,
}

impl View for ChatBox {
    type V = ChatBoxModel;

    closed spec fn view(&self) -> ChatBoxModel {
        ChatBoxModel {
            rows: self.messages.deep_view(),
            current_index: self.current_index,
            width: self.width,
            date_format: self.date_format@,
        }
    }
}

/// The body column width a total viewport width leaves after the fixed
/// time and name columns and the spacing between the three columns,
/// floored at [`MIN_BODY_WIDTH`].
pub open spec fn spec_body_width(total: u16) -> u16 {
    if total >= TIME_WIDTH + 2 + NAME_WIDTH + MIN_BODY_WIDTH {
        (total - TIME_WIDTH - 2 - NAME_WIDTH) as u16
    } else {
        MIN_BODY_WIDTH
    }
}

/// The selection index after a rebuild: it stays where it was when that
/// is still a row, and is clamped onto the sequence otherwise.
pub open spec fn spec_clamp_index(index: usize, len: int) -> usize {
    if len == 0 {
        0usize
    } else if index < len {
        index
    } else {
        (len - 1) as usize
    }
}

/// Relies on `chrono::Local::now` and chrono's strftime parsing and
/// formatting: yields the current local date and time rendered with
/// `fmt`, or `None` when `fmt` is not a valid strftime format string.
/// The result depends on the clock, so nothing more is stated of it.
#[verifier::external_body]
fn local_now_label(fmt: &str) -> (r: Option<String>) {
    match chrono::format::StrftimeItems::new(fmt).parse() {
        Ok(items) => Some(
            chrono::Local::now().format_with_items(items.into_iter()).to_string(),
        ),
        Err(_) => None,
    }
}

impl ChatBox {
    /// The selection index lies on the row sequence whenever that is
    /// non-empty, and rests at zero when it is empty; the body column
    /// width never falls under the minimum.
    pub open spec fn wf(&self) -> bool {
        &&& self@.rows.len() == 0 ==> self@.current_index == 0
        &&& self@.rows.len() > 0 ==> (self@.current_index as int) < self@.rows.len()
        &&& self@.width >= MIN_BODY_WIDTH
    }

    /// An empty transcript view using `date_format` for date labels.
    pub fn new(date_format: String) -> (r: ChatBox)
        ensures
            r.wf(),
            r@.rows == Seq::<RowModel>::empty(),
            r@.current_index == 0,
            r@.width == MIN_BODY_WIDTH,
            r@.date_format == date_format@,
    {
        let r = ChatBox {
            messages: Vec::new(),
            current_index: 0,
            width: MIN_BODY_WIDTH,
            date_format,
        };
        proof {
            assert(r@.rows =~= Seq::<RowModel>::empty());
        }
        r
    }

    /// Rebuilds the row sequence in full from the given message set and
    /// unread state, at the current width.  The date labels are compared
    /// against today's, which is read from the clock; the rebuilt rows
    /// are the layout of the messages for some such label.  The selection
    /// index survives only as far as it still lies on the new sequence.
    pub fn update_messages(
        &mut self,
        messages: &Vec<ChatMessage>,
        has_unread: bool,
        last_read_id: u64,
    )
        requires
            old(self).wf(),
        ensures
            final(self).wf(),
            exists|today: Seq<char>|
                final(self)@.rows == spec_rows(
                    messages.deep_view(),
                    has_unread,
                    last_read_id,
                    old(self)@.width as int,
                    today,
                ),
            final(self)@.width == old(self)@.width,
            final(self)@.date_format == old(self)@.date_format,
            final(self)@.current_index == spec_clamp_index(
                old(self)@.current_index,
                final(self)@.rows.len() as int,
            ),
    {
        let today = match local_now_label(self.date_format.as_str()) {
            Some(t) => t,
            None => String::new(),
        };
        let rows = build_rows(
            messages,
            has_unread,
            last_read_id,
            self.width as usize,
            today.as_str(),
        );
        self.messages = rows;
        let n = self.messages.len();
        if n == 0 {
            self.current_index = 0;
        } else if self.current_index >= n {
            self.current_index = n - 1;
        }
        proof {
            assert(self@.rows == spec_rows(
                messages.deep_view(),
                has_unread,
                last_read_id,
                old(self)@.width as int,
                today@,
            ));
        }
    }

    /// Applies a new total viewport width: when the body column width it
    /// yields differs from the current one, the width is stored and the
    /// row sequence rebuilt; otherwise nothing changes.
    pub fn set_width_and_update_if_change(
        &mut self,
        width: u16,
        messages: &Vec<ChatMessage>,
        has_unread: bool,
        last_read_id: u64,
    )
        requires
            old(self).wf(),
        ensures
            final(self).wf(),
            final(self)@.width == spec_body_width(width),
            final(self)@.date_format == old(self)@.date_format,
            spec_body_width(width) == old(self)@.width ==> *final(self) == *old(self),
            spec_body_width(width) != old(self)@.width ==> exists|today: Seq<char>|
                final(self)@.rows == spec_rows(
                    messages.deep_view(),
                    has_unread,
                    last_read_id,
                    spec_body_width(width) as int,
                    today,
                ),
            spec_body_width(width) != old(self)@.width ==> final(self)@.current_index
                == spec_clamp_index(
                old(self)@.current_index,
                final(self)@.rows.len() as int,
            ),
    {
        let new_width: u16 = if width >= TIME_WIDTH + 2 + NAME_WIDTH + MIN_BODY_WIDTH {
            width - TIME_WIDTH - 2 - NAME_WIDTH
        } else {
            MIN_BODY_WIDTH
        };
        if new_width != self.width {
            self.width = new_width;
            self.update_messages(messages, has_unread, last_read_id);
        }
    }

    /// Selects the last row, or rests at zero on an empty sequence.
    pub fn select_last_message(&mut self)
        requires
            old(self).wf(),
        ensures
            final(self).wf(),
            final(self)@.rows == old(self)@.rows,
            final(self)@.width == old(self)@.width,
            final(self)@.date_format == old(self)@.date_format,
            old(self)@.rows.len() == 0 ==> final(self)@.current_index == 0,
            old(self)@.rows.len() > 0 ==> final(self)@.current_index as int == old(
                self,
            )@.rows.len() - 1,
    {
        let n = self.messages.len();
        self.current_index = if n == 0 {
            0
        } else {
            n - 1
        };
    }

    /// Moves the selection one row up, saturating at the first row; a
    /// no-op on an empty sequence.
    pub fn select_up(&mut self)
        requires
            old(self).wf(),
        ensures
            final(self).wf(),
            final(self)@.rows == old(self)@.rows,
            final(self)@.width == old(self)@.width,
            final(self)@.date_format == old(self)@.date_format,
            old(self)@.rows.len() == 0 ==> *final(self) == *old(self),
            old(self)@.rows.len() > 0 ==> final(self)@.current_index as int == (if old(
                self,
            )@.current_index > 0 {
                old(self)@.current_index - 1
            } else {
                0int
            }),
    {
        if self.messages.len() > 0 && self.current_index > 0 {
            self.current_index = self.current_index - 1;
        }
    }

    /// Moves the selection one row down, saturating at the last row; a
    /// no-op on an empty sequence.
    pub fn select_down(&mut self)
        requires
            old(self).wf(),
        ensures
            final(self).wf(),
            final(self)@.rows == old(self)@.rows,
            final(self)@.width == old(self)@.width,
            final(self)@.date_format == old(self)@.date_format,
            old(self)@.rows.len() == 0 ==> *final(self) == *old(self),
            old(self)@.rows.len() > 0 ==> final(self)@.current_index as int == (if old(
                self,
            )@.current_index + 1 < old(self)@.rows.len() {
                old(self)@.current_index + 1
            } else {
                old(self)@.rows.len() - 1
            }),
    {
        let n = self.messages.len();
        if n > 0 && self.current_index + 1 < n {
            self.current_index = self.current_index + 1;
        }
    }

    /// The current row sequence.
    pub fn rows(&self) -> (r: &Vec<Row>)
        ensures
            r.deep_view() == self@.rows,
    {
        &self.messages
    }

    /// The current selection index.
    pub fn current_index(&self) -> (r: usize)
        ensures
            r == self@.current_index,
    {
        self.current_index
    }

    /// The current body column width.
    pub fn width(&self) -> (r: u16)
        ensures
            r == self@.width,
    {
        self.width
    }
}

} // verus!
