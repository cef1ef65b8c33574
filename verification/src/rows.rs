//! The renderable rows of the transcript and the layout engine that
//! derives them from an ordered message set.

use vstd::prelude::*;
use vstd::string::*;
use crate::color::{author_color, spec_author_color, Rgb};
use crate::message::{filtered_out, ChatMessage, MsgModel};
use crate::text::{printable_ascii, wrap_of, wrap_text, wrap_width, wrapped_body};

verus! {

/// Width of the fixed time column.
pub const TIME_WIDTH: u16 = 5;

/// Width of the fixed name column.
pub const NAME_WIDTH: u16 = 20;

/// One renderable unit of the transcript.
#[derive(Debug, Clone, PartialEq, Eq)]
pub enum Row {
    /// Announces the calendar date of the messages that follow.  `label`
    /// is the displayed text (prefixed when the date is today's), `date`
    /// the plain date label the separator stands for.
    DateSeparator { label: String, date: String },
    /// One message: its time-of-day label, the color and wrapped lines of
    /// the author's name, the wrapped body lines, and the row height.
    MessageRow {
        id: u64,
        time_label: String,
        name_color: Rgb,
        name_lines: Vec<String>,
        body_lines: Vec<String>,
        height: u16,
    },
    /// Summary of the reactions to the message row directly above.
    ReactionRow { summary: String },
    /// Marks the boundary between read and unread messages.
    UnreadMarker { label: String },
}

/// The mathematical view of a [`Row`].
#[verifier::ext_equal]
pub ghost enum RowModel {
    DateSeparator { label: Seq<char>, date: Seq<char> },
    Message {
        id: u64,
        time: Seq<char>,
        color: Rgb,
        name_lines: Seq<Seq<char>>,
        body_lines: Seq<Seq<char>>,
        height: u16,
    },
    Reaction { summary: Seq<char> },
    Unread { label: Seq<char> },
}

impl View for Row {
    type V = RowModel;

    open spec fn view(&self) -> RowModel {
        match self {
            Row::DateSeparator { label, date } => RowModel::DateSeparator {
                label: label@,
                date: date@,
            },
            Row::MessageRow { id, time_label, name_color, name_lines, body_lines, height } => RowModel::Message {
                id: *id,
                time: time_label@,
                color: *name_color,
                name_lines: name_lines.deep_view(),
                body_lines: body_lines.deep_view(),
                height: *height,
            },
            Row::ReactionRow { summary } => RowModel::Reaction { summary: summary@ },
            Row::UnreadMarker { label } => RowModel::Unread { label: label@ },
        }
    }
}

impl DeepView for Row {
    type V = RowModel;

    open spec fn deep_view(&self) -> RowModel {
        self@
    }
}

/// The displayed label of a date separator: the date itself, prefixed
/// with a marker when it is today's date.
pub open spec fn spec_sep_label(date: Seq<char>, today: Seq<char>) -> Seq<char> {
    if date == today {
        "Today! "@ + date
    } else {
        date
    }
}

/// A row height never exceeds what the host toolkit can represent: wider
/// line counts saturate instead of overflowing.
pub open spec fn spec_clamp_height(n: int) -> u16 {
    if n > u16::MAX {
        u16::MAX
    } else {
        n as u16
    }
}

/// The message row a single message produces.
pub open spec fn message_row_model(m: MsgModel, width: int) -> RowModel {
    let name_lines = wrap_of(m.name, NAME_WIDTH as int);
    let body_lines = wrapped_body(m.body, width);
    let taller = if name_lines.len() >= body_lines.len() {
        name_lines.len()
    } else {
        body_lines.len()
    };
    RowModel::Message {
        id: m.id,
        time: m.time_label,
        color: spec_author_color(m.actor_id),
        name_lines: name_lines,
        body_lines: body_lines,
        height: spec_clamp_height(taller as int),
    }
}

/// The displayed text of the unread marker.
pub open spec fn unread_label() -> Seq<char> {
    "+++ LAST READ +++"@
}

/// All the rows one message contributes to the transcript, given the date
/// label `last` of the previously shown message: a date separator when the
/// date changes, the message row itself, a reaction row when the message
/// has reactions, and the unread marker when the room has unread messages
/// and this message is the last read one.  A filtered-out message
/// contributes nothing.
pub open spec fn msg_rows(
    m: MsgModel,
    last: Option<Seq<char>>,
    has_unread: bool,
    last_read_id: u64,
    width: int,
    today: Seq<char>,
) -> Seq<RowModel> {
    if filtered_out(m) {
        Seq::empty()
    } else {
        (if last != Some(m.date_label) {
            seq![
                RowModel::DateSeparator {
                    label: spec_sep_label(m.date_label, today),
                    date: m.date_label,
                },
            ]
        } else {
            Seq::empty()
        }) + seq![message_row_model(m, width)] + (if m.reactions.len() > 0 {
            seq![RowModel::Reaction { summary: m.reactions }]
        } else {
            Seq::empty()
        }) + (if has_unread && m.id == last_read_id {
            seq![RowModel::Unread { label: unread_label() }]
        } else {
            Seq::empty()
        })
    }
}

/// The date label against which the next message is compared, after `m`
/// has been handled.
pub open spec fn next_last(m: MsgModel, last: Option<Seq<char>>) -> Option<Seq<char>> {
    if filtered_out(m) {
        last
    } else {
        Some(m.date_label)
    }
}

/// The transcript rows of `msgs`, with `last` the date label shown before
/// them.
pub open spec fn spec_rows_from(
    msgs: Seq<MsgModel>,
    last: Option<Seq<char>>,
    has_unread: bool,
    last_read_id: u64,
    width: int,
    today: Seq<char>,
) -> Seq<RowModel>
    decreases msgs.len(),
{
    if msgs.len() == 0 {
        Seq::empty()
    } else {
        msg_rows(msgs[0], last, has_unread, last_read_id, width, today) + spec_rows_from(
            msgs.skip(1),
            next_last(msgs[0], last),
            has_unread,
            last_read_id,
            width,
            today,
        )
    }
}

/// The full transcript of `msgs`: rebuilding is a pure function of the
/// message set, the unread state, the body column width and today's date
/// label.
pub open spec fn spec_rows(
    msgs: Seq<MsgModel>,
    has_unread: bool,
    last_read_id: u64,
    width: int,
    today: Seq<char>,
) -> Seq<RowModel> {
    spec_rows_from(msgs, None, has_unread, last_read_id, width, today)
}

/// Every name line of a message row fits the name column and every body
/// line fits the body column; other rows are unconstrained.
pub open spec fn row_lines_bounded(r: RowModel, name_w: int, body_w: int) -> bool {
    match r {
        RowModel::Message { name_lines, body_lines, .. } => (forall|i: int|
            0 <= i < name_lines.len() ==> (#[trigger] name_lines[i]).len() <= name_w) && (forall|
            i: int,
        |
            0 <= i < body_lines.len() ==> (#[trigger] body_lines[i]).len() <= body_w),
        _ => true,
    }
}

/// Appends to `rows` everything message `m` contributes.
fn push_message_rows(
    rows: &mut Vec<Row>,
    m: &ChatMessage,
    last: &Option<String>,
    has_unread: bool,
    last_read_id: u64,
    width: usize,
    today: &String,
)
    requires
        width >= 1,
    ensures
        final(rows).deep_view() == old(rows).deep_view() + msg_rows(
            m@,
            last.deep_view(),
            has_unread,
            last_read_id,
            width as int,
            today@,
        ),
        printable_ascii(m@.name) && printable_ascii(m@.body) ==> forall|k: int|
            old(rows).deep_view().len() <= k < final(rows).deep_view().len()
                ==> row_lines_bounded(
                #[trigger] final(rows).deep_view()[k],
                NAME_WIDTH as int,
                width as int,
            ),
{
    let ghost pre = rows.deep_view();
    let ghost mm = m@;
    if m.is_reaction || m.is_edit_note || m.is_comment_deleted {
        proof {
            assert(rows.deep_view() =~= pre + msg_rows(
                mm,
                last.deep_view(),
                has_unread,
                last_read_id,
                width as int,
                today@,
            ));
        }
        return ;
    }
    let same_date = match last {
        Some(d) => d.eq(&m.date_label),
        None => false,
    };
    if !same_date {
        let label = if m.date_label.eq(today) {
            let mut l = String::from_str("Today! ");
            l.append(m.date_label.as_str());
            l
        } else {
            m.date_label.clone()
        };
        rows.push(Row::DateSeparator { label, date: m.date_label.clone() });
    }
    let ghost after_sep = rows.deep_view();
    let name_lines = wrap_width(m.name.as_str(), NAME_WIDTH as usize);
    let body_lines = wrap_text(m.body.as_str(), width);
    let color = author_color(m.actor_id.as_str());
    let nl = name_lines.len();
    let bl = body_lines.len();
    let taller: usize = if nl >= bl {
        nl
    } else {
        bl
    };
    let height: u16 = if taller > u16::MAX as usize {
        u16::MAX
    } else {
        taller as u16
    };
    let ghost row_model = message_row_model(mm, width as int);
    rows.push(
        Row::MessageRow {
            id: m.id,
            time_label: m.time_label.clone(),
            name_color: color,
            name_lines,
            body_lines,
            height,
        },
    );
    proof {
        assert(rows.deep_view() =~= after_sep + seq![row_model]);
    }
    let ghost after_msg = rows.deep_view();
    if !m.reactions.as_str().is_empty() {
        rows.push(Row::ReactionRow { summary: m.reactions.clone() });
        proof {
            assert(rows.deep_view() =~= after_msg + seq![
                RowModel::Reaction { summary: mm.reactions },
            ]);
        }
    }
    let ghost after_reaction = rows.deep_view();
    if has_unread && m.id == last_read_id {
        rows.push(Row::UnreadMarker { label: String::from_str("+++ LAST READ +++") });
        proof {
            assert(rows.deep_view() =~= after_reaction + seq![
                RowModel::Unread { label: unread_label() },
            ]);
        }
    }
    proof {
        let ghost lastv = last.deep_view();
        if !same_date {
            assert(after_sep =~= pre + seq![
                RowModel::DateSeparator {
                    label: spec_sep_label(mm.date_label, today@),
                    date: mm.date_label,
                },
            ]);
        } else {
            assert(after_sep =~= pre);
        }
        assert(rows.deep_view() =~= pre + msg_rows(
            mm,
            lastv,
            has_unread,
            last_read_id,
            width as int,
            today@,
        ));
        if printable_ascii(mm.name) && printable_ascii(mm.body) {
            assert forall|k: int|
                pre.len() <= k < rows.deep_view().len() implies row_lines_bounded(
                #[trigger] rows.deep_view()[k],
                NAME_WIDTH as int,
                width as int,
            ) by {
                if rows.deep_view()[k] is Message {
                    assert(rows.deep_view()[k] == row_model);
                }
            }
        }
    }
}

/// Rebuilds the transcript: filters the messages, groups them under date
/// separators, wraps names and bodies, and annotates reactions and the
/// unread boundary.  The result is a pure function of the arguments.
pub fn build_rows(
    messages: &Vec<ChatMessage>,
    has_unread: bool,
    last_read_id: u64,
    width: usize,
    today_label: &str,
) -> (rows: Vec<Row>)
    requires
        width >= 1,
    ensures
        rows.deep_view() == spec_rows(
            messages.deep_view(),
            has_unread,
            last_read_id,
            width as int,
            today_label@,
        ),
        (forall|j: int|
            0 <= j < messages.deep_view().len() ==> printable_ascii(
                (#[trigger] messages.deep_view()[j]).name,
            ) && printable_ascii(messages.deep_view()[j].body)) ==> forall|k: int|
            0 <= k < rows.deep_view().len() ==> row_lines_bounded(
                #[trigger] rows.deep_view()[k],
                NAME_WIDTH as int,
                width as int,
            ),
{
    let today = today_label.to_owned();
    let mut rows: Vec<Row> = Vec::new();
    let mut last: Option<String> = None;
    let mut i: usize = 0;
    proof {
        assert(messages.deep_view().skip(0) =~= messages.deep_view());
        assert(rows.deep_view() + spec_rows_from(
            messages.deep_view(),
            None,
            has_unread,
            last_read_id,
            width as int,
            today@,
        ) =~= spec_rows(
            messages.deep_view(),
            has_unread,
            last_read_id,
            width as int,
            today@,
        ));
    }
    while i < messages.len()
        invariant
            i <= messages.len(),
            width >= 1,
            today@ == today_label@,
            messages.deep_view().len() == messages.len(),
            spec_rows(messages.deep_view(), has_unread, last_read_id, width as int, today@)
                =~= rows.deep_view() + spec_rows_from(
                messages.deep_view().skip(i as int),
                last.deep_view(),
                has_unread,
                last_read_id,
                width as int,
                today@,
            ),
            (forall|j: int|
                0 <= j < messages.deep_view().len() ==> printable_ascii(
                    (#[trigger] messages.deep_view()[j]).name,
                ) && printable_ascii(messages.deep_view()[j].body)) ==> forall|k: int|
                0 <= k < rows.deep_view().len() ==> row_lines_bounded(
                    #[trigger] rows.deep_view()[k],
                    NAME_WIDTH as int,
                    width as int,
                ),
        decreases messages.len() - i,
    {
        let m = &messages[i];
        let ghost pre = rows.deep_view();
        push_message_rows(&mut rows, m, &last, has_unread, last_read_id, width, &today);
        if !(m.is_reaction || m.is_edit_note || m.is_comment_deleted) {
            last = Some(m.date_label.clone());
        }
        proof {
            let ghost md = messages.deep_view();
            assert(md.skip(i as int)[0] == md[i as int]);
            assert(md.skip(i as int).skip(1) =~= md.skip(i as int + 1));
            assert(m@ == md[i as int]);
        }
        i = i + 1;
    }
    proof {
        assert(messages.deep_view().skip(messages.len() as int) =~= Seq::<MsgModel>::empty());
        assert(rows.deep_view() =~= rows.deep_view() + Seq::<RowModel>::empty());
    }
    rows
}

/// The three table cells a row renders into: time, name, body.  Rows
/// other than message rows show their text in the body column alone.
pub open spec fn spec_row_cells(r: RowModel) -> (Seq<char>, Seq<Seq<char>>, Seq<Seq<char>>) {
    match r {
        RowModel::DateSeparator { label, .. } => (
            Seq::empty(),
            Seq::empty(),
            seq![label],
        ),
        RowModel::Message { time, name_lines, body_lines, .. } => (time, name_lines, body_lines),
        RowModel::Reaction { summary } => (Seq::empty(), Seq::empty(), seq![summary]),
        RowModel::Unread { label } => (Seq::empty(), Seq::empty(), seq![label]),
    }
}

/// Maps a row to its three table cells for drawing.
pub fn row_cells(row: &Row) -> (cells: (String, Vec<String>, Vec<String>))
    ensures
        cells.0@ == spec_row_cells(row@).0,
        cells.1.deep_view() == spec_row_cells(row@).1,
        cells.2.deep_view() == spec_row_cells(row@).2,
{
    match row {
        Row::DateSeparator { label, .. } => {
            let mut body: Vec<String> = Vec::new();
            body.push(label.clone());
            let r = (String::new(), Vec::new(), body);
            proof {
                assert(r.1.deep_view() =~= spec_row_cells(row@).1);
                assert(r.2.deep_view() =~= spec_row_cells(row@).2);
            }
            r
        },
        Row::MessageRow { time_label, name_lines, body_lines, .. } => {
            let r = (time_label.clone(), name_lines.clone(), body_lines.clone());
            proof {
                assert(r.1.deep_view() =~= spec_row_cells(row@).1);
                assert(r.2.deep_view() =~= spec_row_cells(row@).2);
            }
            r
        },
        Row::ReactionRow { summary } => {
            let mut body: Vec<String> = Vec::new();
            body.push(summary.clone());
            let r = (String::new(), Vec::new(), body);
            proof {
                assert(r.1.deep_view() =~= spec_row_cells(row@).1);
                assert(r.2.deep_view() =~= spec_row_cells(row@).2);
            }
            r
        },
        Row::UnreadMarker { label } => {
            let mut body: Vec<String> = Vec::new();
            body.push(label.clone());
            let r = (String::new(), Vec::new(), body);
            proof {
                assert(r.1.deep_view() =~= spec_row_cells(row@).1);
                assert(r.2.deep_view() =~= spec_row_cells(row@).2);
            }
            r
        },
    }
}

} // verus!
