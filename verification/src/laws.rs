//! The transcript's global laws: determinism of the rebuild, date
//! grouping, uniqueness and placement of the unread marker, and color
//! stability, proved over the layout's mathematical model.

use vstd::prelude::*;
use crate::color::Rgb;
use crate::message::{filtered_out, MsgModel};
use crate::rows::{
    message_row_model, msg_rows, next_last, spec_rows, spec_rows_from, RowModel,
};

verus! {

/// The date labels of the messages that the transcript keeps, in order.
pub open spec fn kept_dates(msgs: Seq<MsgModel>) -> Seq<Seq<char>>
    decreases msgs.len(),
{
    if msgs.len() == 0 {
        Seq::empty()
    } else if filtered_out(msgs[0]) {
        kept_dates(msgs.skip(1))
    } else {
        seq![msgs[0].date_label] + kept_dates(msgs.skip(1))
    }
}

/// Collapses runs of equal adjacent labels, `prev` being the label shown
/// before the sequence: what remains is one label per date change.
pub open spec fn date_changes(dates: Seq<Seq<char>>, prev: Option<Seq<char>>) -> Seq<Seq<char>>
    decreases dates.len(),
{
    if dates.len() == 0 {
        Seq::empty()
    } else if Some(dates[0]) == prev {
        date_changes(dates.skip(1), prev)
    } else {
        seq![dates[0]] + date_changes(dates.skip(1), Some(dates[0]))
    }
}

/// The dates of the separators of `rows`, in order.
pub open spec fn sep_dates(rows: Seq<RowModel>) -> Seq<Seq<char>>
    decreases rows.len(),
{
    if rows.len() == 0 {
        Seq::empty()
    } else {
        (match rows[0] {
            RowModel::DateSeparator { date, .. } => seq![date],
            _ => Seq::<Seq<char>>::empty(),
        }) + sep_dates(rows.skip(1))
    }
}

proof fn lemma_sep_dates_concat(a: Seq<RowModel>, b: Seq<RowModel>)
    ensures
        sep_dates(a + b) == sep_dates(a) + sep_dates(b),
    decreases a.len(),
{
    if a.len() == 0 {
        assert(a + b =~= b);
        assert(sep_dates(a) + sep_dates(b) =~= sep_dates(b));
    } else {
        lemma_sep_dates_concat(a.skip(1), b);
        assert((a + b).skip(1) =~= a.skip(1) + b);
        assert(sep_dates(a + b) =~= sep_dates(a) + sep_dates(b));
    }
}

proof fn lemma_sep_dates_single(r: RowModel)
    ensures
        sep_dates(seq![r]) == (match r {
            RowModel::DateSeparator { date, .. } => seq![date],
            _ => Seq::<Seq<char>>::empty(),
        }),
{
    assert(seq![r].skip(1) =~= Seq::<RowModel>::empty());
    assert(sep_dates(Seq::<RowModel>::empty()) =~= Seq::<Seq<char>>::empty());
    assert(sep_dates(seq![r]) =~= (match r {
        RowModel::DateSeparator { date, .. } => seq![date],
        _ => Seq::<Seq<char>>::empty(),
    }));
}

proof fn lemma_sep_dates_of_msg_rows(
    m: MsgModel,
    last: Option<Seq<char>>,
    has_unread: bool,
    last_read_id: u64,
    width: int,
    today: Seq<char>,
)
    ensures
        sep_dates(msg_rows(m, last, has_unread, last_read_id, width, today)) == (if !filtered_out(
            m,
        ) && last != Some(m.date_label) {
            seq![m.date_label]
        } else {
            Seq::<Seq<char>>::empty()
        }),
{
    let block = msg_rows(m, last, has_unread, last_read_id, width, today);
    if filtered_out(m) {
        assert(sep_dates(block) =~= Seq::<Seq<char>>::empty());
    } else {
        let c1: Seq<RowModel> = if last != Some(m.date_label) {
            seq![
                RowModel::DateSeparator {
                    label: crate::rows::spec_sep_label(m.date_label, today),
                    date: m.date_label,
                },
            ]
        } else {
            Seq::empty()
        };
        let c2: Seq<RowModel> = seq![message_row_model(m, width)];
        let c3: Seq<RowModel> = if m.reactions.len() > 0 {
            seq![RowModel::Reaction { summary: m.reactions }]
        } else {
            Seq::empty()
        };
        let c4: Seq<RowModel> = if has_unread && m.id == last_read_id {
            seq![RowModel::Unread { label: crate::rows::unread_label() }]
        } else {
            Seq::empty()
        };
        assert(block == c1 + c2 + c3 + c4);
        lemma_sep_dates_concat(c1 + c2 + c3, c4);
        lemma_sep_dates_concat(c1 + c2, c3);
        lemma_sep_dates_concat(c1, c2);
        lemma_sep_dates_single(message_row_model(m, width));
        if m.reactions.len() > 0 {
            lemma_sep_dates_single(RowModel::Reaction { summary: m.reactions });
        } else {
            assert(sep_dates(c3) =~= Seq::<Seq<char>>::empty());
        }
        if has_unread && m.id == last_read_id {
            lemma_sep_dates_single(RowModel::Unread { label: crate::rows::unread_label() });
        } else {
            assert(sep_dates(c4) =~= Seq::<Seq<char>>::empty());
        }
        if last != Some(m.date_label) {
            lemma_sep_dates_single(c1[0]);
            assert(c1 =~= seq![c1[0]]);
        } else {
            assert(sep_dates(c1) =~= Seq::<Seq<char>>::empty());
        }
        assert(sep_dates(block) =~= sep_dates(c1) + sep_dates(c2) + sep_dates(c3) + sep_dates(
            c4,
        ));
    }
}

proof fn lemma_sep_dates_rows(
    msgs: Seq<MsgModel>,
    last: Option<Seq<char>>,
    has_unread: bool,
    last_read_id: u64,
    width: int,
    today: Seq<char>,
)
    ensures
        sep_dates(spec_rows_from(msgs, last, has_unread, last_read_id, width, today))
            == date_changes(kept_dates(msgs), last),
    decreases msgs.len(),
{
    if msgs.len() == 0 {
        assert(sep_dates(Seq::<RowModel>::empty()) =~= Seq::<Seq<char>>::empty());
        assert(date_changes(kept_dates(msgs), last) =~= Seq::<Seq<char>>::empty());
    } else {
        let m = msgs[0];
        let block = msg_rows(m, last, has_unread, last_read_id, width, today);
        let rest = spec_rows_from(
            msgs.skip(1),
            next_last(m, last),
            has_unread,
            last_read_id,
            width,
            today,
        );
        lemma_sep_dates_concat(block, rest);
        lemma_sep_dates_of_msg_rows(m, last, has_unread, last_read_id, width, today);
        lemma_sep_dates_rows(
            msgs.skip(1),
            next_last(m, last),
            has_unread,
            last_read_id,
            width,
            today,
        );
        if filtered_out(m) {
            assert(sep_dates(block + rest) =~= date_changes(kept_dates(msgs), last));
        } else {
            assert(kept_dates(msgs) == seq![m.date_label] + kept_dates(msgs.skip(1)));
            assert(kept_dates(msgs)[0] == m.date_label);
            assert(kept_dates(msgs).skip(1) =~= kept_dates(msgs.skip(1)));
            if last == Some(m.date_label) {
                assert(date_changes(kept_dates(msgs), last) == date_changes(
                    kept_dates(msgs.skip(1)),
                    last,
                ));
                assert(sep_dates(block + rest) =~= date_changes(kept_dates(msgs), last));
            } else {
                assert(date_changes(kept_dates(msgs), last) == seq![m.date_label] + date_changes(
                    kept_dates(msgs.skip(1)),
                    Some(m.date_label),
                ));
                assert(sep_dates(block + rest) =~= date_changes(kept_dates(msgs), last));
            }
        }
    }
}

proof fn lemma_date_changes_distinct(dates: Seq<Seq<char>>, prev: Option<Seq<char>>)
    ensures
        forall|i: int|
            0 <= i < date_changes(dates, prev).len() - 1 ==> #[trigger] date_changes(dates, prev)[i]
                != date_changes(dates, prev)[i + 1],
        forall|p: Seq<char>|
            prev == Some(p) && date_changes(dates, prev).len() > 0 ==> date_changes(dates, prev)[0]
                != p,
    decreases dates.len(),
{
    if dates.len() == 0 {
    } else if Some(dates[0]) == prev {
        lemma_date_changes_distinct(dates.skip(1), prev);
    } else {
        lemma_date_changes_distinct(dates.skip(1), Some(dates[0]));
        let d = date_changes(dates, prev);
        let r = date_changes(dates.skip(1), Some(dates[0]));
        assert(d == seq![dates[0]] + r);
        assert forall|i: int| 0 <= i < d.len() - 1 implies #[trigger] d[i] != d[i + 1] by {
            if i == 0 {
                assert(d[1] == r[0]);
            } else {
                assert(d[i] == r[i - 1]);
                assert(d[i + 1] == r[i]);
            }
        }
    }
}

/// Date grouping law: the separators of a rebuilt transcript announce, in
/// order, exactly the date changes of the kept messages, and no two
/// consecutive separators announce the same date.
pub proof fn lemma_date_grouping(
    msgs: Seq<MsgModel>,
    has_unread: bool,
    last_read_id: u64,
    width: int,
    today: Seq<char>,
)
    ensures
        sep_dates(spec_rows(msgs, has_unread, last_read_id, width, today)) == date_changes(
            kept_dates(msgs),
            None,
        ),
        forall|i: int|
            0 <= i < sep_dates(spec_rows(msgs, has_unread, last_read_id, width, today)).len() - 1
                ==> #[trigger] sep_dates(spec_rows(msgs, has_unread, last_read_id, width, today))[i]
                != sep_dates(spec_rows(msgs, has_unread, last_read_id, width, today))[i + 1],
{
    lemma_sep_dates_rows(msgs, None, has_unread, last_read_id, width, today);
    lemma_date_changes_distinct(kept_dates(msgs), None);
}

/// Every separator is immediately followed by a message row: a separator
/// precedes the first message of each date group and stands nowhere else.
pub proof fn lemma_separator_precedes_message(
    msgs: Seq<MsgModel>,
    last: Option<Seq<char>>,
    has_unread: bool,
    last_read_id: u64,
    width: int,
    today: Seq<char>,
)
    ensures
        forall|i: int|
            0 <= i < spec_rows_from(msgs, last, has_unread, last_read_id, width, today).len()
                && (#[trigger] spec_rows_from(msgs, last, has_unread, last_read_id, width, today)[i])
                is DateSeparator ==> i + 1 < spec_rows_from(
                msgs,
                last,
                has_unread,
                last_read_id,
                width,
                today,
            ).len() && spec_rows_from(msgs, last, has_unread, last_read_id, width, today)[i + 1]
                is Message,
    decreases msgs.len(),
{
    if msgs.len() == 0 {
    } else {
        let m = msgs[0];
        let block = msg_rows(m, last, has_unread, last_read_id, width, today);
        let rest = spec_rows_from(
            msgs.skip(1),
            next_last(m, last),
            has_unread,
            last_read_id,
            width,
            today,
        );
        let rows = spec_rows_from(msgs, last, has_unread, last_read_id, width, today);
        assert(rows == block + rest);
        lemma_separator_precedes_message(
            msgs.skip(1),
            next_last(m, last),
            has_unread,
            last_read_id,
            width,
            today,
        );
        assert forall|i: int|
            0 <= i < rows.len() && (#[trigger] rows[i]) is DateSeparator implies i + 1 < rows.len()
            && rows[i + 1] is Message by {
            if i < block.len() {
                assert(rows[i] == block[i]);
                assert(!filtered_out(m));
                if last != Some(m.date_label) {
                    assert(i == 0);
                    assert(block[1] == message_row_model(m, width));
                    assert(rows[1] == block[1]);
                } else {
                    assert(!(block[i] is DateSeparator));
                }
            } else {
                let j = i - block.len();
                assert(rows[i] == rest[j]);
                assert(rest[j + 1] is Message);
                assert(rows[i + 1] == rest[j + 1]);
            }
        }
    }
}

/// The number of unread markers among `rows`.
pub open spec fn marker_count(rows: Seq<RowModel>) -> int
    decreases rows.len(),
{
    if rows.len() == 0 {
        0
    } else {
        (if rows[0] is Unread {
            1int
        } else {
            0int
        }) + marker_count(rows.skip(1))
    }
}

/// Whether some kept message of `msgs` carries the identifier `id`.
pub open spec fn kept_contains(msgs: Seq<MsgModel>, id: u64) -> bool
    decreases msgs.len(),
{
    if msgs.len() == 0 {
        false
    } else {
        (!filtered_out(msgs[0]) && msgs[0].id == id) || kept_contains(msgs.skip(1), id)
    }
}

/// The messages are strictly ordered by their identifiers.
pub open spec fn ids_increasing(msgs: Seq<MsgModel>) -> bool {
    forall|i: int, j: int|
        0 <= i < j < msgs.len() ==> (#[trigger] msgs[i]).id < (#[trigger] msgs[j]).id
}

proof fn lemma_marker_count_concat(a: Seq<RowModel>, b: Seq<RowModel>)
    ensures
        marker_count(a + b) == marker_count(a) + marker_count(b),
    decreases a.len(),
{
    if a.len() == 0 {
        assert(a + b =~= b);
    } else {
        lemma_marker_count_concat(a.skip(1), b);
        assert((a + b).skip(1) =~= a.skip(1) + b);
    }
}

proof fn lemma_marker_count_single(r: RowModel)
    ensures
        marker_count(seq![r]) == (if r is Unread {
            1int
        } else {
            0int
        }),
{
    assert(seq![r].skip(1) =~= Seq::<RowModel>::empty());
    assert(marker_count(Seq::<RowModel>::empty()) == 0);
}

proof fn lemma_marker_count_of_msg_rows(
    m: MsgModel,
    last: Option<Seq<char>>,
    has_unread: bool,
    last_read_id: u64,
    width: int,
    today: Seq<char>,
)
    ensures
        marker_count(msg_rows(m, last, has_unread, last_read_id, width, today)) == (if !filtered_out(
            m,
        ) && has_unread && m.id == last_read_id {
            1int
        } else {
            0int
        }),
{
    let block = msg_rows(m, last, has_unread, last_read_id, width, today);
    if filtered_out(m) {
    } else {
        let c1: Seq<RowModel> = if last != Some(m.date_label) {
            seq![
                RowModel::DateSeparator {
                    label: crate::rows::spec_sep_label(m.date_label, today),
                    date: m.date_label,
                },
            ]
        } else {
            Seq::empty()
        };
        let c2: Seq<RowModel> = seq![message_row_model(m, width)];
        let c3: Seq<RowModel> = if m.reactions.len() > 0 {
            seq![RowModel::Reaction { summary: m.reactions }]
        } else {
            Seq::empty()
        };
        let c4: Seq<RowModel> = if has_unread && m.id == last_read_id {
            seq![RowModel::Unread { label: crate::rows::unread_label() }]
        } else {
            Seq::empty()
        };
        assert(block == c1 + c2 + c3 + c4);
        lemma_marker_count_concat(c1 + c2 + c3, c4);
        lemma_marker_count_concat(c1 + c2, c3);
        lemma_marker_count_concat(c1, c2);
        lemma_marker_count_single(message_row_model(m, width));
        if last != Some(m.date_label) {
            lemma_marker_count_single(c1[0]);
            assert(c1 =~= seq![c1[0]]);
        }
        if m.reactions.len() > 0 {
            lemma_marker_count_single(RowModel::Reaction { summary: m.reactions });
        }
        if has_unread && m.id == last_read_id {
            lemma_marker_count_single(RowModel::Unread { label: crate::rows::unread_label() });
        }
    }
}

proof fn lemma_kept_contains_above(msgs: Seq<MsgModel>, id: u64)
    requires
        forall|k: int| 0 <= k < msgs.len() ==> (#[trigger] msgs[k]).id > id,
    ensures
        !kept_contains(msgs, id),
    decreases msgs.len(),
{
    if msgs.len() == 0 {
    } else {
        lemma_kept_contains_above(msgs.skip(1), id);
    }
}

proof fn lemma_marker_count_rows(
    msgs: Seq<MsgModel>,
    last: Option<Seq<char>>,
    has_unread: bool,
    last_read_id: u64,
    width: int,
    today: Seq<char>,
)
    requires
        ids_increasing(msgs),
    ensures
        marker_count(spec_rows_from(msgs, last, has_unread, last_read_id, width, today)) == (
        if has_unread && kept_contains(msgs, last_read_id) {
            1int
        } else {
            0int
        }),
    decreases msgs.len(),
{
    if msgs.len() == 0 {
    } else {
        let m = msgs[0];
        let block = msg_rows(m, last, has_unread, last_read_id, width, today);
        let rest = spec_rows_from(
            msgs.skip(1),
            next_last(m, last),
            has_unread,
            last_read_id,
            width,
            today,
        );
        lemma_marker_count_concat(block, rest);
        lemma_marker_count_of_msg_rows(m, last, has_unread, last_read_id, width, today);
        assert(ids_increasing(msgs.skip(1)));
        lemma_marker_count_rows(
            msgs.skip(1),
            next_last(m, last),
            has_unread,
            last_read_id,
            width,
            today,
        );
        if !filtered_out(m) && m.id == last_read_id {
            assert forall|k: int| 0 <= k < msgs.skip(1).len() implies (#[trigger] msgs.skip(1)[
                k
            ]).id > last_read_id by {
                assert(msgs.skip(1)[k] == msgs[k + 1]);
            }
            lemma_kept_contains_above(msgs.skip(1), last_read_id);
        }
    }
}

/// The identifiers of the kept messages of `msgs`, in order.
pub open spec fn kept_ids(msgs: Seq<MsgModel>) -> Seq<u64>
    decreases msgs.len(),
{
    if msgs.len() == 0 {
        Seq::empty()
    } else if filtered_out(msgs[0]) {
        kept_ids(msgs.skip(1))
    } else {
        seq![msgs[0].id] + kept_ids(msgs.skip(1))
    }
}

/// The identifiers of the message rows of `rows`, in order.
pub open spec fn message_ids(rows: Seq<RowModel>) -> Seq<u64>
    decreases rows.len(),
{
    if rows.len() == 0 {
        Seq::empty()
    } else {
        (match rows[0] {
            RowModel::Message { id, .. } => seq![id],
            _ => Seq::<u64>::empty(),
        }) + message_ids(rows.skip(1))
    }
}

proof fn lemma_message_ids_concat(a: Seq<RowModel>, b: Seq<RowModel>)
    ensures
        message_ids(a + b) == message_ids(a) + message_ids(b),
    decreases a.len(),
{
    if a.len() == 0 {
        assert(a + b =~= b);
        assert(message_ids(a) + message_ids(b) =~= message_ids(b));
    } else {
        lemma_message_ids_concat(a.skip(1), b);
        assert((a + b).skip(1) =~= a.skip(1) + b);
        assert(message_ids(a + b) =~= message_ids(a) + message_ids(b));
    }
}

proof fn lemma_message_ids_single(r: RowModel)
    ensures
        message_ids(seq![r]) == (match r {
            RowModel::Message { id, .. } => seq![id],
            _ => Seq::<u64>::empty(),
        }),
{
    assert(seq![r].skip(1) =~= Seq::<RowModel>::empty());
    assert(message_ids(Seq::<RowModel>::empty()) =~= Seq::<u64>::empty());
    assert(message_ids(seq![r]) =~= (match r {
        RowModel::Message { id, .. } => seq![id],
        _ => Seq::<u64>::empty(),
    }));
}

proof fn lemma_message_ids_of_msg_rows(
    m: MsgModel,
    last: Option<Seq<char>>,
    has_unread: bool,
    last_read_id: u64,
    width: int,
    today: Seq<char>,
)
    ensures
        message_ids(msg_rows(m, last, has_unread, last_read_id, width, today)) == (
        if !filtered_out(m) {
            seq![m.id]
        } else {
            Seq::<u64>::empty()
        }),
{
    let block = msg_rows(m, last, has_unread, last_read_id, width, today);
    if filtered_out(m) {
    } else {
        let c1: Seq<RowModel> = if last != Some(m.date_label) {
            seq![
                RowModel::DateSeparator {
                    label: crate::rows::spec_sep_label(m.date_label, today),
                    date: m.date_label,
                },
            ]
        } else {
            Seq::empty()
        };
        let c2: Seq<RowModel> = seq![message_row_model(m, width)];
        let c3: Seq<RowModel> = if m.reactions.len() > 0 {
            seq![RowModel::Reaction { summary: m.reactions }]
        } else {
            Seq::empty()
        };
        let c4: Seq<RowModel> = if has_unread && m.id == last_read_id {
            seq![RowModel::Unread { label: crate::rows::unread_label() }]
        } else {
            Seq::empty()
        };
        assert(block == c1 + c2 + c3 + c4);
        lemma_message_ids_concat(c1 + c2 + c3, c4);
        lemma_message_ids_concat(c1 + c2, c3);
        lemma_message_ids_concat(c1, c2);
        lemma_message_ids_single(message_row_model(m, width));
        if last != Some(m.date_label) {
            lemma_message_ids_single(c1[0]);
            assert(c1 =~= seq![c1[0]]);
        }
        if m.reactions.len() > 0 {
            lemma_message_ids_single(RowModel::Reaction { summary: m.reactions });
        }
        if has_unread && m.id == last_read_id {
            lemma_message_ids_single(RowModel::Unread { label: crate::rows::unread_label() });
        }
        assert(message_ids(block) =~= seq![m.id]);
    }
}

/// Completeness law: the message rows of a rebuilt transcript are exactly
/// the kept messages, one row each, in their original order.
pub proof fn lemma_transcript_complete(
    msgs: Seq<MsgModel>,
    last: Option<Seq<char>>,
    has_unread: bool,
    last_read_id: u64,
    width: int,
    today: Seq<char>,
)
    ensures
        message_ids(spec_rows_from(msgs, last, has_unread, last_read_id, width, today))
            == kept_ids(msgs),
    decreases msgs.len(),
{
    if msgs.len() == 0 {
        assert(message_ids(Seq::<RowModel>::empty()) =~= Seq::<u64>::empty());
    } else {
        let m = msgs[0];
        let block = msg_rows(m, last, has_unread, last_read_id, width, today);
        let rest = spec_rows_from(
            msgs.skip(1),
            next_last(m, last),
            has_unread,
            last_read_id,
            width,
            today,
        );
        lemma_message_ids_concat(block, rest);
        lemma_message_ids_of_msg_rows(m, last, has_unread, last_read_id, width, today);
        lemma_transcript_complete(
            msgs.skip(1),
            next_last(m, last),
            has_unread,
            last_read_id,
            width,
            today,
        );
        assert(message_ids(block + rest) =~= kept_ids(msgs));
    }
}

/// True when `r` is a message row of the message with identifier `id`.
pub open spec fn is_message_with_id(r: RowModel, id: u64) -> bool {
    match r {
        RowModel::Message { id: mid, .. } => mid == id,
        _ => false,
    }
}

/// Unread marker law, counting half: a rebuilt transcript holds exactly
/// one unread marker when the room has unread messages and some kept
/// message is the last read one, and none otherwise.
pub proof fn lemma_unread_marker_count(
    msgs: Seq<MsgModel>,
    has_unread: bool,
    last_read_id: u64,
    width: int,
    today: Seq<char>,
)
    requires
        ids_increasing(msgs),
    ensures
        marker_count(spec_rows(msgs, has_unread, last_read_id, width, today)) == (if has_unread
            && kept_contains(msgs, last_read_id) {
            1int
        } else {
            0int
        }),
        !has_unread ==> marker_count(spec_rows(msgs, has_unread, last_read_id, width, today)) == 0,
{
    lemma_marker_count_rows(msgs, None, has_unread, last_read_id, width, today);
}

/// Unread marker law, placement half: every unread marker immediately
/// follows the row block of the last read message — its message row, or
/// that message's reaction row.
pub proof fn lemma_unread_marker_position(
    msgs: Seq<MsgModel>,
    last: Option<Seq<char>>,
    has_unread: bool,
    last_read_id: u64,
    width: int,
    today: Seq<char>,
)
    ensures
        forall|k: int|
            0 <= k < spec_rows_from(msgs, last, has_unread, last_read_id, width, today).len()
                && (#[trigger] spec_rows_from(msgs, last, has_unread, last_read_id, width, today)[k])
                is Unread ==> k >= 1 && (is_message_with_id(
                spec_rows_from(msgs, last, has_unread, last_read_id, width, today)[k - 1],
                last_read_id,
            ) || (k >= 2 && spec_rows_from(msgs, last, has_unread, last_read_id, width, today)[k
                - 1] is Reaction && is_message_with_id(
                spec_rows_from(msgs, last, has_unread, last_read_id, width, today)[k - 2],
                last_read_id,
            ))),
    decreases msgs.len(),
{
    if msgs.len() == 0 {
    } else {
        let m = msgs[0];
        let block = msg_rows(m, last, has_unread, last_read_id, width, today);
        let rest = spec_rows_from(
            msgs.skip(1),
            next_last(m, last),
            has_unread,
            last_read_id,
            width,
            today,
        );
        let rows = spec_rows_from(msgs, last, has_unread, last_read_id, width, today);
        assert(rows == block + rest);
        lemma_unread_marker_position(
            msgs.skip(1),
            next_last(m, last),
            has_unread,
            last_read_id,
            width,
            today,
        );
        assert forall|k: int|
            0 <= k < rows.len() && (#[trigger] rows[k]) is Unread implies k >= 1 && (
        is_message_with_id(rows[k - 1], last_read_id) || (k >= 2 && rows[k - 1] is Reaction
            && is_message_with_id(rows[k - 2], last_read_id))) by {
            if k < block.len() {
                assert(rows[k] == block[k]);
                assert(!filtered_out(m));
                assert(has_unread && m.id == last_read_id);
                assert(k == block.len() - 1);
                if m.reactions.len() > 0 {
                    assert(rows[k - 1] == block[k - 1]);
                    assert(rows[k - 2] == block[k - 2]);
                    assert(block[k - 1] is Reaction);
                    assert(is_message_with_id(block[k - 2], last_read_id));
                } else {
                    assert(rows[k - 1] == block[k - 1]);
                    assert(is_message_with_id(block[k - 1], last_read_id));
                }
            } else {
                let j = k - block.len();
                assert(rows[k] == rest[j]);
                if is_message_with_id(rest[j - 1], last_read_id) {
                    assert(rows[k - 1] == rest[j - 1]);
                } else {
                    assert(rows[k - 1] == rest[j - 1]);
                    assert(rows[k - 2] == rest[j - 2]);
                }
            }
        }
    }
}

/// Reaction rows annotate the message directly above: every reaction row
/// immediately follows a message row.
pub proof fn lemma_reaction_follows_message(
    msgs: Seq<MsgModel>,
    last: Option<Seq<char>>,
    has_unread: bool,
    last_read_id: u64,
    width: int,
    today: Seq<char>,
)
    ensures
        forall|k: int|
            0 <= k < spec_rows_from(msgs, last, has_unread, last_read_id, width, today).len()
                && (#[trigger] spec_rows_from(msgs, last, has_unread, last_read_id, width, today)[k])
                is Reaction ==> k >= 1 && spec_rows_from(
                msgs,
                last,
                has_unread,
                last_read_id,
                width,
                today,
            )[k - 1] is Message,
    decreases msgs.len(),
{
    if msgs.len() == 0 {
    } else {
        let m = msgs[0];
        let block = msg_rows(m, last, has_unread, last_read_id, width, today);
        let rest = spec_rows_from(
            msgs.skip(1),
            next_last(m, last),
            has_unread,
            last_read_id,
            width,
            today,
        );
        let rows = spec_rows_from(msgs, last, has_unread, last_read_id, width, today);
        assert(rows == block + rest);
        lemma_reaction_follows_message(
            msgs.skip(1),
            next_last(m, last),
            has_unread,
            last_read_id,
            width,
            today,
        );
        assert forall|k: int|
            0 <= k < rows.len() && (#[trigger] rows[k]) is Reaction implies k >= 1 && rows[k - 1]
            is Message by {
            if k < block.len() {
                assert(rows[k] == block[k]);
                assert(!filtered_out(m));
                assert(m.reactions.len() > 0);
                assert(block[k - 1] == message_row_model(m, width));
                assert(rows[k - 1] == block[k - 1]);
            } else {
                let j = k - block.len();
                assert(rows[k] == rest[j]);
                assert(rest[j - 1] is Message);
                assert(rows[k - 1] == rest[j - 1]);
            }
        }
    }
}

/// Determinism law: rebuilding from equal message sets, unread state,
/// width and today label yields equal row sequences.
pub proof fn lemma_rebuild_deterministic(
    msgs1: Seq<MsgModel>,
    msgs2: Seq<MsgModel>,
    has_unread1: bool,
    has_unread2: bool,
    last_read_id1: u64,
    last_read_id2: u64,
    width1: int,
    width2: int,
    today1: Seq<char>,
    today2: Seq<char>,
)
    requires
        msgs1 == msgs2,
        has_unread1 == has_unread2,
        last_read_id1 == last_read_id2,
        width1 == width2,
        today1 == today2,
    ensures
        spec_rows(msgs1, has_unread1, last_read_id1, width1, today1) == spec_rows(
            msgs2,
            has_unread2,
            last_read_id2,
            width2,
            today2,
        ),
{
}

/// The name color a message row carries; rows of other kinds have none
/// and map to black.
pub open spec fn row_color(r: RowModel) -> Rgb {
    match r {
        RowModel::Message { color, .. } => color,
        _ => Rgb { red: 0, green: 0, blue: 0 },
    }
}

/// Color stability law: two messages with the same author identifier get
/// message rows of the same name color, whatever else differs about them.
pub proof fn lemma_color_stability(m1: MsgModel, m2: MsgModel, width1: int, width2: int)
    requires
        m1.actor_id == m2.actor_id,
    ensures
        row_color(message_row_model(m1, width1)) == row_color(message_row_model(m2, width2)),
{
}

} // verus!
