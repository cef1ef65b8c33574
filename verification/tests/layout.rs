use chat_box::chat_box::ChatBox;
use chat_box::message::ChatMessage;
use chat_box::rows::{build_rows, Row};

fn msg(id: u64, date: &str, time: &str, actor: &str, name: &str, body: &str) -> ChatMessage {
    ChatMessage {
        id,
        date_label: date.to_string(),
        time_label: time.to_string(),
        actor_id: actor.to_string(),
        name: name.to_string(),
        body: body.to_string(),
        is_reaction: false,
        is_edit_note: false,
        is_comment_deleted: false,
        reactions: String::new(),
    }
}

fn local_label(timestamp: i64, format: &str) -> String {
    let utc = chrono::DateTime::<chrono::Utc>::from_timestamp(timestamp, 0).unwrap();
    chrono::DateTime::<chrono::Local>::from(utc)
        .format(format)
        .to_string()
}

#[test]
fn two_dates_two_messages() {
    let date_format = "%A %d %B";
    let date1 = local_label(2000, date_format);
    let time1 = local_label(2000, "%H:%M");
    let date2 = local_label(200_000, date_format);
    let time2 = local_label(200_000, "%H:%M");
    assert_ne!(date1, date2);

    let messages = vec![
        msg(0, &date1, &time1, "abcd1234", "Hundi", "Butz"),
        msg(1, &date2, &time2, "1234abcd", "Stinko", "Bert"),
    ];

    let mut chat = ChatBox::new(date_format.to_string());
    chat.set_width_and_update_if_change(40, &messages, false, 0);
    assert_eq!(chat.width(), 13);

    let rows = chat.rows();
    assert_eq!(rows.len(), 4);
    match &rows[0] {
        Row::DateSeparator { label, date } => {
            assert_eq!(label, &date1);
            assert_eq!(date, &date1);
        }
        other => panic!("expected a date separator, got {other:?}"),
    }
    match &rows[1] {
        Row::MessageRow { id, time_label, name_lines, body_lines, height, .. } => {
            assert_eq!(*id, 0);
            assert_eq!(time_label, &time1);
            assert_eq!(name_lines, &vec!["Hundi".to_string()]);
            assert_eq!(body_lines, &vec!["Butz".to_string()]);
            assert_eq!(*height, 1);
        }
        other => panic!("expected a message row, got {other:?}"),
    }
    match &rows[2] {
        Row::DateSeparator { label, date } => {
            assert_eq!(label, &date2);
            assert_eq!(date, &date2);
        }
        other => panic!("expected a date separator, got {other:?}"),
    }
    match &rows[3] {
        Row::MessageRow { id, time_label, name_lines, body_lines, height, .. } => {
            assert_eq!(*id, 1);
            assert_eq!(time_label, &time2);
            assert_eq!(name_lines, &vec!["Stinko".to_string()]);
            assert_eq!(body_lines, &vec!["Bert".to_string()]);
            assert_eq!(*height, 1);
        }
        other => panic!("expected a message row, got {other:?}"),
    }
}

#[test]
fn rebuild_is_deterministic() {
    let messages = vec![
        msg(1, "Monday 05 May", "10:00", "aa", "Ann", "first words"),
        msg(2, "Monday 05 May", "10:05", "bb", "Ben", "second words"),
        msg(3, "Tuesday 06 May", "09:00", "aa", "Ann", "third words"),
    ];
    let first = build_rows(&messages, true, 2, 12, "no such day");
    let second = build_rows(&messages, true, 2, 12, "no such day");
    assert_eq!(first, second);
}

#[test]
fn one_separator_per_date_group() {
    let messages = vec![
        msg(1, "Monday 05 May", "10:00", "aa", "Ann", "one"),
        msg(2, "Monday 05 May", "10:05", "bb", "Ben", "two"),
        msg(3, "Tuesday 06 May", "09:00", "aa", "Ann", "three"),
        msg(4, "Tuesday 06 May", "11:30", "bb", "Ben", "four"),
    ];
    let rows = build_rows(&messages, false, 0, 20, "no such day");
    let separators: Vec<&Row> = rows
        .iter()
        .filter(|r| matches!(r, Row::DateSeparator { .. }))
        .collect();
    assert_eq!(separators.len(), 2);
    assert!(matches!(&rows[0], Row::DateSeparator { .. }));
    assert!(matches!(&rows[1], Row::MessageRow { .. }));
    assert!(matches!(&rows[2], Row::MessageRow { .. }));
    assert!(matches!(&rows[3], Row::DateSeparator { .. }));
    assert!(matches!(&rows[4], Row::MessageRow { .. }));
    assert!(matches!(&rows[5], Row::MessageRow { .. }));
}

#[test]
fn filtered_messages_produce_no_rows() {
    let mut reaction = msg(1, "Monday 05 May", "10:00", "aa", "Ann", "+1");
    reaction.is_reaction = true;
    let mut edit_note = msg(2, "Monday 05 May", "10:01", "aa", "Ann", "edited");
    edit_note.is_edit_note = true;
    let mut deleted = msg(3, "Monday 05 May", "10:02", "aa", "Ann", "gone");
    deleted.is_comment_deleted = true;
    let messages = vec![reaction, edit_note, deleted];
    let rows = build_rows(&messages, false, 0, 20, "no such day");
    assert!(rows.is_empty());
}

#[test]
fn empty_message_set_yields_empty_transcript() {
    let rows = build_rows(&Vec::new(), true, 7, 20, "no such day");
    assert!(rows.is_empty());
}

#[test]
fn reaction_row_follows_its_message() {
    let mut with_reactions = msg(1, "Monday 05 May", "10:00", "aa", "Ann", "hello");
    with_reactions.reactions = "thumbsup 2".to_string();
    let plain = msg(2, "Monday 05 May", "10:05", "bb", "Ben", "hi");
    let messages = vec![with_reactions, plain];
    let rows = build_rows(&messages, false, 0, 20, "no such day");
    assert_eq!(rows.len(), 4);
    assert!(matches!(&rows[1], Row::MessageRow { .. }));
    match &rows[2] {
        Row::ReactionRow { summary } => assert_eq!(summary, "thumbsup 2"),
        other => panic!("expected a reaction row, got {other:?}"),
    }
    assert!(matches!(&rows[3], Row::MessageRow { .. }));
}

#[test]
fn unread_marker_follows_last_read_message() {
    let messages = vec![
        msg(1, "Monday 05 May", "10:00", "aa", "Ann", "one"),
        msg(2, "Monday 05 May", "10:05", "bb", "Ben", "two"),
    ];
    let rows = build_rows(&messages, true, 1, 20, "no such day");
    assert_eq!(rows.len(), 4);
    assert!(matches!(&rows[1], Row::MessageRow { id: 1, .. }));
    match &rows[2] {
        Row::UnreadMarker { label } => assert_eq!(label, "+++ LAST READ +++"),
        other => panic!("expected the unread marker, got {other:?}"),
    }
    let marker_count = rows
        .iter()
        .filter(|r| matches!(r, Row::UnreadMarker { .. }))
        .count();
    assert_eq!(marker_count, 1);
}

#[test]
fn unread_marker_after_reaction_row() {
    let mut first = msg(1, "Monday 05 May", "10:00", "aa", "Ann", "one");
    first.reactions = "heart 1".to_string();
    let messages = vec![first, msg(2, "Monday 05 May", "10:05", "bb", "Ben", "two")];
    let rows = build_rows(&messages, true, 1, 20, "no such day");
    assert!(matches!(&rows[1], Row::MessageRow { id: 1, .. }));
    assert!(matches!(&rows[2], Row::ReactionRow { .. }));
    assert!(matches!(&rows[3], Row::UnreadMarker { .. }));
}

#[test]
fn no_marker_when_room_has_no_unread() {
    let messages = vec![
        msg(1, "Monday 05 May", "10:00", "aa", "Ann", "one"),
        msg(2, "Monday 05 May", "10:05", "bb", "Ben", "two"),
    ];
    let rows = build_rows(&messages, false, 1, 20, "no such day");
    assert!(!rows.iter().any(|r| matches!(r, Row::UnreadMarker { .. })));
}

#[test]
fn no_marker_when_last_read_is_not_shown() {
    let messages = vec![
        msg(1, "Monday 05 May", "10:00", "aa", "Ann", "one"),
        msg(2, "Monday 05 May", "10:05", "bb", "Ben", "two"),
    ];
    let rows = build_rows(&messages, true, 99, 20, "no such day");
    assert!(!rows.iter().any(|r| matches!(r, Row::UnreadMarker { .. })));
}

#[test]
fn todays_date_gets_the_marker_prefix() {
    let date_format = "%A %d %B";
    let today = chrono::Local::now().format(date_format).to_string();
    let messages = vec![msg(1, &today, "10:00", "aa", "Ann", "fresh")];
    let mut chat = ChatBox::new(date_format.to_string());
    chat.update_messages(&messages, false, 0);
    let rows = chat.rows();
    assert_eq!(rows.len(), 2);
    match &rows[0] {
        Row::DateSeparator { label, date } => {
            assert_eq!(label, &format!("Today! {today}"));
            assert_eq!(date, &today);
        }
        other => panic!("expected a date separator, got {other:?}"),
    }
}

#[test]
fn separator_label_of_past_date_has_no_prefix() {
    let messages = vec![msg(1, "Friday 02 January", "10:00", "aa", "Ann", "old")];
    let rows = build_rows(&messages, false, 0, 20, "some other day");
    match &rows[0] {
        Row::DateSeparator { label, .. } => assert_eq!(label, "Friday 02 January"),
        other => panic!("expected a date separator, got {other:?}"),
    }
}
