use chat_box::message::ChatMessage;
use chat_box::rows::{build_rows, row_cells, Row};
use chat_box::text::{split_lines, wrap_text};

fn msg_with_body(body: &str) -> ChatMessage {
    ChatMessage {
        id: 1,
        date_label: "Monday 05 May".to_string(),
        time_label: "10:00".to_string(),
        actor_id: "aa".to_string(),
        name: "Ann".to_string(),
        body: body.to_string(),
        is_reaction: false,
        is_edit_note: false,
        is_comment_deleted: false,
        reactions: String::new(),
    }
}

#[test]
fn wrapped_lines_fit_the_column() {
    let lines = wrap_text("the quick brown fox jumps over the lazy dog", 10);
    assert!(lines.len() > 1);
    for line in &lines {
        assert!(line.chars().count() <= 10, "line too wide: {line:?}");
    }
    let rejoined = lines.join(" ");
    assert_eq!(rejoined, "the quick brown fox jumps over the lazy dog");
}

#[test]
fn overlong_token_is_hard_broken() {
    let lines = wrap_text("abcdefghijkl", 5);
    assert!(lines.len() >= 3);
    for line in &lines {
        assert!(line.chars().count() <= 5, "line too wide: {line:?}");
    }
    assert_eq!(lines.concat(), "abcdefghijkl");
}

#[test]
fn empty_input_still_yields_one_line() {
    let lines = wrap_text("", 10);
    assert_eq!(lines, vec![String::new()]);
}

#[test]
fn newlines_are_hard_breaks() {
    let lines = wrap_text("alpha\nbeta", 20);
    assert_eq!(lines, vec!["alpha".to_string(), "beta".to_string()]);
}

#[test]
fn split_lines_keeps_empty_segments() {
    let segments = split_lines("a\n\nb\n");
    assert_eq!(
        segments,
        vec![
            "a".to_string(),
            String::new(),
            "b".to_string(),
            String::new(),
        ]
    );
    assert_eq!(split_lines(""), vec![String::new()]);
}

#[test]
fn wrapping_agrees_with_the_wrapping_library() {
    let text = "some words that will be wrapped to a narrow column";
    let ours = wrap_text(text, 12);
    let options = textwrap::Options::new(12)
        .break_words(true)
        .wrap_algorithm(textwrap::WrapAlgorithm::FirstFit);
    let theirs: Vec<String> = textwrap::wrap(text, options)
        .into_iter()
        .map(|c| c.into_owned())
        .collect();
    assert_eq!(ours, theirs);
}

#[test]
fn wide_columns_are_never_overfilled() {
    let long_word = "b".repeat(50);
    let text = format!("aaaaaaaaaa {long_word}");
    let lines = wrap_text(&text, 60);
    for line in &lines {
        assert!(line.chars().count() <= 60, "line too wide: {line:?}");
    }
    assert_eq!(lines.len(), 2);
}

#[test]
fn row_height_is_the_taller_column() {
    let messages = vec![msg_with_body("one\ntwo\nthree")];
    let rows = build_rows(&messages, false, 0, 20, "no such day");
    match &rows[1] {
        Row::MessageRow { name_lines, body_lines, height, .. } => {
            assert_eq!(name_lines.len(), 1);
            assert_eq!(
                body_lines,
                &vec!["one".to_string(), "two".to_string(), "three".to_string()]
            );
            assert_eq!(*height, 3);
        }
        other => panic!("expected a message row, got {other:?}"),
    }
}

#[test]
fn long_body_wraps_in_the_transcript() {
    let messages = vec![msg_with_body("a handful of words strung together here")];
    let rows = build_rows(&messages, false, 0, 10, "no such day");
    match &rows[1] {
        Row::MessageRow { body_lines, height, .. } => {
            assert!(body_lines.len() > 1);
            for line in body_lines {
                assert!(line.chars().count() <= 10);
            }
            assert_eq!(*height as usize, body_lines.len());
        }
        other => panic!("expected a message row, got {other:?}"),
    }
}

#[test]
fn long_names_wrap_to_the_name_column() {
    let mut message = msg_with_body("hi");
    message.name = "An Extraordinarily Long Display Name".to_string();
    let rows = build_rows(&vec![message], false, 0, 20, "no such day");
    match &rows[1] {
        Row::MessageRow { name_lines, height, .. } => {
            assert!(name_lines.len() > 1);
            for line in name_lines {
                assert!(line.chars().count() <= 20);
            }
            assert_eq!(*height as usize, name_lines.len());
        }
        other => panic!("expected a message row, got {other:?}"),
    }
}

#[test]
fn cells_of_special_rows_use_the_body_column() {
    let mut message = msg_with_body("hello there");
    message.reactions = "wave 1".to_string();
    let rows = build_rows(&vec![message], true, 1, 20, "no such day");
    assert_eq!(rows.len(), 4);

    let (time, name, body) = row_cells(&rows[0]);
    assert_eq!(time, "");
    assert!(name.is_empty());
    assert_eq!(body, vec!["Monday 05 May".to_string()]);

    let (time, name, body) = row_cells(&rows[1]);
    assert_eq!(time, "10:00");
    assert_eq!(name, vec!["Ann".to_string()]);
    assert_eq!(body, vec!["hello there".to_string()]);

    let (time, name, body) = row_cells(&rows[2]);
    assert_eq!(time, "");
    assert!(name.is_empty());
    assert_eq!(body, vec!["wave 1".to_string()]);

    let (time, name, body) = row_cells(&rows[3]);
    assert_eq!(time, "");
    assert!(name.is_empty());
    assert_eq!(body, vec!["+++ LAST READ +++".to_string()]);
}
