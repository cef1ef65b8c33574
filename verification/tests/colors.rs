use chat_box::color::{author_color, Rgb};
use chat_box::message::ChatMessage;
use chat_box::rows::{build_rows, Row};

fn msg(id: u64, actor: &str, name: &str) -> ChatMessage {
    ChatMessage {
        id,
        date_label: "Monday 05 May".to_string(),
        time_label: "10:00".to_string(),
        actor_id: actor.to_string(),
        name: name.to_string(),
        body: "hello".to_string(),
        is_reaction: false,
        is_edit_note: false,
        is_comment_deleted: false,
        reactions: String::new(),
    }
}

fn name_color(row: &Row) -> Rgb {
    match row {
        Row::MessageRow { name_color, .. } => *name_color,
        other => panic!("expected a message row, got {other:?}"),
    }
}

#[test]
fn same_author_same_color() {
    let messages = vec![
        msg(1, "abcd1234", "Hundi"),
        msg(2, "1234abcd", "Stinko"),
        msg(3, "abcd1234", "Hundi renamed"),
    ];
    let rows = build_rows(&messages, false, 0, 20, "no such day");
    let first = name_color(&rows[1]);
    let second = name_color(&rows[2]);
    let third = name_color(&rows[3]);
    assert_eq!(first, third);
    assert_ne!(first, second);
}

#[test]
fn color_matches_the_hashing_library() {
    let c = colorhash::ColorHash::new()
        .lightness(70.0)
        .rgb("abcd1234");
    let expected = Rgb {
        red: c.red() as u8,
        green: c.green() as u8,
        blue: c.blue() as u8,
    };
    assert_eq!(author_color("abcd1234"), expected);

    let rows = build_rows(&vec![msg(1, "abcd1234", "Hundi")], false, 0, 20, "x");
    assert_eq!(name_color(&rows[1]), expected);
}

#[test]
fn color_is_stable_across_calls() {
    let once = author_color("some stable identifier");
    let again = author_color("some stable identifier");
    assert_eq!(once, again);
}
