use taskforest::form::Field;
use taskforest::message::Direction;

fn field(text: &str, cursor: usize) -> Field {
    Field::new().with_text(text.to_string()).with_cursor(cursor)
}

#[test]
fn inserting_and_popping_chars() {
    let f = field("ac", 1).with_inserted_char('b');
    assert_eq!(f.text, "abc");
    assert_eq!(f.cursor, 2);
    let f = f.with_popped_char();
    assert_eq!(f.text, "ac");
    assert_eq!(f.cursor, 1);
    let f = field("ac", 0).with_popped_char();
    assert_eq!(f.text, "ac");
    assert_eq!(f.cursor, 0);
}

#[test]
fn popping_a_word() {
    let f = field("buy some milk", 13).with_popped_word();
    assert_eq!(f.text, "buy some");
    assert_eq!(f.cursor, 8);
    let f = field("buy some milk  ", 15).with_popped_word();
    assert_eq!(f.text, "buy some");
    assert_eq!(f.cursor, 8);
    let f = field("milk", 4).with_popped_word();
    assert_eq!(f.text, "");
    assert_eq!(f.cursor, 0);
}

#[test]
fn jumping_by_words() {
    let f = field("call mom #home", 14);
    let f = f.with_cursor_jump_word(&Direction::Up);
    assert_eq!(f.cursor, 10);
    let f = f.with_cursor_jump_word(&Direction::Up);
    assert_eq!(f.cursor, 5);
    let f = f.with_cursor_jump_word(&Direction::Down);
    assert_eq!(f.cursor, 8);
    let f = field("call mom", 0).with_cursor_jump_word(&Direction::Down);
    assert_eq!(f.cursor, 4);
    let f = field("   ", 3).with_cursor_jump_word(&Direction::Up);
    assert_eq!(f.cursor, 0);
}

#[test]
fn moving_the_cursor_stays_in_the_text() {
    let f = field("ab", 2).with_cursor_move(&Direction::Down);
    assert_eq!(f.cursor, 2);
    let f = f.with_cursor_move(&Direction::Up).with_cursor_move(&Direction::Up).with_cursor_move(&Direction::Up);
    assert_eq!(f.cursor, 0);
    assert_eq!(field("ab", 9).cursor, 2);
    assert_eq!(field("abcd", 4).with_text("xy".to_string()).cursor, 2);
}

#[test]
fn cursor_counts_characters() {
    let f = field("héllo", 2).with_inserted_char('ü');
    assert_eq!(f.text, "héüllo");
    assert_eq!(f.cursor, 3);
}
