use vault_stats::input::Input;

fn typed(text: &str) -> Input {
    let mut input = Input::new();
    for c in text.chars() {
        input.enter_char(c);
    }
    input
}

#[test]
fn typing_appends_and_moves_the_cursor() {
    let input = typed("héllo");
    assert_eq!(input.input, "héllo");
    assert_eq!(input.character_index, 5);
    assert_eq!(input.byte_index(), 6);
}

#[test]
fn cursor_stays_within_the_text() {
    let mut input = typed("ab");
    input.move_cursor_right();
    assert_eq!(input.character_index, 2);
    input.move_cursor_left();
    input.move_cursor_left();
    input.move_cursor_left();
    assert_eq!(input.character_index, 0);
    assert_eq!(input.clamp_cursor(7), 2);
    assert_eq!(input.clamp_cursor(1), 1);
}

#[test]
fn insert_in_the_middle() {
    let mut input = typed("ac");
    input.move_cursor_left();
    assert_eq!(input.byte_index(), 1);
    input.enter_char('€');
    assert_eq!(input.input, "a€c");
    assert_eq!(input.character_index, 2);
    assert_eq!(input.byte_index(), 4);
}

#[test]
fn delete_left_of_the_cursor() {
    let mut input = typed("abc");
    input.move_cursor_left();
    input.delete_char();
    assert_eq!(input.input, "ac");
    assert_eq!(input.character_index, 1);
    input.reset_cursor();
    input.delete_char();
    assert_eq!(input.input, "ac");
    assert_eq!(input.character_index, 0);
}

#[test]
fn cursor_past_the_end_inserts_at_the_end() {
    let mut input = typed("ab");
    input.character_index = 9;
    assert_eq!(input.byte_index(), 2);
    input.enter_char('c');
    assert_eq!(input.input, "abc");
    assert_eq!(input.character_index, 3);
}
