use vault_stats::input::InputMode;
use vault_stats::screens::{is_blank, App, AppAction, CreatedNote, Key, NewScreen, Screen, ShowScreen};
use vault_stats::Config;

#[test]
fn blank_is_only_ascii_whitespace() {
    assert!(is_blank(""));
    assert!(is_blank(" \t\r\n"));
    assert!(!is_blank(" x "));
}

#[test]
fn new_screen_types_and_submits() {
    let mut screen = NewScreen::new();
    assert!(!screen.exec(Key::Char('x'), true));
    assert_eq!(screen.input.input, "");
    assert!(!screen.exec(Key::Char('e'), true));
    assert_eq!(screen.input_mode, InputMode::Editing);
    assert!(!screen.exec(Key::Enter, true));
    for c in "idea".chars() {
        assert!(!screen.exec(Key::Char(c), true));
    }
    assert!(!screen.exec(Key::Char('!'), false));
    assert_eq!(screen.input.input, "idea");
    assert!(!screen.exec(Key::Backspace, true));
    assert_eq!(screen.input.input, "ide");
    assert!(screen.exec(Key::Enter, true));
    screen.submit_idea(Ok(CreatedNote {
        title: "Note_1.md".to_string(),
        body: "ide".to_string(),
    }));
    assert_eq!(screen.input.input, "");
    assert_eq!(screen.input.character_index, 0);
    assert_eq!(screen.created_note.as_ref().map(|n| n.title.as_str()), Some("Note_1.md"));
    assert!(!screen.exec(Key::Esc, true));
    assert_eq!(screen.input_mode, InputMode::Normal);
}

#[test]
fn new_screen_keeps_the_error() {
    let mut screen = NewScreen::new();
    screen.exec(Key::Char('e'), true);
    screen.exec(Key::Char('a'), true);
    screen.submit_idea(Err("disk full".to_string()));
    assert_eq!(screen.error_msg.as_deref(), Some("disk full"));
    assert!(screen.created_note.is_none());
    assert_eq!(screen.input.input, "");
}

#[test]
fn show_screen_scrolls_and_searches() {
    let mut screen = ShowScreen::new();
    assert!(!screen.exec(Key::Up, true));
    assert_eq!(screen.vertical_scroll, 0);
    screen.exec(Key::Down, true);
    screen.exec(Key::Down, true);
    screen.exec(Key::Up, true);
    assert_eq!(screen.vertical_scroll, 1);
    assert!(!screen.exec(Key::Enter, true));
    for c in "a.md".chars() {
        screen.exec(Key::Char(c), true);
    }
    assert!(!screen.exec(Key::Enter, false));
    assert!(screen.exec(Key::Enter, true));
    let failed = screen.search(Err("Invalid note path".to_string()));
    assert_eq!(failed, Err("Invalid note path".to_string()));
    assert!(screen.error_msg.is_none());
    assert_eq!(screen.input.input, "a.md");
    screen.report_error("Invalid note path".to_string());
    assert_eq!(screen.error_msg.as_deref(), Some("Invalid note path"));
    assert_eq!(screen.vertical_scroll, 1);
    assert_eq!(screen.search(Ok("# Title".to_string())), Ok(()));
    assert_eq!(screen.note_content.as_deref(), Some("# Title"));
    assert!(screen.error_msg.is_none());
    assert_eq!(screen.input.input, "");
}

#[test]
fn app_switches_screens_and_quits() {
    let mut app = App::new(Config::default());
    assert_eq!(app.screen_select, Screen::New);
    assert_eq!(app.handle_key(Key::Insert, false), AppAction::Redraw);
    assert_eq!(app.screen_select, Screen::New);
    assert_eq!(app.handle_key(Key::Insert, true), AppAction::Redraw);
    assert_eq!(app.screen_select, Screen::Show);
    app.handle_key(Key::Char('n'), true);
    assert_eq!(app.show_note_screen.input.input, "n");
    assert_eq!(app.handle_key(Key::Enter, true), AppAction::ShowNote);
    app.handle_key(Key::Insert, true);
    app.handle_key(Key::Char('e'), true);
    app.handle_key(Key::Char('z'), true);
    assert_eq!(app.handle_key(Key::Enter, true), AppAction::CreateNote);
    assert_eq!(app.handle_key(Key::Delete, true), AppAction::Quit);
}
