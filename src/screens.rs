//! The decisions of the interactive screens: each key press changes the state
//! and may ask for a note to be created or shown.
use vstd::prelude::*;

use crate::config::Config;
use crate::input::{erased, moved_left, moved_right, typed, Input, InputMode};
use crate::text::{chars_of, is_ascii_space, is_space};

verus! {

/// A key as the screens see it.
#[derive(Clone, Copy, Debug, PartialEq, Eq)]
pub enum Key {
    Char(char),
    Enter,
    Backspace,
    Left,
    Right,
    Up,
    Down,
    Esc,
    Delete,
    Insert,
    Other,
}

/// Every character is ASCII whitespace.
pub open spec fn blank(s: Seq<char>) -> bool {
    forall|i: int| 0 <= i < s.len() ==> is_ascii_space(#[trigger] s[i])
}

/// Decides `blank`.
pub fn is_blank(s: &str) -> (r: bool)
    ensures
        r == blank(s@),
{
    let cs = chars_of(s);
    let mut i: usize = 0;
    while i < cs.len()
        invariant
            cs@ == s@,
            i <= cs@.len(),
            forall|j: int| 0 <= j < i ==> is_ascii_space(#[trigger] cs@[j]),
        decreases cs@.len() - i,
    {
        if !is_space(cs[i]) {
            return false;
        }
        i = i + 1;
    }
    true
}

/// A note that the new-note screen created.
pub struct CreatedNote {
    pub title: String,
    pub body: String,
}

pub struct NewScreen {
    pub input: Input,
    pub input_mode: InputMode,
    pub created_note: Option<CreatedNote>,
    pub error_msg: Option<String>,
}

/// `new` is `old` with only its input changed.
pub open spec fn only_input_of_new(old: NewScreen, new: NewScreen) -> bool {
    new.input_mode == old.input_mode && new.created_note == old.created_note && new.error_msg
        == old.error_msg
}

/// One key on the new-note screen: `e` starts typing; while typing, keys edit
/// the idea, Esc stops, and Enter on an idea that is not blank submits it.
pub open spec fn new_screen_step(old: NewScreen, new: NewScreen, key: Key, pressed: bool, submit: bool) -> bool {
    match old.input_mode {
        InputMode::Normal => !submit && if key == Key::Char('e') {
            new == NewScreen { input_mode: InputMode::Editing, ..old }
        } else {
            new == old
        },
        InputMode::Editing => if !pressed {
            !submit && new == old
        } else {
            match key {
                Key::Enter => new == old && submit == !blank(old.input.input@),
                Key::Char(c) => !submit && only_input_of_new(old, new) && typed(old.input, new.input, c),
                Key::Backspace => !submit && only_input_of_new(old, new) && erased(old.input, new.input),
                Key::Left => !submit && only_input_of_new(old, new) && moved_left(old.input, new.input),
                Key::Right => !submit && only_input_of_new(old, new) && moved_right(
                    old.input,
                    new.input,
                ),
                Key::Esc => !submit && new == NewScreen { input_mode: InputMode::Normal, ..old },
                _ => !submit && new == old,
            }
        },
    }
}

impl NewScreen {
    pub fn new() -> (r: NewScreen)
        ensures
            r.input.input@ == Seq::<char>::empty(),
            r.input.character_index == 0,
            r.input_mode == InputMode::Normal,
            r.created_note is None,
            r.error_msg is None,
    {
        NewScreen { input: Input::new(), input_mode: InputMode::Normal, created_note: None, error_msg: None }
    }

    /// Handles one key; returns true when the idea typed so far is to become
    /// a note.
    pub fn exec(&mut self, key: Key, pressed: bool) -> (submit: bool)
        ensures
            new_screen_step(*old(self), *final(self), key, pressed, submit),
    {
        match self.input_mode {
            InputMode::Normal => {
                if let Key::Char('e') = key {
                    self.input_mode = InputMode::Editing;
                }
                false
            },
            InputMode::Editing => {
                if !pressed {
                    return false;
                }
                match key {
                    Key::Enter => !is_blank(self.input.input.as_str()),
                    Key::Char(to_insert) => {
                        self.input.enter_char(to_insert);
                        false
                    },
                    Key::Backspace => {
                        self.input.delete_char();
                        false
                    },
                    Key::Left => {
                        self.input.move_cursor_left();
                        false
                    },
                    Key::Right => {
                        self.input.move_cursor_right();
                        false
                    },
                    Key::Esc => {
                        self.input_mode = InputMode::Normal;
                        false
                    },
                    _ => false,
                }
            },
        }
    }

    /// Takes the outcome of creating the note: the note, or why it failed.
    /// Either way the input is emptied.
    pub fn submit_idea(&mut self, outcome: Result<CreatedNote, String>)
        ensures
            final(self).input.input@ == Seq::<char>::empty(),
            final(self).input.character_index == 0,
            final(self).input_mode == old(self).input_mode,
            match outcome {
                Ok(note) => final(self).created_note == Some(note) && final(self).error_msg
                    == old(self).error_msg,
                Err(err) => final(self).created_note is None && final(self).error_msg == Some(err),
            },
    {
        self.created_note = match outcome {
            Ok(note) => Some(note),
            Err(err) => {
                self.error_msg = Some(err);
                None
            },
        };
        self.input.input = String::new();
        self.input.reset_cursor();
    }
}

pub struct ShowScreen {
    pub input: Input,
    pub vertical_scroll: usize,
    pub note_content: Option<String>,
    pub error_msg: Option<String>,
}

/// `new` is `old` with only its input changed.
pub open spec fn only_input_of_show(old: ShowScreen, new: ShowScreen) -> bool {
    new.vertical_scroll == old.vertical_scroll && new.note_content == old.note_content
        && new.error_msg == old.error_msg
}

/// One key on the note-showing screen: keys edit the path, arrows up and
/// down scroll, and Enter on a path that is not blank asks for the note.
pub open spec fn show_screen_step(old: ShowScreen, new: ShowScreen, key: Key, pressed: bool, search: bool) -> bool {
    if !pressed {
        !search && new == old
    } else {
        match key {
            Key::Enter => new == old && search == !blank(old.input.input@),
            Key::Down => !search && new == ShowScreen {
                vertical_scroll: if old.vertical_scroll == usize::MAX {
                    usize::MAX
                } else {
                    (old.vertical_scroll + 1) as usize
                },
                ..old
            },
            Key::Up => !search && new == ShowScreen {
                vertical_scroll: if old.vertical_scroll == 0 {
                    0
                } else {
                    (old.vertical_scroll - 1) as usize
                },
                ..old
            },
            Key::Char(c) => !search && only_input_of_show(old, new) && typed(old.input, new.input, c),
            Key::Backspace => !search && only_input_of_show(old, new) && erased(old.input, new.input),
            Key::Left => !search && only_input_of_show(old, new) && moved_left(old.input, new.input),
            Key::Right => !search && only_input_of_show(old, new) && moved_right(old.input, new.input),
            _ => !search && new == old,
        }
    }
}

impl ShowScreen {
    pub fn new() -> (r: ShowScreen)
        ensures
            r.input.input@ == Seq::<char>::empty(),
            r.input.character_index == 0,
            r.vertical_scroll == 0,
            r.note_content is None,
            r.error_msg is None,
    {
        ShowScreen { vertical_scroll: 0, error_msg: None, note_content: None, input: Input::new() }
    }

    /// Handles one key; returns true when the note at the typed path is to be
    /// read.
    pub fn exec(&mut self, key: Key, pressed: bool) -> (search: bool)
        ensures
            show_screen_step(*old(self), *final(self), key, pressed, search),
    {
        if !pressed {
            return false;
        }
        match key {
            Key::Enter => !is_blank(self.input.input.as_str()),
            Key::Down => {
                self.vertical_scroll = self.vertical_scroll.saturating_add(1);
                false
            },
            Key::Up => {
                self.vertical_scroll = self.vertical_scroll.saturating_sub(1);
                false
            },
            Key::Char(to_insert) => {
                self.input.enter_char(to_insert);
                false
            },
            Key::Backspace => {
                self.input.delete_char();
                false
            },
            Key::Left => {
                self.input.move_cursor_left();
                false
            },
            Key::Right => {
                self.input.move_cursor_right();
                false
            },
            _ => false,
        }
    }

    /// Takes the outcome of reading the note at the typed path. On success
    /// the note is shown, the input emptied and the error cleared; on failure
    /// the screen is left as it was and the error handed back.
    pub fn search(&mut self, outcome: Result<String, String>) -> (r: Result<(), String>)
        ensures
            match outcome {
                Ok(text) => {
                    &&& r is Ok
                    &&& final(self).note_content == Some(text)
                    &&& final(self).input.input@ == Seq::<char>::empty()
                    &&& final(self).input.character_index == 0
                    &&& final(self).error_msg is None
                    &&& final(self).vertical_scroll == old(self).vertical_scroll
                },
                Err(err) => r == Err::<(), String>(err) && *final(self) == *old(self),
            },
    {
        match outcome {
            Ok(buf) => {
                self.note_content = Some(buf);
                self.input.input = String::new();
                self.input.reset_cursor();
                self.error_msg = None;
                Ok(())
            },
            Err(err) => Err(err),
        }
    }

    /// Shows `err` as the screen's error message.
    pub fn report_error(&mut self, err: String)
        ensures
            *final(self) == (ShowScreen { error_msg: Some(err), ..*old(self) }),
    {
        self.error_msg = Some(err);
    }
}

#[derive(Clone, Copy, Debug, PartialEq, Eq)]
pub enum Screen {
    New,
    Show,
}

/// What the event loop does after a key.
#[derive(Clone, Copy, Debug, PartialEq, Eq)]
pub enum AppAction {
    Quit,
    Redraw,
    CreateNote,
    ShowNote,
}

/// One key in the application: Delete quits, a press of Insert switches
/// screens, and any other key goes to the screen on display, which may ask for
/// a note to be created or shown.
pub open spec fn app_step(old: App, new: App, key: Key, pressed: bool, r: AppAction) -> bool {
    if key == Key::Delete {
        r == AppAction::Quit && new == old
    } else if key == Key::Insert && pressed {
        r == AppAction::Redraw && new == App {
            screen_select: if old.screen_select == Screen::New {
                Screen::Show
            } else {
                Screen::New
            },
            ..old
        }
    } else if old.screen_select == Screen::New {
        &&& new == App { new_note_screen: new.new_note_screen, ..old }
        &&& new_screen_step(old.new_note_screen, new.new_note_screen, key, pressed, r == AppAction::CreateNote)
        &&& r == AppAction::CreateNote || r == AppAction::Redraw
    } else {
        &&& new == App { show_note_screen: new.show_note_screen, ..old }
        &&& show_screen_step(old.show_note_screen, new.show_note_screen, key, pressed, r == AppAction::ShowNote)
        &&& r == AppAction::ShowNote || r == AppAction::Redraw
    }
}

pub struct App {
    pub cfg: Config,
    pub screen_select: Screen,
    pub new_note_screen: NewScreen,
    pub show_note_screen: ShowScreen,
}

impl App {
    pub fn new(cfg: Config) -> (r: App)
        ensures
            r.cfg == cfg,
            r.screen_select == Screen::New,
            r.new_note_screen.input_mode == InputMode::Normal,
            r.new_note_screen.input.input@ == Seq::<char>::empty(),
            r.new_note_screen.input.character_index == 0,
            r.new_note_screen.created_note is None,
            r.new_note_screen.error_msg is None,
            r.show_note_screen.input.input@ == Seq::<char>::empty(),
            r.show_note_screen.input.character_index == 0,
            r.show_note_screen.note_content is None,
            r.show_note_screen.error_msg is None,
            r.show_note_screen.vertical_scroll == 0,
    {
        App {
            screen_select: Screen::New,
            new_note_screen: NewScreen::new(),
            show_note_screen: ShowScreen::new(),
            cfg,
        }
    }

    /// Handles one key: Delete quits, a press of Insert switches screens, and
    /// any other key goes to the screen on display.
    pub fn handle_key(&mut self, key: Key, pressed: bool) -> (r: AppAction)
        ensures
            app_step(*old(self), *final(self), key, pressed, r),
    {
        match key {
            Key::Delete => {
                return AppAction::Quit;
            },
            Key::Insert => {
                if pressed {
                    self.screen_select = match self.screen_select {
                        Screen::Show => Screen::New,
                        Screen::New => Screen::Show,
                    };
                    return AppAction::Redraw;
                }
            },
            _ => {},
        }
        match self.screen_select {
            Screen::New => {
                if self.new_note_screen.exec(key, pressed) {
                    AppAction::CreateNote
                } else {
                    AppAction::Redraw
                }
            },
            Screen::Show => {
                if self.show_note_screen.exec(key, pressed) {
                    AppAction::ShowNote
                } else {
                    AppAction::Redraw
                }
            },
        }
    }
}

} // verus!
