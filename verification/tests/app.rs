use sn::app::{Action, App, KeyCode, KeyEvent, KeyModifiers, Mode, Rect};
use sn::notes::Note;

fn key(code: KeyCode) -> KeyEvent {
    KeyEvent {
        code,
        modifiers: KeyModifiers { shift: false, control: false, alt: false },
    }
}

fn ch(c: char) -> KeyEvent {
    key(KeyCode::Char(c))
}

fn note(name: &str, content: &str) -> Note {
    Note {
        name: name.to_string(),
        path: format!("/notes/{name}.md"),
        content: content.to_string(),
    }
}

fn sample() -> App {
    App::new(
        "/notes".to_string(),
        32,
        vec![note("a", "alpha"), note("b", "beta\nline"), note("c", "")],
    )
}

#[test]
fn q_and_esc_quit() {
    let mut app = sample();
    assert_eq!(app.handle_key(ch('q')), Action::Nothing);
    assert!(app.should_quit);
    let mut app = sample();
    app.handle_key(key(KeyCode::Esc));
    assert!(app.should_quit);
}

#[test]
fn navigation_keys_move_the_selection() {
    let mut app = sample();
    app.handle_key(ch('j'));
    assert_eq!(app.selected, 1);
    assert_eq!(app.list_selection, Some(1));
    app.handle_key(key(KeyCode::Down));
    assert_eq!(app.selected, 2);
    app.handle_key(ch('j'));
    assert_eq!(app.selected, 2);
    app.handle_key(ch('k'));
    assert_eq!(app.selected, 1);
    app.handle_key(key(KeyCode::Up));
    app.handle_key(key(KeyCode::Up));
    assert_eq!(app.selected, 0);
    app.handle_key(ch('G'));
    assert_eq!(app.selected, 2);
    app.handle_key(ch('g'));
    assert_eq!(app.selected, 0);
    let shifted = KeyEvent {
        code: KeyCode::Char('g'),
        modifiers: KeyModifiers { shift: true, control: false, alt: false },
    };
    app.handle_key(shifted);
    assert_eq!(app.selected, 2);
}

#[test]
fn selection_resets_the_scroll() {
    let mut app = sample();
    app.handle_key(ch(']'));
    app.handle_key(ch(']'));
    assert_eq!(app.preview_scroll, 2);
    app.handle_key(ch('['));
    assert_eq!(app.preview_scroll, 1);
    app.handle_key(ch('j'));
    assert_eq!(app.preview_scroll, 0);
    app.handle_key(ch('['));
    assert_eq!(app.preview_scroll, 0);
}

#[test]
fn navigation_on_no_notes_changes_nothing() {
    let mut app = App::new("/notes".to_string(), 32, Vec::new());
    app.handle_key(ch('j'));
    app.handle_key(ch('G'));
    app.handle_key(ch('i'));
    assert_eq!(app.selected, 0);
    assert_eq!(app.mode, Mode::Normal);
    assert!(app.selected_note().is_none());
    assert!(app.preview_content().is_none());
}

#[test]
fn create_prompt_collects_the_name() {
    let mut app = sample();
    app.handle_key(ch('a'));
    assert!(app.is_create_prompt_open());
    assert_eq!(app.create_note_input(), Some(""));
    app.handle_key(ch('t'));
    app.handle_key(ch('o'));
    app.handle_key(ch('x'));
    app.handle_key(key(KeyCode::Backspace));
    let ctrl = KeyEvent {
        code: KeyCode::Char('c'),
        modifiers: KeyModifiers { shift: false, control: true, alt: false },
    };
    app.handle_key(ctrl);
    assert_eq!(app.create_note_input(), Some("to"));
    let action = app.handle_key(key(KeyCode::Enter));
    assert_eq!(
        action,
        Action::CreateNoteFile { dir: "/notes".to_string(), path: "/notes/to.md".to_string() }
    );
    assert!(app.is_create_prompt_open());
}

#[test]
fn create_prompt_refuses_an_empty_name() {
    let mut app = sample();
    app.handle_key(ch('a'));
    app.handle_key(ch(' '));
    assert_eq!(app.handle_key(key(KeyCode::Enter)), Action::Nothing);
    assert_eq!(app.create_note_error(), Some("Note name cannot be empty"));
    app.handle_key(ch('x'));
    assert_eq!(app.create_note_error(), None);
    app.handle_key(key(KeyCode::Esc));
    assert_eq!(app.mode, Mode::Normal);
    assert!(!app.should_quit);
}

#[test]
fn created_note_is_selected() {
    let mut app = sample();
    app.handle_key(ch('a'));
    app.handle_key(ch('n'));
    let listing = vec![note("a", ""), note("b", ""), note("c", ""), note("n", "")];
    app.note_created("/notes/n.md", Some(listing));
    assert_eq!(app.mode, Mode::Normal);
    assert_eq!(app.notes.len(), 4);
    assert_eq!(app.selected, 3);
    assert_eq!(app.list_selection, Some(3));
}

#[test]
fn created_note_is_found_by_its_path_components() {
    let mut app = sample();
    app.handle_key(ch('a'));
    app.handle_key(ch('n'));
    let listing = vec![note("a", ""), note("n", ""), note("z", "")];
    app.note_created("/notes/./n.md", Some(listing));
    assert_eq!(app.selected, 1);
    assert_eq!(app.list_selection, Some(1));
}

#[test]
fn failed_creation_shows_the_error() {
    let mut app = sample();
    app.handle_key(ch('a'));
    app.handle_key(ch('a'));
    app.note_create_failed("A note with this name already exists".to_string());
    assert_eq!(app.create_note_error(), Some("A note with this name already exists"));
    assert_eq!(app.create_note_input(), Some("a"));
}

#[test]
fn editing_then_saving_updates_the_note() {
    let mut app = sample();
    app.handle_key(ch('j'));
    app.handle_key(ch('i'));
    assert!(app.is_editing());
    assert!(app.is_editing_selected());
    assert_eq!(
        app.mode,
        Mode::EditNote { note_index: 1, content: "beta\nline".into(), cursor: 9, status: None }
    );
    app.handle_key(key(KeyCode::Up));
    app.handle_key(ch('!'));
    app.handle_key(key(KeyCode::Enter));
    app.handle_key(key(KeyCode::Left));
    app.handle_key(key(KeyCode::Right));
    app.handle_key(key(KeyCode::Down));
    assert_eq!(app.preview_content(), Some("beta!\n\nline"));
    let action = app.handle_key(key(KeyCode::Esc));
    assert_eq!(
        action,
        Action::SaveNote { path: "/notes/b.md".into(), content: "beta!\n\nline".into() }
    );
    assert!(app.is_editing());
    app.note_saved();
    assert_eq!(app.mode, Mode::Normal);
    assert_eq!(app.notes[1].content, "beta!\n\nline");
    assert_eq!(app.notes[0].content, "alpha");
}

#[test]
fn failed_save_keeps_the_editor_open() {
    let mut app = sample();
    app.handle_key(ch('i'));
    app.handle_key(ch('x'));
    app.handle_key(key(KeyCode::Esc));
    app.note_save_failed("disk full".to_string());
    assert_eq!(app.edit_status(), Some("disk full"));
    assert_eq!(app.notes[0].content, "alpha");
    app.handle_key(key(KeyCode::Backspace));
    assert_eq!(app.edit_status(), None);
    assert_eq!(app.preview_content(), Some("alpha"));
}

#[test]
fn reload_keeps_the_selection_in_range() {
    let mut app = sample();
    app.handle_key(ch('G'));
    app.handle_key(ch(']'));
    app.reload_notes(vec![note("a", ""), note("b", "")]);
    assert_eq!(app.selected, 1);
    assert_eq!(app.preview_scroll, 0);
    app.reload_notes(Vec::new());
    assert_eq!(app.selected, 0);
}

#[test]
fn left_width_limits() {
    let mut app = sample();
    assert_eq!(app.effective_left_width(200), 32);
    assert_eq!(app.effective_left_width(45), 25);
    assert_eq!(app.effective_left_width(30), 32);
    app.left_width = 5;
    assert_eq!(app.effective_left_width(200), 20);
}

#[test]
fn scroll_clamps_to_the_text() {
    let mut app = App::new(
        "/notes".into(),
        32,
        vec![note("long", "1\n2\n3\n4\n5\n6\n7\n8\n9\n10")],
    );
    app.preview_scroll = 50;
    app.clamp_preview_scroll(4);
    assert_eq!(app.preview_scroll, 6);
    app.clamp_preview_scroll(20);
    assert_eq!(app.preview_scroll, 0);
}

#[test]
fn scroll_follows_the_editor_cursor() {
    let mut app = App::new(
        "/notes".into(),
        32,
        vec![note("long", "1\n2\n3\n4\n5\n6\n7\n8\n9\n10")],
    );
    app.handle_key(ch('i'));
    app.clamp_preview_scroll(4);
    assert_eq!(app.preview_scroll, 6);
    for _ in 0..8 {
        app.handle_key(key(KeyCode::Up));
    }
    app.clamp_preview_scroll(4);
    assert_eq!(app.preview_scroll, 1);
}

#[test]
fn cursor_shows_in_the_preview() {
    let mut app = App::new("/notes".into(), 32, vec![note("a", "ab\ncdef")]);
    let inner = Rect { x: 40, y: 2, width: 10, height: 5 };
    assert_eq!(app.cursor_position_in_preview(inner), None);
    app.handle_key(ch('i'));
    assert_eq!(app.cursor_position_in_preview(inner), Some((44, 3)));
    app.preview_scroll = 2;
    assert_eq!(app.cursor_position_in_preview(inner), Some((44, 2)));
    app.preview_scroll = 0;
    let short = Rect { x: 40, y: 2, width: 10, height: 1 };
    assert_eq!(app.cursor_position_in_preview(short), None);
    let narrow = Rect { x: 40, y: 2, width: 3, height: 5 };
    app.preview_scroll = 0;
    assert_eq!(app.cursor_position_in_preview(narrow), Some((42, 3)));
}

#[test]
fn rect_bottom_saturates() {
    assert_eq!(Rect { x: 0, y: 3, width: 1, height: 4 }.bottom(), 7);
    assert_eq!(Rect { x: 0, y: 65000, width: 1, height: 4000 }.bottom(), u16::MAX);
}
