use sn::app::{App, Mode, Rect};
use sn::notes::{BrowserEntry, Note};
use sn::ui::{
    centered_rect, empty_preview, entry_label, footer_numbers, footer_row, prompt_cursor,
    scroll_info, status_help, status_width, EmptyPreview, Tone,
};

fn rect(x: u16, y: u16, width: u16, height: u16) -> Rect {
    Rect { x, y, width, height }
}

#[test]
fn labels_of_entries() {
    assert_eq!(entry_label(&BrowserEntry::Parent), ("../".to_string(), Tone::Muted));
    let dir = BrowserEntry::Directory { name: "work".into(), path: "/n/work".into() };
    assert_eq!(entry_label(&dir), ("work/".to_string(), Tone::Folder));
    let note = BrowserEntry::Note(Note { name: "todo".into(), path: "/n/todo.md".into(), content: String::new() });
    assert_eq!(entry_label(&note), ("todo".to_string(), Tone::Plain));
}

#[test]
fn help_line_follows_the_mode() {
    let mut app = App::new("/n".into(), 32, Vec::new());
    assert!(status_help(&app).starts_with("↑↓/jk navigate"));
    app.mode = Mode::CreateNote { input: String::new(), error: None };
    assert_eq!(status_help(&app), "Enter create  Esc cancel");
}

#[test]
fn footer_placement() {
    assert_eq!(footer_row(rect(0, 0, 30, 20)), Some(18));
    assert_eq!(footer_row(rect(0, 5, 30, 2)), None);
    assert_eq!(footer_numbers(0, 3), (1, 3));
}

#[test]
fn preview_without_a_note() {
    assert_eq!(empty_preview(&Vec::new(), 0), EmptyPreview::NothingListed);
    let entries = vec![
        BrowserEntry::Parent,
        BrowserEntry::Directory { name: "w".into(), path: "/w".into() },
    ];
    assert_eq!(empty_preview(&entries, 0), EmptyPreview::ParentFolder);
    assert_eq!(empty_preview(&entries, 1), EmptyPreview::Folder);
    assert_eq!(empty_preview(&entries, 5), EmptyPreview::NoNote);
}

#[test]
fn scroll_indicator() {
    assert_eq!(scroll_info(0, 10, 5), None);
    assert_eq!(scroll_info(3, 10, 30), Some((4, 13, 30)));
    assert_eq!(scroll_info(25, 10, 30), Some((26, 30, 30)));
    assert_eq!(scroll_info(0, 0, 30), None);
}

#[test]
fn status_message_width() {
    assert_eq!(status_width(80, 5), 6);
    assert_eq!(status_width(4, 5), 4);
}

#[test]
fn prompt_cursor_follows_input() {
    assert_eq!(prompt_cursor(rect(10, 4, 30, 5), 3), (13, 5));
}

#[test]
fn centered_popup() {
    assert_eq!(centered_rect(60, 7, rect(0, 0, 100, 40)), rect(20, 16, 60, 7));
    assert_eq!(centered_rect(60, 7, rect(0, 0, 10, 5)), rect(2, 0, 20, 5));
}
