use sn::notes::{
    arrange_entries, directory_listing, entry_name, name_from_stem, note_name, is_note_extension, is_note_file, left_panel_width, new_note_path,
    notes_dir, notes_of, relative_dir, relative_display, relative_path, same_text, sanitize_name,
    sort_by_name, BrowserEntry, Note, NoteError,
};

fn note(name: &str) -> Note {
    Note {
        name: name.to_string(),
        path: format!("/notes/{name}.md"),
        content: format!("# {name}"),
    }
}

fn dir(name: &str) -> BrowserEntry {
    BrowserEntry::Directory {
        name: name.to_string(),
        path: format!("/notes/{name}"),
    }
}

fn names(entries: &[BrowserEntry]) -> Vec<String> {
    entries.iter().map(|e| entry_name(e).to_string()).collect()
}

#[test]
fn lists_directories_before_notes() {
    let entries = arrange_entries(
        false,
        vec![dir("work")],
        vec![BrowserEntry::Note(note("welcome"))],
    );
    assert!(matches!(entries.first(), Some(BrowserEntry::Directory { .. })));
    assert!(entries
        .iter()
        .any(|entry| matches!(entry, BrowserEntry::Note(_))));
}

#[test]
fn parent_entry_appears_in_subdirectories() {
    let entries = arrange_entries(true, Vec::new(), Vec::new());
    assert!(matches!(entries.first(), Some(BrowserEntry::Parent)));
    let entries = arrange_entries(false, Vec::new(), Vec::new());
    assert!(entries.is_empty());
}

#[test]
fn listing_shows_the_parent_only_below_the_root() {
    let entries = directory_listing("/notes", "/notes/work", Vec::new(), vec![BrowserEntry::Note(note("a"))]);
    assert_eq!(names(&entries), vec!["..", "a"]);
    let entries = directory_listing("/notes", "/notes", Vec::new(), vec![BrowserEntry::Note(note("a"))]);
    assert_eq!(names(&entries), vec!["a"]);
    let entries = directory_listing("/notes", "/notes/", Vec::new(), Vec::new());
    assert!(entries.is_empty());
    let entries = directory_listing("/notes", "/notesx", Vec::new(), Vec::new());
    assert!(matches!(entries.first(), Some(BrowserEntry::Parent)));
}

#[test]
fn listing_sorts_each_group_by_name() {
    let entries = arrange_entries(
        true,
        vec![dir("zeta"), dir("alpha"), dir("Beta")],
        vec![
            BrowserEntry::Note(note("todo")),
            BrowserEntry::Note(note("ideas")),
            BrowserEntry::Note(note("éclair")),
            BrowserEntry::Note(note("Zoo")),
        ],
    );
    assert_eq!(
        names(&entries),
        vec!["..", "Beta", "alpha", "zeta", "Zoo", "ideas", "todo", "éclair"]
    );
}

#[test]
fn sorting_keeps_equal_names_in_order() {
    let first = Note { name: "a".into(), path: "/n/a.md".into(), content: "md".into() };
    let second = Note { name: "a".into(), path: "/n/a.txt".into(), content: "txt".into() };
    let sorted = sort_by_name(vec![
        BrowserEntry::Note(note("b")),
        BrowserEntry::Note(first),
        BrowserEntry::Note(second),
    ]);
    let paths: Vec<String> = sorted
        .iter()
        .map(|e| match e {
            BrowserEntry::Note(n) => n.path.clone(),
            _ => String::new(),
        })
        .collect();
    assert_eq!(paths, vec!["/n/a.md", "/n/a.txt", "/notes/b.md"]);
}

#[test]
fn entry_names() {
    assert_eq!(entry_name(&BrowserEntry::Parent), "..");
    assert_eq!(entry_name(&dir("work")), "work");
    assert_eq!(entry_name(&BrowserEntry::Note(note("todo"))), "todo");
}

#[test]
fn sanitize_trims_and_drops_forbidden_characters() {
    assert_eq!(sanitize_name("  my/note:*?  "), "mynote");
    assert_eq!(sanitize_name("a\\b\"c<d>e|f"), "abcdef");
    assert_eq!(sanitize_name("\t plain name \n"), "plain name");
    assert_eq!(sanitize_name(" / "), "");
    assert_eq!(sanitize_name("naïve"), "naïve");
}

#[test]
fn new_note_path_refuses_empty_names() {
    assert_eq!(new_note_path("/notes", "   "), Err(NoteError::EmptyName));
    assert_eq!(new_note_path("/notes", "//"), Err(NoteError::EmptyName));
    assert_eq!(new_note_path("/notes", " todo? "), Ok("/notes/todo.md".to_string()));
    assert_eq!(new_note_path("/notes/", "x"), Ok("/notes/x.md".to_string()));
}

#[test]
fn new_note_path_puts_a_separator_after_the_directory() {
    assert_eq!(new_note_path("notes", "a"), Ok("notes/a.md".to_string()));
    assert_eq!(new_note_path(".", "a"), Ok("./a.md".to_string()));
    assert_eq!(new_note_path("", "a"), Ok("a.md".to_string()));
}

#[test]
fn error_messages() {
    assert_eq!(NoteError::EmptyName.message(), "Note name cannot be empty");
    assert_eq!(NoteError::AlreadyExists.message(), "A note with this name already exists");
    assert_eq!(NoteError::NotFound.message(), "Note file not found");
}

#[test]
fn note_extensions() {
    assert!(is_note_extension(Some("md")));
    assert!(is_note_extension(Some("txt")));
    assert!(!is_note_extension(Some("rs")));
    assert!(!is_note_extension(Some("MD")));
    assert!(!is_note_extension(None));
}

#[test]
fn note_files_need_a_note_extension() {
    assert!(is_note_file("/notes/a.md", true));
    assert!(is_note_file("/notes/a.txt", true));
    assert!(!is_note_file("/notes/a.md", false));
    assert!(!is_note_file("/notes/a.rs", true));
    assert!(!is_note_file("/notes/md", true));
}

#[test]
fn relative_paths_drop_the_root() {
    assert_eq!(relative_path("/notes", "/notes/work/task.md"), "work/task.md");
    assert_eq!(relative_path("/notes", "/other/task.md"), "/other/task.md");
    assert_eq!(relative_dir("/notes", "/notes/work"), "work");
    assert_eq!(relative_dir("/notes", "/notes"), "");
}

#[test]
fn relative_paths_match_whole_components() {
    assert_eq!(relative_dir("/notes", "/notesx"), "/notesx");
    assert_eq!(relative_path("/notes", "/notesx/a.md"), "/notesx/a.md");
    assert_eq!(relative_path("notes", "notes/a.md"), "a.md");
    assert_eq!(relative_path("/notes/work", "/notes/a.md"), "/notes/a.md");
}

#[test]
fn relative_display_uses_forward_slashes() {
    assert_eq!(relative_display(Some("work\\task.md"), "ignored"), "work/task.md");
    assert_eq!(relative_display(None, "C:\\notes\\a.md"), "C:/notes/a.md");
}

#[test]
fn left_panel_width_from_setting() {
    assert_eq!(left_panel_width(None), 32);
    assert_eq!(left_panel_width(Some("40")), 40);
    assert_eq!(left_panel_width(Some("+7")), 7);
    assert_eq!(left_panel_width(Some("wide")), 32);
    assert_eq!(left_panel_width(Some("-3")), 32);
    assert_eq!(left_panel_width(Some("70000")), 32);
    assert_eq!(left_panel_width(Some("")), 32);
}

#[test]
fn notes_dir_from_setting() {
    assert_eq!(notes_dir(Some("/data/notes"), Some("/home")), "/data/notes");
    assert_eq!(notes_dir(None, Some("/home/me")), "/home/me/notes");
    assert_eq!(notes_dir(None, None), "./notes");
}

#[test]
fn notes_of_keeps_only_notes() {
    let notes = notes_of(vec![
        BrowserEntry::Parent,
        dir("work"),
        BrowserEntry::Note(note("a")),
        BrowserEntry::Note(note("b")),
    ]);
    let names: Vec<&str> = notes.iter().map(|n| n.name.as_str()).collect();
    assert_eq!(names, vec!["a", "b"]);
}

#[test]
fn same_text_compares_characters() {
    assert!(same_text("abc", "abc"));
    assert!(!same_text("abc", "abd"));
    assert!(!same_text("abc", "ab"));
    assert!(same_text("", ""));
}

#[test]
fn note_names_come_from_the_file_stem() {
    assert_eq!(note_name("/notes/todo.md"), "todo");
    assert_eq!(note_name("/notes/archive.2024.txt"), "archive.2024");
    assert_eq!(note_name("/"), "untitled");
    assert_eq!(note_name("/notes/.hidden"), ".hidden");
    assert_eq!(note_name("/notes/plain"), "plain");
    assert_eq!(note_name("notes/draft."), "draft");
    assert_eq!(note_name("/notes/.cfg.txt"), ".cfg");
    assert_eq!(name_from_stem(Some("x")), "x");
    assert_eq!(name_from_stem(None), "untitled");
}
