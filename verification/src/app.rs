use vstd::prelude::*;

use crate::notes::{new_note_path, note_file_name, sanitized, Note, NoteError};
use crate::strings::{ends_with, join_shape, paths_equal, same_path, string_pop, string_push};
use crate::text::{
    byte_len, char_width, clamp_cursor, column_of, cursor_char, cursor_after_delete, cursor_after_down, cursor_after_insert,
    cursor_after_left, cursor_after_right, cursor_after_up, cursor_column, cursor_line,
    cursor_valid, deleted, delete_before_cursor, fits, insert_char, inserted, lemma_byte_len_push,
    lemma_char_index, lemma_char_width, lemma_insert_then_delete, lemma_offset_full, line_count,
    line_of, move_cursor_down, move_cursor_left, move_cursor_right, move_cursor_up, total_lines,
};

verus! {

/// A key, as the terminal reports it.
#[derive(Clone, Copy, Debug, PartialEq, Eq)]
pub enum KeyCode {
    Char(char),
    Esc,
    Enter,
    Backspace,
    Left,
    Right,
    Up,
    Down,
    Other,
}

/// The modifier keys held with a key.
#[derive(Clone, Copy, Debug, PartialEq, Eq)]
pub struct KeyModifiers {
    pub shift: bool,
    pub control: bool,
    pub alt: bool,
}

/// A key press.
#[derive(Clone, Copy, Debug, PartialEq, Eq)]
pub struct KeyEvent {
    pub code: KeyCode,
    pub modifiers: KeyModifiers,
}

/// A rectangle of terminal cells.
#[derive(Clone, Copy, Debug, PartialEq, Eq)]
pub struct Rect {
    pub x: u16,
    pub y: u16,
    pub width: u16,
    pub height: u16,
}

impl Rect {
    /// The row just below the rectangle, at most `u16::MAX`.
    pub fn bottom(&self) -> (b: u16)
        ensures
            b == self.y.saturating_add(self.height),
    {
        self.y.saturating_add(self.height)
    }
}

/// What the screen is doing: browsing, naming a new note, or editing one.
#[derive(Debug, PartialEq, Eq)]
pub enum Mode {
    Normal,
    CreateNote { input: String, error: Option<String> },
    EditNote { note_index: usize, content: String, cursor: usize, status: Option<String> },
}

/// Outside work that a key asks for; its outcome comes back through
/// `note_created`, `note_create_failed`, `note_saved` or `note_save_failed`.
#[derive(Debug, PartialEq, Eq)]
pub enum Action {
    Nothing,
    /// Make `dir`, then write an empty note at `path` unless a file is there.
    CreateNoteFile { dir: String, path: String },
    /// Write `content` to the note file at `path`.
    SaveNote { path: String, content: String },
}

/// The state of the notes screen.
pub struct App {
    pub notes_dir: String,
    pub left_width: u16,
    pub notes: Vec<Note>,
    pub selected: usize,
    /// The row that the note list shows as selected.
    pub list_selection: Option<usize>,
    pub preview_scroll: u16,
    pub mode: Mode,
    pub should_quit: bool,
}

/// The text of the editor when it is open.
pub open spec fn edit_text(mode: Mode) -> Seq<char> {
    match mode {
        Mode::EditNote { content, .. } => content@,
        _ => Seq::empty(),
    }
}

/// The editor cursor when it is open.
pub open spec fn edit_cursor(mode: Mode) -> int {
    match mode {
        Mode::EditNote { cursor, .. } => cursor as int,
        _ => 0,
    }
}

/// The character the key types, where it types one: no Control or Alt is held.
pub open spec fn typed_char(key: KeyEvent) -> Option<char> {
    match key.code {
        KeyCode::Char(c) => if !key.modifiers.control && !key.modifiers.alt {
            Some(c)
        } else {
            None
        },
        _ => None,
    }
}

impl App {
    /// The state keeps its selection within the notes and its editor cursor on the
    /// text, and every text fits in memory.
    pub open spec fn wf(&self) -> bool {
        &&& (self.notes.len() == 0 ==> self.selected == 0)
        &&& (self.notes.len() > 0 ==> self.selected < self.notes.len())
        &&& forall|i: int| 0 <= i < self.notes.len() ==> fits(#[trigger] self.notes[i].content@)
        &&& match self.mode {
            Mode::Normal => true,
            Mode::CreateNote { input, .. } => fits(input@),
            Mode::EditNote { content, cursor, .. } => {
                &&& fits(content@)
                &&& cursor_valid(content@, cursor as int)
            },
        }
    }

    /// The note the editor is open on is one of the notes (the key or outcome about
    /// to be handled writes to it).
    pub open spec fn edit_target_exists(&self) -> bool {
        self.mode matches Mode::EditNote { note_index, .. } ==> note_index < self.notes.len()
    }

    /// Room for one more character in the text being typed: a `String` holds at most
    /// `isize::MAX` bytes.
    pub open spec fn has_room(&self) -> bool {
        match self.mode {
            Mode::Normal => true,
            Mode::CreateNote { input, .. } => byte_len(input@) + 4 <= isize::MAX,
            Mode::EditNote { content, .. } => byte_len(content@) + 4 <= isize::MAX,
        }
    }

    /// A screen over the given notes, nothing selected yet but the first.
    pub fn new(notes_dir: String, left_width: u16, notes: Vec<Note>) -> (app: App)
        requires
            forall|i: int| 0 <= i < notes.len() ==> fits(#[trigger] notes[i].content@),
        ensures
            app.wf(),
            app.notes_dir == notes_dir,
            app.left_width == left_width,
            app.notes == notes,
            app.selected == 0,
            app.list_selection is None,
            app.preview_scroll == 0,
            app.mode is Normal,
            !app.should_quit,
    {
        App {
            notes_dir,
            left_width,
            notes,
            selected: 0,
            list_selection: None,
            preview_scroll: 0,
            mode: Mode::Normal,
            should_quit: false,
        }
    }

    /// The selection once the notes are replaced by `notes`: kept where it still
    /// points at a note, else the last note, else 0.
    pub open spec fn reloaded_selection(self, count: usize) -> usize {
        if count == 0 {
            0
        } else if self.selected >= count {
            (count - 1) as usize
        } else {
            self.selected
        }
    }

    /// Replaces the notes by a fresh listing; the selection stays within them and the
    /// preview scrolls back to the top.
    pub fn reload_notes(&mut self, notes: Vec<Note>)
        requires
            old(self).wf(),
            forall|i: int| 0 <= i < notes.len() ==> fits(#[trigger] notes[i].content@),
        ensures
            final(self).wf(),
            *final(self) == (App {
                notes: notes,
                selected: old(self).reloaded_selection(notes.len()),
                preview_scroll: 0,
                ..*old(self)
            }),
    {
        self.notes = notes;
        if self.notes.len() == 0 {
            self.selected = 0;
        } else if self.selected >= self.notes.len() {
            self.selected = self.notes.len() - 1;
        }
        self.preview_scroll = 0;
    }

    /// Reloads the notes and selects the one at `path`, where it is among them.
    pub fn reload_notes_and_select(&mut self, notes: Vec<Note>, path: &str)
        requires
            old(self).wf(),
            forall|i: int| 0 <= i < notes.len() ==> fits(#[trigger] notes[i].content@),
        ensures
            final(self).wf(),
            final(self).notes == notes,
            final(self).preview_scroll == 0,
            match path_position(notes@, path@) {
                Some(i) => final(self).selected == i && final(self).list_selection == Some(
                    i as usize,
                ),
                None => final(self).selected == old(self).reloaded_selection(notes.len())
                    && final(self).list_selection == old(self).list_selection,
            },
            final(self).notes_dir == old(self).notes_dir,
            final(self).left_width == old(self).left_width,
            final(self).mode == old(self).mode,
            final(self).should_quit == old(self).should_quit,
    {
        self.reload_notes(notes);
        proof {
            lemma_path_position_bound(self.notes@, path@);
        }
        let found = find_note(&self.notes, path);
        match found {
            Some(idx) => {
                self.selected = idx;
                self.list_selection = Some(idx);
            },
            None => {},
        }
    }

    /// Width of the notes panel: the setting, at least 20, and on a terminal wider
    /// than 40 columns at most its width less 20.
    pub fn effective_left_width(&self, term_width: u16) -> (width: u16)
        ensures
            width == ({
                let w = if self.left_width < 20 {
                    20u16
                } else {
                    self.left_width
                };
                if term_width > 40 && (term_width - 20) < w {
                    (term_width - 20) as u16
                } else {
                    w
                }
            }),
    {
        let mut width = if self.left_width < 20 { 20 } else { self.left_width };
        if term_width > 40 {
            let limit = term_width - 20;
            if limit < width {
                width = limit;
            }
        }
        width
    }

    /// The selected note, where there is one.
    pub fn selected_note(&self) -> (note: Option<&Note>)
        ensures
            self.selected < self.notes.len() ==> note == Some(&self.notes[self.selected as int]),
            self.selected >= self.notes.len() ==> note is None,
    {
        if self.selected < self.notes.len() {
            Some(&self.notes[self.selected])
        } else {
            None
        }
    }

    /// State after moving the selection down one note, where there is one below.
    pub open spec fn after_select_next(self) -> App {
        if self.selected + 1 < self.notes.len() {
            App {
                selected: (self.selected + 1) as usize,
                list_selection: Some((self.selected + 1) as usize),
                preview_scroll: 0,
                ..self
            }
        } else {
            self
        }
    }

    /// State after moving the selection up one note, where there is one above.
    pub open spec fn after_select_prev(self) -> App {
        if self.selected > 0 {
            App {
                selected: (self.selected - 1) as usize,
                list_selection: Some((self.selected - 1) as usize),
                preview_scroll: 0,
                ..self
            }
        } else {
            self
        }
    }

    /// State after selecting the first note, where there is one.
    pub open spec fn after_select_first(self) -> App {
        if self.notes.len() > 0 {
            App { selected: 0, list_selection: Some(0), preview_scroll: 0, ..self }
        } else {
            self
        }
    }

    /// State after selecting the last note, where there is one.
    pub open spec fn after_select_last(self) -> App {
        if self.notes.len() > 0 {
            App {
                selected: (self.notes.len() - 1) as usize,
                list_selection: Some((self.notes.len() - 1) as usize),
                preview_scroll: 0,
                ..self
            }
        } else {
            self
        }
    }

    fn select_next(&mut self)
        requires
            old(self).wf(),
        ensures
            *final(self) == old(self).after_select_next(),
    {
        if self.selected + 1 < self.notes.len() {
            self.selected = self.selected + 1;
            self.list_selection = Some(self.selected);
            self.preview_scroll = 0;
        }
    }

    fn select_prev(&mut self)
        ensures
            *final(self) == old(self).after_select_prev(),
    {
        if self.selected > 0 {
            self.selected = self.selected - 1;
            self.list_selection = Some(self.selected);
            self.preview_scroll = 0;
        }
    }

    fn select_first(&mut self)
        ensures
            *final(self) == old(self).after_select_first(),
    {
        if self.notes.len() > 0 {
            self.selected = 0;
            self.list_selection = Some(0);
            self.preview_scroll = 0;
        }
    }

    fn select_last(&mut self)
        ensures
            *final(self) == old(self).after_select_last(),
    {
        if self.notes.len() > 0 {
            self.selected = self.notes.len() - 1;
            self.list_selection = Some(self.selected);
            self.preview_scroll = 0;
        }
    }

    fn scroll_preview_up(&mut self)
        ensures
            *final(self) == (App {
                preview_scroll: old(self).preview_scroll.saturating_sub(1),
                ..*old(self)
            }),
    {
        self.preview_scroll = self.preview_scroll.saturating_sub(1);
    }

    fn scroll_preview_down(&mut self)
        ensures
            *final(self) == (App {
                preview_scroll: old(self).preview_scroll.saturating_add(1),
                ..*old(self)
            }),
    {
        self.preview_scroll = self.preview_scroll.saturating_add(1);
    }

    /// The prompt for a new note's name is open, empty and without an error.
    pub open spec fn prompt_just_opened(pre: App, post: App) -> bool {
        &&& post == App { mode: post.mode, ..pre }
        &&& post.mode matches Mode::CreateNote { input, error } && input@.len() == 0
            && error is None
    }

    fn open_create_prompt(&mut self)
        ensures
            Self::prompt_just_opened(*old(self), *final(self)),
    {
        self.mode = Mode::CreateNote { input: String::new(), error: None };
    }

    /// The editor opened on the selected note, with the cursor at the end of its text;
    /// without a selected note nothing changes.
    pub open spec fn after_open_edit(self) -> App {
        if self.selected < self.notes.len() {
            App {
                mode: Mode::EditNote {
                    note_index: self.selected,
                    content: self.notes[self.selected as int].content,
                    cursor: byte_len(self.notes[self.selected as int].content@) as usize,
                    status: None,
                },
                ..self
            }
        } else {
            self
        }
    }

    fn open_edit_mode(&mut self)
        requires
            old(self).wf(),
        ensures
            *final(self) == old(self).after_open_edit(),
    {
        if self.selected >= self.notes.len() {
            return;
        }
        let content = self.notes[self.selected].content.clone();
        let cursor = content.as_str().len();
        self.mode = Mode::EditNote { note_index: self.selected, cursor, content, status: None };
    }

    /// What a key does on the browsing screen.
    pub open spec fn normal_key_post(pre: App, post: App, key: KeyEvent) -> bool {
        match key.code {
            KeyCode::Char('q') | KeyCode::Esc => post == App { should_quit: true, ..pre },
            KeyCode::Char('a') => Self::prompt_just_opened(pre, post),
            KeyCode::Char('i') => post == pre.after_open_edit(),
            KeyCode::Char('j') | KeyCode::Down => post == pre.after_select_next(),
            KeyCode::Char('k') | KeyCode::Up => post == pre.after_select_prev(),
            KeyCode::Char('g') => if key.modifiers.shift {
                post == pre.after_select_last()
            } else {
                post == pre.after_select_first()
            },
            KeyCode::Char('G') => post == pre.after_select_last(),
            KeyCode::Char(']') => post == App {
                preview_scroll: pre.preview_scroll.saturating_add(1),
                ..pre
            },
            KeyCode::Char('[') => post == App {
                preview_scroll: pre.preview_scroll.saturating_sub(1),
                ..pre
            },
            _ => post == pre,
        }
    }

    fn handle_normal_key(&mut self, key: KeyEvent)
        requires
            old(self).wf(),
            old(self).mode is Normal,
        ensures
            Self::normal_key_post(*old(self), *final(self), key),
            final(self).wf(),
    {
        match key.code {
            KeyCode::Char('q') | KeyCode::Esc => self.should_quit = true,
            KeyCode::Char('a') => self.open_create_prompt(),
            KeyCode::Char('i') => self.open_edit_mode(),
            KeyCode::Char('j') | KeyCode::Down => self.select_next(),
            KeyCode::Char('k') | KeyCode::Up => self.select_prev(),
            KeyCode::Char('g') if key.modifiers.shift => self.select_last(),
            KeyCode::Char('g') => self.select_first(),
            KeyCode::Char('G') => self.select_last(),
            KeyCode::Char(']') => self.scroll_preview_down(),
            KeyCode::Char('[') => self.scroll_preview_up(),
            _ => {},
        }
        proof {
            if self.mode is EditNote {
                let c = self.notes[self.selected as int].content@;
                lemma_offset_full(c);
                lemma_char_index(c, c.len() as int);
            }
        }
    }

    /// What a key does in the prompt for a new note's name. Enter asks for the note
    /// file where the name is usable; the outcome comes back later.
    pub open spec fn create_key_post(pre: App, post: App, key: KeyEvent, action: Action) -> bool {
        let input = match pre.mode {
            Mode::CreateNote { input, .. } => input@,
            _ => Seq::empty(),
        };
        &&& post == App { mode: post.mode, ..pre }
        &&& match key.code {
            KeyCode::Esc => post.mode is Normal && action is Nothing,
            KeyCode::Enter => if sanitized(input).len() == 0 {
                &&& post.mode matches Mode::CreateNote { input: i2, error: Some(e) }
                &&& i2@ == input
                &&& e@ == "Note name cannot be empty"@
                &&& action is Nothing
            } else {
                &&& post.mode == pre.mode
                &&& action matches Action::CreateNoteFile { dir, path }
                &&& dir == pre.notes_dir
                &&& join_shape(pre.notes_dir@, note_file_name(input), path@)
            },
            KeyCode::Backspace => {
                &&& post.mode matches Mode::CreateNote { input: i2, error: None }
                &&& i2@ == if input.len() == 0 {
                    input
                } else {
                    input.drop_last()
                }
                &&& action is Nothing
            },
            _ => match typed_char(key) {
                Some(c) => {
                    &&& post.mode matches Mode::CreateNote { input: i2, error: None }
                    &&& i2@ == input.push(c)
                    &&& action is Nothing
                },
                None => post.mode == pre.mode && action is Nothing,
            },
        }
    }

    fn handle_create_note_key(&mut self, key: KeyEvent) -> (action: Action)
        requires
            old(self).wf(),
            old(self).has_room(),
            old(self).mode is CreateNote,
        ensures
            Self::create_key_post(*old(self), *final(self), key, action),
            final(self).wf(),
    {
        let ghost pre = *self;
        match key.code {
            KeyCode::Esc => {
                self.mode = Mode::Normal;
                Action::Nothing
            },
            KeyCode::Enter => {
                let planned = match &self.mode {
                    Mode::CreateNote { input, .. } => new_note_path(
                        self.notes_dir.as_str(),
                        input.as_str(),
                    ),
                    _ => Err(NoteError::EmptyName),
                };
                match planned {
                    Ok(path) => {
                        Action::CreateNoteFile { dir: self.notes_dir.clone(), path }
                    },
                    Err(e) => {
                        let message = String::from_str(e.message());
                        if let Mode::CreateNote { error, .. } = &mut self.mode {
                            *error = Some(message);
                        }
                        Action::Nothing
                    },
                }
            },
            KeyCode::Backspace => {
                if let Mode::CreateNote { input, error } = &mut self.mode {
                    let _ = string_pop(input);
                    *error = None;
                }
                proof {
                    lemma_fits_drop_last(edit_input(pre.mode));
                }
                Action::Nothing
            },
            KeyCode::Char(c) => {
                if !key.modifiers.control && !key.modifiers.alt {
                    proof {
                        lemma_char_width(c);
                        lemma_byte_len_push(edit_input(pre.mode), c);
                    }
                    if let Mode::CreateNote { input, error } = &mut self.mode {
                        string_push(input, c);
                        *error = None;
                    }
                }
                Action::Nothing
            },
            _ => Action::Nothing,
        }
    }

    /// What a key does in the editor: Esc asks for the text to be saved (the outcome
    /// comes back later), the other keys edit the text or move the cursor.
    pub open spec fn edit_key_post(pre: App, post: App, key: KeyEvent, action: Action) -> bool {
        let text = edit_text(pre.mode);
        let cursor = edit_cursor(pre.mode);
        &&& post == App { mode: post.mode, ..pre }
        &&& match pre.mode {
            Mode::EditNote { note_index, content, .. } => match key.code {
                KeyCode::Esc => {
                    &&& post.mode == pre.mode
                    &&& action matches Action::SaveNote { path, content: saved }
                    &&& path == pre.notes[note_index as int].path
                    &&& saved == content
                },
                _ => {
                    &&& action is Nothing
                    &&& post.mode matches Mode::EditNote {
                        note_index: n2,
                        content: c2,
                        cursor: k2,
                        status: s2,
                    }
                    &&& n2 == note_index
                    &&& match key.code {
                        KeyCode::Backspace => {
                            &&& c2@ == deleted(text, cursor)
                            &&& k2 == cursor_after_delete(text, cursor)
                            &&& s2 is None
                        },
                        KeyCode::Enter => {
                            &&& c2@ == inserted(text, cursor, '\n')
                            &&& k2 == cursor_after_insert(text, cursor, '\n')
                            &&& s2 is None
                        },
                        KeyCode::Left => c2 == content && k2 == cursor_after_left(text, cursor)
                            && s2 is None,
                        KeyCode::Right => c2 == content && k2 == cursor_after_right(text, cursor)
                            && s2 is None,
                        KeyCode::Up => c2 == content && k2 == cursor_after_up(text, cursor)
                            && s2 is None,
                        KeyCode::Down => c2 == content && k2 == cursor_after_down(text, cursor)
                            && s2 is None,
                        _ => match typed_char(key) {
                            Some(c) => {
                                &&& c2@ == inserted(text, cursor, c)
                                &&& k2 == cursor_after_insert(text, cursor, c)
                                &&& s2 is None
                            },
                            None => post.mode == pre.mode,
                        },
                    }
                },
            },
            _ => false,
        }
    }

    fn handle_edit_note_key(&mut self, key: KeyEvent) -> (action: Action)
        requires
            old(self).wf(),
            key.code is Esc ==> old(self).edit_target_exists(),
            old(self).has_room(),
            old(self).mode is EditNote,
        ensures
            Self::edit_key_post(*old(self), *final(self), key, action),
            final(self).wf(),
    {
        if let KeyCode::Esc = key.code {
            return self.save_and_exit_edit();
        }
        let ghost pre = *self;
        if let Mode::EditNote { content, cursor, status, .. } = &mut self.mode {
            match key.code {
                KeyCode::Backspace => {
                    delete_before_cursor(content, cursor);
                    *status = None;
                },
                KeyCode::Enter => {
                    proof {
                        lemma_char_width('\n');
                    }
                    insert_char(content, cursor, '\n');
                    *status = None;
                },
                KeyCode::Left => {
                    move_cursor_left(content.as_str(), cursor);
                    *status = None;
                },
                KeyCode::Right => {
                    move_cursor_right(content.as_str(), cursor);
                    *status = None;
                },
                KeyCode::Up => {
                    move_cursor_up(content.as_str(), cursor);
                    *status = None;
                },
                KeyCode::Down => {
                    move_cursor_down(content.as_str(), cursor);
                    *status = None;
                },
                KeyCode::Char(c) => {
                    if !key.modifiers.control && !key.modifiers.alt {
                        proof {
                            lemma_char_width(c);
                        }
                        insert_char(content, cursor, c);
                        *status = None;
                    }
                },
                _ => {},
            }
        }
        Action::Nothing
    }

    /// Esc in the editor: asks for the text to be written to the note's file.
    fn save_and_exit_edit(&mut self) -> (action: Action)
        requires
            old(self).wf(),
            old(self).edit_target_exists(),
        ensures
            *final(self) == *old(self),
            old(self).mode matches Mode::EditNote { note_index, content, .. } ==> action
                matches Action::SaveNote { path, content: saved } && path == old(
                self,
            ).notes[note_index as int].path && saved == content,
            !(old(self).mode is EditNote) ==> action is Nothing,
    {
        match &self.mode {
            Mode::EditNote { note_index, content, .. } => {
                let path = self.notes[*note_index].path.clone();
                Action::SaveNote { path, content: content.clone() }
            },
            _ => Action::Nothing,
        }
    }

    /// Handles one key press: the new state, and the outside work it asks for. In the
    /// editor, every key but Esc keeps the editor open on the same note, with the
    /// cursor on a character boundary of the text.
    pub fn handle_key(&mut self, key: KeyEvent) -> (action: Action)
        requires
            old(self).wf(),
            key.code is Esc ==> old(self).edit_target_exists(),
            old(self).has_room(),
        ensures
            final(self).wf(),
            old(self).mode is Normal ==> Self::normal_key_post(*old(self), *final(self), key)
                && action is Nothing,
            old(self).mode is CreateNote ==> Self::create_key_post(
                *old(self),
                *final(self),
                key,
                action,
            ),
            old(self).mode is EditNote ==> Self::edit_key_post(
                *old(self),
                *final(self),
                key,
                action,
            ),
            old(self).mode is EditNote && !(key.code is Esc) ==> {
                &&& final(self).mode is EditNote
                &&& final(self).mode->note_index == old(self).mode->note_index
                &&& final(self).notes == old(self).notes
                &&& cursor_valid(final(self).mode->content@, final(self).mode->cursor as int)
            },
    {
        match &self.mode {
            Mode::Normal => {
                self.handle_normal_key(key);
                Action::Nothing
            },
            Mode::CreateNote { .. } => self.handle_create_note_key(key),
            Mode::EditNote { .. } => self.handle_edit_note_key(key),
        }
    }

    /// The note file was created at `path`: the notes are reloaded from `listing`
    /// (left as they are where reading them failed), the new note is selected where it
    /// is among them, and the prompt closes.
    pub fn note_created(&mut self, path: &str, listing: Option<Vec<Note>>)
        requires
            old(self).wf(),
            listing matches Some(l) ==> forall|i: int|
                0 <= i < l.len() ==> fits(#[trigger] l[i].content@),
        ensures
            final(self).wf(),
            final(self).mode is Normal,
            match listing {
                Some(l) => {
                    &&& final(self).notes == l
                    &&& final(self).preview_scroll == 0
                    &&& match path_position(l@, path@) {
                        Some(i) => final(self).selected == i && final(self).list_selection
                            == Some(i as usize),
                        None => final(self).selected == old(self).reloaded_selection(l.len())
                            && final(self).list_selection == old(self).list_selection,
                    }
                },
                None => *final(self) == App { mode: final(self).mode, ..*old(self) },
            },
            final(self).notes_dir == old(self).notes_dir,
            final(self).left_width == old(self).left_width,
            final(self).should_quit == old(self).should_quit,
    {
        match listing {
            Some(notes) => self.reload_notes_and_select(notes, path),
            None => {},
        }
        self.mode = Mode::Normal;
    }

    /// Creating the note failed: the prompt stays open and shows `message`.
    pub fn note_create_failed(&mut self, message: String)
        requires
            old(self).wf(),
        ensures
            final(self).wf(),
            *final(self) == (App { mode: final(self).mode, ..*old(self) }),
            final(self).mode == match old(self).mode {
                Mode::CreateNote { input, .. } => (Mode::CreateNote { input, error: Some(message) }),
                other => other,
            },
    {
        if let Mode::CreateNote { error, .. } = &mut self.mode {
            *error = Some(message);
        }
    }

    /// After the edited text was written: the note holds it and the editor is closed;
    /// nothing else changes.
    pub open spec fn saved_post(pre: App, post: App) -> bool {
        match pre.mode {
            Mode::EditNote { note_index, content, .. } => {
                &&& post.mode is Normal
                &&& post.notes@ == pre.notes@.update(
                    note_index as int,
                    Note { content: content, ..pre.notes@[note_index as int] },
                )
                &&& post == App { mode: post.mode, notes: post.notes, ..pre }
            },
            _ => post == pre,
        }
    }

    /// The edited text was written: the note takes it and the editor closes.
    pub fn note_saved(&mut self)
        requires
            old(self).wf(),
            old(self).edit_target_exists(),
        ensures
            final(self).wf(),
            Self::saved_post(*old(self), *final(self)),
    {
        let mut mode = Mode::Normal;
        std::mem::swap(&mut mode, &mut self.mode);
        match mode {
            Mode::EditNote { note_index, content, cursor, status } => {
                let mut note = self.notes.remove(note_index);
                note.content = content;
                self.notes.insert(note_index, note);
                proof {
                    assert(self.notes@ =~= old(self).notes@.update(
                        note_index as int,
                        Note { content: content, ..old(self).notes@[note_index as int] },
                    ));
                }
            },
            other => {
                self.mode = other;
            },
        }
    }

    /// Writing the text failed: the editor stays open and shows `message`.
    pub fn note_save_failed(&mut self, message: String)
        requires
            old(self).wf(),
        ensures
            final(self).wf(),
            *final(self) == (App { mode: final(self).mode, ..*old(self) }),
            final(self).mode == match old(self).mode {
                Mode::EditNote { note_index, content, cursor, .. } => (Mode::EditNote {
                    note_index,
                    content,
                    cursor,
                    status: Some(message),
                }),
                other => other,
            },
    {
        if let Mode::EditNote { status, .. } = &mut self.mode {
            *status = Some(message);
        }
    }

    /// The editor is open on the selected note.
    pub open spec fn editing_selected(self) -> bool {
        self.mode matches Mode::EditNote { note_index, .. } && note_index == self.selected
    }

    /// The text the preview shows: the editor's text when it is open on the selected
    /// note, else the selected note's text.
    pub open spec fn preview_text(self) -> Option<Seq<char>> {
        if self.editing_selected() {
            Some(edit_text(self.mode))
        } else if self.selected < self.notes.len() {
            Some(self.notes[self.selected as int].content@)
        } else {
            None
        }
    }

    /// The text the preview shows.
    pub fn preview_content(&self) -> (text: Option<&str>)
        ensures
            match self.preview_text() {
                Some(t) => text matches Some(s) && s@ == t,
                None => text is None,
            },
    {
        if let Mode::EditNote { content, note_index, .. } = &self.mode {
            if *note_index == self.selected {
                return Some(content.as_str());
            }
        }
        match self.selected_note() {
            Some(note) => Some(note.content.as_str()),
            None => None,
        }
    }

    /// Line of the editor cursor, as the preview counts rows.
    pub open spec fn cursor_row(self) -> u16 {
        line_of(edit_text(self.mode), edit_cursor(self.mode)) as u16
    }

    /// Column of the editor cursor, as the preview counts columns.
    pub open spec fn cursor_col(self) -> u16 {
        column_of(edit_text(self.mode), edit_cursor(self.mode)) as u16
    }

    /// The preview scroll once it fits the text in `visible` rows: no further than
    /// the last full screen, and, while editing the selected note, just far enough
    /// that the cursor's row shows.
    pub open spec fn clamped_scroll(self, visible: u16) -> u16 {
        match self.preview_text() {
            None => 0,
            Some(t) => {
                let total = total_lines(t) as u16;
                let first = if total <= visible {
                    0
                } else if self.preview_scroll < total - visible {
                    self.preview_scroll
                } else {
                    (total - visible) as u16
                };
                if self.editing_selected() {
                    let row = self.cursor_row();
                    if row < first {
                        row
                    } else if row >= first + visible {
                        (row + 1 - visible) as u16
                    } else {
                        first
                    }
                } else {
                    first
                }
            },
        }
    }

    /// Keeps the preview scroll within the text shown in `visible_lines` rows, and the
    /// editor cursor in sight.
    pub fn clamp_preview_scroll(&mut self, visible_lines: u16)
        requires
            old(self).wf(),
            old(self).editing_selected() ==> old(self).cursor_row() < u16::MAX,
        ensures
            *final(self) == (App {
                preview_scroll: old(self).clamped_scroll(visible_lines),
                ..*old(self)
            }),
    {
        let total = match self.preview_content() {
            Some(content) => line_count(content) as u16,
            None => {
                self.preview_scroll = 0;
                return;
            },
        };
        if total <= visible_lines {
            self.preview_scroll = 0;
        } else {
            let max = total - visible_lines;
            if max < self.preview_scroll {
                self.preview_scroll = max;
            }
        }
        if self.is_editing_selected() {
            if let Mode::EditNote { content, cursor, .. } = &self.mode {
                let row = cursor_line(content.as_str(), *cursor) as u16;
                if row < self.preview_scroll {
                    self.preview_scroll = row;
                } else if row >= self.preview_scroll + visible_lines {
                    self.preview_scroll = row + 1 - visible_lines;
                }
            }
        }
    }

    /// The name typed so far, while the prompt for a new note is open.
    pub fn create_note_input(&self) -> (input: Option<&str>)
        ensures
            match self.mode {
                Mode::CreateNote { input: typed, .. } => input matches Some(s) && s@ == typed@,
                _ => input is None,
            },
    {
        match &self.mode {
            Mode::CreateNote { input, .. } => Some(input.as_str()),
            _ => None,
        }
    }

    /// The error the prompt for a new note shows, if any.
    pub fn create_note_error(&self) -> (error: Option<&str>)
        ensures
            match self.mode {
                Mode::CreateNote { error: Some(e), .. } => error matches Some(s) && s@ == e@,
                _ => error is None,
            },
    {
        match &self.mode {
            Mode::CreateNote { error, .. } => match error {
                Some(e) => Some(e.as_str()),
                None => None,
            },
            _ => None,
        }
    }

    /// The prompt for a new note's name is open.
    pub fn is_create_prompt_open(&self) -> (open: bool)
        ensures
            open == self.mode is CreateNote,
    {
        match &self.mode {
            Mode::CreateNote { .. } => true,
            _ => false,
        }
    }

    /// The editor is open on the selected note.
    pub fn is_editing_selected(&self) -> (editing: bool)
        ensures
            editing == self.editing_selected(),
    {
        match &self.mode {
            Mode::EditNote { note_index, .. } => *note_index == self.selected,
            _ => false,
        }
    }

    /// The editor is open.
    pub fn is_editing(&self) -> (editing: bool)
        ensures
            editing == self.mode is EditNote,
    {
        match &self.mode {
            Mode::EditNote { .. } => true,
            _ => false,
        }
    }

    /// The message the editor shows, if any.
    pub fn edit_status(&self) -> (status: Option<&str>)
        ensures
            match self.mode {
                Mode::EditNote { status: Some(m), .. } => status matches Some(s) && s@ == m@,
                _ => status is None,
            },
    {
        match &self.mode {
            Mode::EditNote { status, .. } => match status {
                Some(m) => Some(m.as_str()),
                None => None,
            },
            _ => None,
        }
    }

    /// Where the terminal cursor goes in the preview area `inner` while the selected
    /// note is being edited: the cursor's column (at most the last column of the area)
    /// and its row less the scroll, where that row shows.
    pub open spec fn preview_cursor(self, inner: Rect) -> Option<(u16, u16)> {
        if !self.editing_selected() {
            None
        } else {
            let y = inner.y + self.cursor_row().saturating_sub(self.preview_scroll);
            let last = inner.width.saturating_sub(1);
            let x = inner.x + if self.cursor_col() < last {
                self.cursor_col()
            } else {
                last
            };
            if y >= inner.y && y < inner.y.saturating_add(inner.height) {
                Some((x as u16, y as u16))
            } else {
                None
            }
        }
    }

    /// Where the terminal cursor goes in the preview area `inner`, if anywhere.
    pub fn cursor_position_in_preview(&self, inner: Rect) -> (position: Option<(u16, u16)>)
        requires
            self.wf(),
            self.editing_selected() ==> inner.y + self.cursor_row().saturating_sub(
                self.preview_scroll,
            ) <= u16::MAX,
            self.editing_selected() ==> inner.x + (if self.cursor_col() < inner.width.saturating_sub(
                1,
            ) {
                self.cursor_col()
            } else {
                inner.width.saturating_sub(1)
            }) <= u16::MAX,
        ensures
            position == self.preview_cursor(inner),
    {
        let (content, cursor, note_index) = match &self.mode {
            Mode::EditNote { content, cursor, note_index, .. } => (content, *cursor, *note_index),
            _ => {
                return None;
            },
        };
        if note_index != self.selected {
            return None;
        }
        let row = cursor_line(content.as_str(), cursor) as u16;
        let col = cursor_column(content.as_str(), cursor) as u16;
        let y = inner.y + row.saturating_sub(self.preview_scroll);
        let last = inner.width.saturating_sub(1);
        let x = inner.x + if col < last {
            col
        } else {
            last
        };
        if y >= inner.y && y < inner.bottom() {
            Some((x, y))
        } else {
            None
        }
    }
}

/// The text typed into the prompt for a new note's name.
pub open spec fn edit_input(mode: Mode) -> Seq<char> {
    match mode {
        Mode::CreateNote { input, .. } => input@,
        _ => Seq::empty(),
    }
}

/// Dropping the last character keeps a text within memory.
proof fn lemma_fits_drop_last(s: Seq<char>)
    requires
        fits(s),
    ensures
        s.len() > 0 ==> fits(s.drop_last()),
{
    if s.len() > 0 {
        assert(s =~= s.drop_last() + seq![s.last()]);
        crate::text::lemma_encode_concat(s.drop_last(), seq![s.last()]);
    }
}

/// Index of the first note stored at `path`, paths compared as `Path` compares them.
pub open spec fn path_position(notes: Seq<Note>, path: Seq<char>) -> Option<int>
    decreases notes.len(),
{
    if notes.len() == 0 {
        None
    } else if same_path(notes[0].path@, path) {
        Some(0)
    } else {
        match path_position(notes.drop_first(), path) {
            Some(i) => Some(i + 1),
            None => None,
        }
    }
}

/// The position found lies among the notes.
proof fn lemma_path_position_bound(notes: Seq<Note>, path: Seq<char>)
    ensures
        path_position(notes, path) matches Some(i) ==> 0 <= i < notes.len(),
    decreases notes.len(),
{
    if notes.len() > 0 {
        lemma_path_position_bound(notes.drop_first(), path);
    }
}

/// Index of the first note stored at `path`.
fn find_note(notes: &Vec<Note>, path: &str) -> (found: Option<usize>)
    ensures
        found == match path_position(notes@, path@) {
            Some(i) => Some(i as usize),
            None => None,
        },
        found matches Some(i) ==> i < notes.len(),
{
    let mut i: usize = 0;
    proof {
        assert(notes@.skip(0) =~= notes@);
        lemma_path_position_bound(notes@, path@);
    }
    while i < notes.len()
        invariant
            i <= notes.len(),
            path_position(notes@, path@) == match path_position(notes@.skip(i as int), path@) {
                Some(j) => Some(j + i),
                None => None,
            },
        decreases notes.len() - i,
    {
        proof {
            assert(notes@.skip(i as int)[0] == notes@[i as int]);
            assert(notes@.skip(i as int).drop_first() =~= notes@.skip(i + 1));
        }
        if paths_equal(notes[i].path.as_str(), path) {
            return Some(i);
        }
        i = i + 1;
    }
    None
}

/// Moving the selection down and back up returns to the same note.
pub proof fn lemma_select_next_then_prev(app: App)
    requires
        app.selected + 1 < app.notes.len(),
    ensures
        app.after_select_next().after_select_prev() == (App {
            list_selection: Some(app.selected),
            preview_scroll: 0,
            ..app
        }),
{
}

/// In the editor, typing a character and then Backspace gives back the text and
/// the cursor.
pub proof fn lemma_type_then_backspace(
    pre: App,
    mid: App,
    post: App,
    typed: KeyEvent,
    erase: KeyEvent,
    first: Action,
    second: Action,
)
    requires
        pre.wf(),
        pre.mode is EditNote,
        typed.code is Char,
        typed_char(typed) is Some,
        erase.code is Backspace,
        App::edit_key_post(pre, mid, typed, first),
        App::edit_key_post(mid, post, erase, second),
    ensures
        post.mode is EditNote,
        edit_text(post.mode) == edit_text(pre.mode),
        edit_cursor(post.mode) == edit_cursor(pre.mode),
        post.notes == pre.notes,
        post.selected == pre.selected,
{
    let text = edit_text(pre.mode);
    let cursor = edit_cursor(pre.mode);
    let c = typed_char(typed)->0;
    lemma_insert_then_delete(text, cursor, c);
}

/// In the prompt for a new note's name, typing a character and then Backspace gives
/// back the name typed so far.
pub proof fn lemma_prompt_type_then_backspace(
    pre: App,
    mid: App,
    post: App,
    typed: KeyEvent,
    erase: KeyEvent,
    first: Action,
    second: Action,
)
    requires
        pre.mode is CreateNote,
        typed.code is Char,
        typed_char(typed) is Some,
        erase.code is Backspace,
        App::create_key_post(pre, mid, typed, first),
        App::create_key_post(mid, post, erase, second),
    ensures
        post.mode is CreateNote,
        edit_input(post.mode) == edit_input(pre.mode),
{
    let c = typed_char(typed)->0;
    assert(edit_input(pre.mode).push(c).drop_last() =~= edit_input(pre.mode));
}

/// Saving from the editor: Esc asks to write exactly the edited text to the edited
/// note's file, and once that is done the note holds that text and no other note
/// changes.
pub proof fn lemma_save_round_trip(pre: App, mid: App, post: App, esc: KeyEvent, action: Action)
    requires
        pre.wf(),
        pre.edit_target_exists(),
        pre.mode is EditNote,
        esc.code is Esc,
        App::edit_key_post(pre, mid, esc, action),
        App::saved_post(mid, post),
    ensures
        action matches Action::SaveNote { path, content } && content@ == edit_text(pre.mode)
            && path == pre.notes[pre.mode->note_index as int].path,
        post.mode is Normal,
        post.notes.len() == pre.notes.len(),
        post.notes[pre.mode->note_index as int].content@ == edit_text(pre.mode),
        post.notes[pre.mode->note_index as int].path == pre.notes[pre.mode->note_index as int].path,
        forall|i: int|
            0 <= i < pre.notes.len() && i != pre.mode->note_index ==> post.notes[i] == pre.notes[i],
{
}

/// While the selected note is edited, the scroll that `clamp_preview_scroll` sets
/// keeps the cursor's row among the visible rows.
pub proof fn lemma_clamped_scroll_shows_cursor(app: App, visible: u16)
    requires
        app.editing_selected(),
        visible > 0,
        app.cursor_row() < u16::MAX,
    ensures
        app.clamped_scroll(visible) <= app.cursor_row() < app.clamped_scroll(visible) + visible,
{
}

/// Outside the editor the clamp shows a note that fits from its top, keeps any
/// scroll that leaves a full screen of text below it, and brings a scroll past the
/// last full screen back to that screen; it never scrolls further down.
pub proof fn lemma_clamp_keeps_scroll_within_text(app: App, visible: u16, t: Seq<char>)
    requires
        !app.editing_selected(),
        app.preview_text() == Some(t),
    ensures
        app.clamped_scroll(visible) <= app.preview_scroll,
        total_lines(t) as u16 <= visible ==> app.clamped_scroll(visible) == 0,
        total_lines(t) as u16 > visible && app.preview_scroll + visible <= total_lines(t) as u16
            ==> app.clamped_scroll(visible) == app.preview_scroll,
        total_lines(t) as u16 > visible && app.preview_scroll + visible > total_lines(t) as u16
            ==> app.clamped_scroll(visible) + visible == total_lines(t) as u16,
{
}

/// In the editor a scroll that keeps the cursor's row in sight and a full screen of
/// text below it is left as it is.
pub proof fn lemma_clamp_keeps_scroll_showing_cursor(app: App, visible: u16, t: Seq<char>)
    requires
        app.editing_selected(),
        app.preview_text() == Some(t),
        app.preview_scroll + visible <= total_lines(t) as u16,
        app.preview_scroll <= app.cursor_row() < app.preview_scroll + visible,
    ensures
        app.clamped_scroll(visible) == app.preview_scroll,
{
}

/// In the editor a Char key types its character whatever the Shift state, unless
/// Control or Alt is held: the character goes in at the cursor and the cursor moves
/// just behind it.
pub proof fn lemma_editor_types_char(pre: App, post: App, key: KeyEvent, action: Action, c: char)
    requires
        pre.mode is EditNote,
        key.code == KeyCode::Char(c),
        !key.modifiers.control,
        !key.modifiers.alt,
        App::edit_key_post(pre, post, key, action),
    ensures
        post.mode is EditNote,
        edit_text(post.mode) == edit_text(pre.mode).insert(
            cursor_char(edit_text(pre.mode), edit_cursor(pre.mode)),
            c,
        ),
        edit_cursor(post.mode) == clamp_cursor(edit_text(pre.mode), edit_cursor(pre.mode))
            + char_width(c),
        action is Nothing,
{
}

/// In the prompt for a new note's name a Char key types its character whatever the
/// Shift state, unless Control or Alt is held: it goes at the end of the name.
pub proof fn lemma_prompt_types_char(pre: App, post: App, key: KeyEvent, action: Action, c: char)
    requires
        pre.mode is CreateNote,
        key.code == KeyCode::Char(c),
        !key.modifiers.control,
        !key.modifiers.alt,
        App::create_key_post(pre, post, key, action),
    ensures
        post.mode is CreateNote,
        edit_input(post.mode) == edit_input(pre.mode).push(c),
        action is Nothing,
{
}

/// On the browsing screen `]` scrolls the preview down one row and `[` scrolls it
/// back up, changing nothing else.
pub proof fn lemma_scroll_down_then_up(
    pre: App,
    mid: App,
    post: App,
    down: KeyEvent,
    up: KeyEvent,
)
    requires
        down.code == KeyCode::Char(']'),
        up.code == KeyCode::Char('['),
        pre.preview_scroll < u16::MAX,
        App::normal_key_post(pre, mid, down),
        App::normal_key_post(mid, post, up),
    ensures
        mid.preview_scroll == pre.preview_scroll + 1,
        mid == (App { preview_scroll: mid.preview_scroll, ..pre }),
        post == pre,
{
}

/// On the browsing screen `j` (or Down) selects the next note and stops at the last;
/// `g` selects the first note and `G` the last; every move shows the new note from
/// its top.
pub proof fn lemma_selection_keys(pre: App, post: App, key: KeyEvent)
    requires
        pre.notes.len() > 0,
        pre.selected < pre.notes.len(),
        App::normal_key_post(pre, post, key),
    ensures
        (key.code == KeyCode::Char('j') || key.code == KeyCode::Down) && pre.selected + 1
            < pre.notes.len() ==> post.selected == pre.selected + 1 && post.preview_scroll == 0,
        (key.code == KeyCode::Char('j') || key.code == KeyCode::Down) && pre.selected + 1
            == pre.notes.len() ==> post == pre,
        key.code == KeyCode::Char('g') && !key.modifiers.shift ==> post.selected == 0
            && post.list_selection == Some(0usize) && post.preview_scroll == 0,
        key.code == KeyCode::Char('G') ==> post.selected == pre.notes.len() - 1
            && post.list_selection == Some((pre.notes.len() - 1) as usize) && post.preview_scroll
            == 0,
{
}

/// On the browsing screen `i` opens the editor on the selected note, with its text
/// and the cursor at the end of that text.
pub proof fn lemma_open_editor(pre: App, post: App, key: KeyEvent)
    requires
        pre.wf(),
        key.code == KeyCode::Char('i'),
        pre.selected < pre.notes.len(),
        App::normal_key_post(pre, post, key),
    ensures
        post.mode is EditNote,
        post.mode->note_index == pre.selected,
        edit_text(post.mode) == pre.notes[pre.selected as int].content@,
        edit_cursor(post.mode) == byte_len(pre.notes[pre.selected as int].content@),
        post.notes == pre.notes,
{
    assert(fits(pre.notes[pre.selected as int].content@));
}

} // verus!
