# sn

A terminal notes app: a list of `.md` and `.txt` notes on the left, the selected
note on the right, a prompt to create notes and an editor to change them.

The library (`src/`) holds the logic, with contracts proved by Verus:

- `text` — the editor on UTF-8 text: byte cursors on character boundaries, line and
  column of the cursor, moving by character and by line, typing and deleting, and the
  laws that tie them together (typing then deleting gives the text back; the line and
  column of a cursor lead back to it; left and right undo each other).
- `notes` — notes and directory entries: name sanitizing, the file path of a new
  note, the order of a directory listing (parent, directories, notes, each by name),
  relative paths, the panel width setting.
- `app` — the screen state and what each key does to it. Keys that need files
  written return an `Action`; the outcome is handed back through `note_created`,
  `note_create_failed`, `note_saved` and `note_save_failed`.
- `ui` — the decisions behind the drawing: labels, the help line, the scroll
  indicator, pop-up placement.

`app/` is the program around it: settings from the environment, the files, the
terminal (crossterm) and the drawing (ratatui).
