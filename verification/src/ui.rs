use vstd::prelude::*;

use crate::app::{App, Mode, Rect};
use crate::notes::BrowserEntry;
use vstd::string::*;

verus! {

/// How an entry of the note list is coloured.
#[derive(Clone, Copy, Debug, PartialEq, Eq)]
pub enum Tone {
    /// The parent directory: dimmed.
    Muted,
    /// A directory: highlighted.
    Folder,
    /// A note: plain.
    Plain,
}

/// The label of an entry in the note list: `../`, a directory's name with a slash,
/// or a note's name.
pub open spec fn entry_label_spec(entry: BrowserEntry) -> Seq<char> {
    match entry {
        BrowserEntry::Parent => "../"@,
        BrowserEntry::Directory { name, .. } => name@ + "/"@,
        BrowserEntry::Note(note) => note.name@,
    }
}

/// The label and colouring of an entry in the note list.
pub fn entry_label(entry: &BrowserEntry) -> (shown: (String, Tone))
    ensures
        shown.0@ == entry_label_spec(*entry),
        shown.1 == match *entry {
            BrowserEntry::Parent => Tone::Muted,
            BrowserEntry::Directory { .. } => Tone::Folder,
            BrowserEntry::Note(_) => Tone::Plain,
        },
{
    match entry {
        BrowserEntry::Parent => (String::from_str("../"), Tone::Muted),
        BrowserEntry::Directory { name, .. } => {
            let mut label = name.clone();
            label.append("/");
            (label, Tone::Folder)
        },
        BrowserEntry::Note(note) => (note.name.clone(), Tone::Plain),
    }
}

/// The help line of the status bar for the screen's mode.
pub fn status_help(app: &App) -> (help: &'static str)
    ensures
        help@ == match app.mode {
            Mode::CreateNote { .. } => "Enter create  Esc cancel"@,
            Mode::EditNote { .. } => "Esc save & exit  arrows move  type to edit"@,
            Mode::Normal => "↑↓/jk navigate  h/l parent/enter  a new  i edit  [/] scroll  q quit"@,
        },
{
    if app.is_create_prompt_open() {
        "Enter create  Esc cancel"
    } else if app.is_editing() {
        "Esc save & exit  arrows move  type to edit"
    } else {
        "↑↓/jk navigate  h/l parent/enter  a new  i edit  [/] scroll  q quit"
    }
}

/// The row of the list footer (`selected/total`): two rows above the bottom of the
/// panel, where that is below its top.
pub fn footer_row(area: Rect) -> (row: Option<u16>)
    ensures
        row == if area.y.saturating_add(area.height).saturating_sub(2) > area.y {
            Some(area.y.saturating_add(area.height).saturating_sub(2))
        } else {
            None
        },
{
    let footer_y = area.bottom().saturating_sub(2);
    if footer_y > area.y {
        Some(footer_y)
    } else {
        None
    }
}

/// The two numbers of the list footer: the selected row, counted from one, and the
/// number of rows.
pub fn footer_numbers(selected: usize, count: usize) -> (numbers: (usize, usize))
    requires
        selected < usize::MAX,
    ensures
        numbers.0 == selected + 1,
        numbers.1 == count,
{
    (selected + 1, count)
}

/// What the preview shows when no note is selected.
#[derive(Clone, Copy, Debug, PartialEq, Eq)]
pub enum EmptyPreview {
    /// The listing is empty: "Select or create a note."
    NothingListed,
    /// A directory is selected: its name and how to open it.
    Folder,
    /// The parent directory is selected: how to go up.
    ParentFolder,
    /// Anything else: "Select a note to preview."
    NoNote,
}

/// What the preview shows when no note is selected, from the listing and selection.
pub fn empty_preview(entries: &Vec<BrowserEntry>, selected: usize) -> (shown: EmptyPreview)
    ensures
        shown == if entries.len() == 0 {
            EmptyPreview::NothingListed
        } else if selected < entries.len() {
            match entries@[selected as int] {
                BrowserEntry::Directory { .. } => EmptyPreview::Folder,
                BrowserEntry::Parent => EmptyPreview::ParentFolder,
                _ => EmptyPreview::NoNote,
            }
        } else {
            EmptyPreview::NoNote
        },
{
    if entries.len() == 0 {
        EmptyPreview::NothingListed
    } else if selected < entries.len() {
        match &entries[selected] {
            BrowserEntry::Directory { .. } => EmptyPreview::Folder,
            BrowserEntry::Parent => EmptyPreview::ParentFolder,
            _ => EmptyPreview::NoNote,
        }
    } else {
        EmptyPreview::NoNote
    }
}

/// The scroll indicator of the preview (`Line first-last of total`), shown when the
/// text has more lines than the area has rows and the area has any.
pub fn scroll_info(scroll: u16, inner_height: u16, total: u16) -> (info: Option<(u16, u16, u16)>)
    requires
        total > inner_height ==> scroll + inner_height <= u16::MAX && scroll < u16::MAX,
    ensures
        info == if total > inner_height && inner_height > 0 {
            Some(
                (
                    (scroll + 1) as u16,
                    if scroll + inner_height < total {
                        (scroll + inner_height) as u16
                    } else {
                        total
                    },
                    total,
                ),
            )
        } else {
            None
        },
{
    if total > inner_height && inner_height > 0 {
        let bottom = scroll + inner_height;
        let end = if bottom < total {
            bottom
        } else {
            total
        };
        Some((scroll + 1, end, total))
    } else {
        None
    }
}

/// Width of the status message in the editor: the message and one cell, at most
/// the width of the area.
pub fn status_width(inner_width: u16, status_len: usize) -> (width: u16)
    requires
        (status_len as u16) < u16::MAX,
    ensures
        width == if inner_width < (status_len as u16) + 1 {
            inner_width
        } else {
            ((status_len as u16) + 1) as u16
        },
{
    let wanted = status_len as u16 + 1;
    if inner_width < wanted {
        inner_width
    } else {
        wanted
    }
}

/// Where the cursor goes in the prompt for a new note's name: behind the typed
/// bytes, on the row of the input.
pub fn prompt_cursor(inner: Rect, input_len: usize) -> (position: (u16, u16))
    requires
        inner.x + (input_len as u16) <= u16::MAX,
        inner.y < u16::MAX,
    ensures
        position == ((inner.x + (input_len as u16)) as u16, (inner.y + 1) as u16),
{
    (inner.x + input_len as u16, inner.y + 1)
}

/// `percent_x` percent of `width`, at most `u16::MAX`, as `u16::saturating_mul`
/// and a division give it.
pub open spec fn scaled_width(width: u16, percent_x: u16) -> u16 {
    if width * percent_x > u16::MAX {
        (u16::MAX / 100) as u16
    } else {
        ((width * percent_x) / 100) as u16
    }
}

/// `percent_x` percent of `width`, the product saturating at `u16::MAX`.
pub fn popup_width(width: u16, percent_x: u16) -> (scaled: u16)
    ensures
        scaled == scaled_width(width, percent_x),
{
    let w = width as u32;
    let p = percent_x as u32;
    proof {
        assert(w * p <= 0xFFFF * 0xFFFF) by (nonlinear_arith)
            requires
                w <= 0xFFFF,
                p <= 0xFFFF,
        ;
    }
    let product = w * p;
    let saturated = if product > 0xFFFF {
        0xFFFFu16
    } else {
        product as u16
    };
    saturated / 100
}

/// A pop-up of `percent_x` percent of the area's width (at least 20 columns) and
/// `height` rows (at most the area's), centred in the area.
pub open spec fn centered_rect_spec(percent_x: u16, height: u16, area: Rect) -> Rect {
    let popup_width = scaled_width(area.width, percent_x);
    let popup_height = if height < area.height {
        height
    } else {
        area.height
    };
    Rect {
        x: (area.x + area.width.saturating_sub(popup_width) / 2) as u16,
        y: (area.y + area.height.saturating_sub(popup_height) / 2) as u16,
        width: if popup_width < 20 {
            20
        } else {
            popup_width
        },
        height: popup_height,
    }
}

/// A pop-up centred in `area`.
pub fn centered_rect(percent_x: u16, height: u16, area: Rect) -> (popup: Rect)
    requires
        area.x + area.width.saturating_sub(scaled_width(area.width, percent_x)) / 2 <= u16::MAX,
        area.y + area.height.saturating_sub(
            if height < area.height {
                height
            } else {
                area.height
            },
        ) / 2 <= u16::MAX,
    ensures
        popup == centered_rect_spec(percent_x, height, area),
{
    let scaled = popup_width(area.width, percent_x);
    let popup_height = if height < area.height {
        height
    } else {
        area.height
    };
    let x = area.x + area.width.saturating_sub(scaled) / 2;
    let y = area.y + area.height.saturating_sub(popup_height) / 2;
    Rect {
        x,
        y,
        width: if scaled < 20 {
            20
        } else {
            scaled
        },
        height: popup_height,
    }
}

} // verus!
