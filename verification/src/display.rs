//! What the window shows of the pictures, and what a direction key does.
use vstd::prelude::*;
use crate::entry::Entry;

verus! {

/// How a picture is shaded in the grid.
#[derive(Clone, Copy, PartialEq, Eq, Structural, Debug)]
pub enum Shade {
    /// Marked for deletion: the faintest.
    Deleted,
    /// Selected: half faint.
    Selected,
    /// Neither: opaque.
    Plain,
}

/// The shade of a picture: deletion first, then selection.
pub open spec fn shade_of(e: Entry) -> Shade {
    if e.delete {
        Shade::Deleted
    } else if e.image_data.selected {
        Shade::Selected
    } else {
        Shade::Plain
    }
}

/// The shade of a picture in the grid.
pub fn picture_shade(entry: &Entry) -> (r: Shade)
    ensures
        r == shade_of(*entry),
{
    if entry.delete {
        Shade::Deleted
    } else if entry.image_data.selected {
        Shade::Selected
    } else {
        Shade::Plain
    }
}

/// Whether a grid shows thumbnails rather than pictures: from ten pictures per row on.
pub fn shows_thumbnails(cells_per_row: i32) -> (r: bool)
    ensures
        r == (cells_per_row >= 10),
{
    cells_per_row >= 10
}

/// Whether the label of the picture at `index` shows the focus mark: it is the current
/// picture of a grid of more than one picture per row.
pub fn label_has_focus(index: usize, current_index: usize, cells_per_row: i32) -> (r: bool)
    ensures
        r == (index == current_index && cells_per_row > 1),
{
    index == current_index && cells_per_row > 1
}

/// What a direction key does.
#[derive(Clone, Copy, PartialEq, Eq, Structural, Debug)]
pub enum KeyAction {
    /// Scroll the picture shown at real size.
    Scroll,
    /// Turn the page: one picture per page.
    TurnPage,
    /// Move to the neighbouring cell of the grid.
    MoveCell,
}

/// What a direction key does: it scrolls a picture at real size, turns the page when
/// there is one picture per row, and moves between cells in a grid.
pub fn key_action(real_size: bool, cells_per_row: i32) -> (r: KeyAction)
    ensures
        r == if real_size {
            KeyAction::Scroll
        } else if cells_per_row == 1 {
            KeyAction::TurnPage
        } else {
            KeyAction::MoveCell
        },
{
    if real_size {
        KeyAction::Scroll
    } else if cells_per_row == 1 {
        KeyAction::TurnPage
    } else {
        KeyAction::MoveCell
    }
}

/// Whether a click on a cell moves the focus there: in a grid of more than one picture per
/// row, on a cell that shows a picture (`can_move`).
pub fn focus_follows_click(cells_per_row: i32, can_move: bool) -> (r: bool)
    ensures
        r == (cells_per_row > 1 && can_move),
{
    cells_per_row > 1 && can_move
}

}
