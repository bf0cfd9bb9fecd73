//! What is drawn on the terminal, as a list of single steps.

use crate::item::optional_text;
use crate::layout::Colorname;
use crate::path::{FilePath, PathView};
use vstd::prelude::*;

verus! {

/// A step of drawing.
#[derive(Debug, PartialEq, Eq)]
pub enum Draw {
    /// Clear the screen.
    ClearAll,
    /// Clear the line of the cursor.
    ClearCurrentLine,
    /// Clear what is right of the cursor.
    ClearUntilNewline,
    /// Move to a column and a row, both counted from 1.
    MoveTo(u16, u16),
    MoveLeft(u16),
    MoveRight(u16),
    /// Write in a color from here on.
    SetColor(Colorname),
    ResetColor,
    /// Write a text.
    Text(String),
    /// Write a text in reverse video.
    Negative(String),
    /// Write a text in bold.
    Bold(String),
    /// Write a path.
    Path(FilePath),
    /// Write a time for reading, in reverse video where `negative`.
    Time { modified: Option<String>, negative: bool },
    /// Erase the pointer at the cursor.
    DeleteCursor,
    /// Write the pointer.
    Pointer,
    /// Show a preview of the item at an index, the cursor being in row `y`.
    Preview { index: usize, y: u16 },
    /// Show a message, the cursor being in row `y`.
    Info { message: String, y: u16 },
}

/// What a step of drawing is.
pub enum DrawView {
    ClearAll,
    ClearCurrentLine,
    ClearUntilNewline,
    MoveTo(u16, u16),
    MoveLeft(u16),
    MoveRight(u16),
    SetColor(Colorname),
    ResetColor,
    Text(Seq<char>),
    Negative(Seq<char>),
    Bold(Seq<char>),
    Path(PathView),
    Time { modified: Option<Seq<char>>, negative: bool },
    DeleteCursor,
    Pointer,
    Preview { index: usize, y: u16 },
    Info { message: Seq<char>, y: u16 },
}

impl View for Draw {
    type V = DrawView;

    open spec fn view(&self) -> DrawView {
        match self {
            Draw::ClearAll => DrawView::ClearAll,
            Draw::ClearCurrentLine => DrawView::ClearCurrentLine,
            Draw::ClearUntilNewline => DrawView::ClearUntilNewline,
            Draw::MoveTo(column, row) => DrawView::MoveTo(*column, *row),
            Draw::MoveLeft(count) => DrawView::MoveLeft(*count),
            Draw::MoveRight(count) => DrawView::MoveRight(*count),
            Draw::SetColor(color) => DrawView::SetColor(*color),
            Draw::ResetColor => DrawView::ResetColor,
            Draw::Text(text) => DrawView::Text(text@),
            Draw::Negative(text) => DrawView::Negative(text@),
            Draw::Bold(text) => DrawView::Bold(text@),
            Draw::Path(path) => DrawView::Path(path@),
            Draw::Time { modified, negative } => DrawView::Time {
                modified: optional_text(*modified),
                negative: *negative,
            },
            Draw::DeleteCursor => DrawView::DeleteCursor,
            Draw::Pointer => DrawView::Pointer,
            Draw::Preview { index, y } => DrawView::Preview { index: *index, y: *y },
            Draw::Info { message, y } => DrawView::Info { message: message@, y: *y },
        }
    }
}

/// The views of a list of steps.
pub open spec fn draw_views(steps: Seq<Draw>) -> Seq<DrawView> {
    steps.map_values(|d: Draw| d@)
}

/// Adds a step.
pub(crate) fn draw(steps: &mut Vec<Draw>, step: Draw)
    ensures
        draw_views(final(steps)@) == draw_views(old(steps)@).push(step@),
{
    let ghost before = steps@;
    steps.push(step);
    assert(draw_views(steps@) == draw_views(before).push(step@));
}

/// Adds the steps of another list.
pub(crate) fn draw_all(steps: &mut Vec<Draw>, more: Vec<Draw>)
    ensures
        draw_views(final(steps)@) == draw_views(old(steps)@) + draw_views(more@),
{
    let ghost before = steps@;
    let mut more = more;
    let ghost added = more@;
    steps.append(&mut more);
    assert(draw_views(steps@) == draw_views(before) + draw_views(added));
}

} // verus!
