//! Where on the terminal things are drawn, and in which colors.

use vstd::prelude::*;

verus! {

/// The row in which the listing begins.
pub const BEGINNING_ROW: u16 = 3;

/// A color of the terminal.
#[derive(Copy, Clone, Debug, PartialEq, Eq, Structural)]
pub enum Colorname {
    Black,
    Red,
    Green,
    Yellow,
    Blue,
    Magenta,
    Cyan,
    White,
    LightBlack,
    LightRed,
    LightGreen,
    LightYellow,
    LightBlue,
    LightMagenta,
    LightCyan,
    LightWhite,
    Rgb(u8, u8, u8),
    AnsiValue(u8),
}

/// The colors of the kinds of items.
#[derive(Copy, Clone, Debug, PartialEq, Eq, Structural)]
pub struct ConfigColor {
    pub dir_fg: Colorname,
    pub file_fg: Colorname,
    pub symlink_fg: Colorname,
}

/// The layout of the terminal.
#[derive(Copy, Clone, Debug, PartialEq, Eq, Structural)]
pub struct Layout {
    /// The row of the cursor.
    pub y: u16,
    pub terminal_row: u16,
    pub terminal_column: u16,
    /// How many characters of a name are shown.
    pub name_max_len: usize,
    /// The column in which the time of an item begins.
    pub time_start_pos: u16,
    pub use_full: Option<bool>,
    pub option_name_len: Option<usize>,
    pub colors: ConfigColor,
    pub preview: bool,
    pub preview_start_column: u16,
    pub preview_width: u16,
    pub has_chafa: bool,
    pub is_kitty: bool,
}

/// The position in the listing: the item under the cursor, and how many items are
/// scrolled off the top.
#[derive(Copy, Clone, Debug, PartialEq, Eq, Structural)]
pub struct Num {
    pub index: usize,
    pub skip: u16,
}

/// The widths that rows of the listing are fitted to.
#[derive(Copy, Clone, Debug, PartialEq, Eq, Structural)]
pub struct Widths {
    /// The number of columns from which on the time of an item is shown.
    pub proper: u16,
    /// The number of columns that a time takes.
    pub time: u16,
}

} // verus!
