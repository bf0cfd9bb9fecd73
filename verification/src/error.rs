//! What can go wrong.

use crate::path::{FilePath, PathView};
use vstd::prelude::*;

verus! {

/// An error of the file manager.
#[derive(Debug, PartialEq, Eq)]
pub enum FxError {
    /// The terminal is too small to draw in.
    TooSmallWindowSize,
    /// There is no item at that position.
    GetItem,
    /// The item cannot be opened.
    OpenItem,
    /// No command is known that opens the item in a new window.
    OpenNewWindow,
    /// The item cannot be removed.
    RemoveItem(FilePath),
    /// The item cannot be put.
    PutItem(FilePath),
    /// A file name is no text.
    Encode,
    /// The file system reports an error.
    Io(String),
    /// A directory cannot be walked through.
    WalkDir(String),
    /// The session cannot be written down.
    TomlSer(String),
}

/// What an error is.
pub enum ErrorView {
    TooSmallWindowSize,
    GetItem,
    OpenItem,
    OpenNewWindow,
    RemoveItem(PathView),
    PutItem(PathView),
    Encode,
    Io(Seq<char>),
    WalkDir(Seq<char>),
    TomlSer(Seq<char>),
}

impl View for FxError {
    type V = ErrorView;

    open spec fn view(&self) -> ErrorView {
        match self {
            FxError::TooSmallWindowSize => ErrorView::TooSmallWindowSize,
            FxError::GetItem => ErrorView::GetItem,
            FxError::OpenItem => ErrorView::OpenItem,
            FxError::OpenNewWindow => ErrorView::OpenNewWindow,
            FxError::RemoveItem(path) => ErrorView::RemoveItem(path@),
            FxError::PutItem(path) => ErrorView::PutItem(path@),
            FxError::Encode => ErrorView::Encode,
            FxError::Io(text) => ErrorView::Io(text@),
            FxError::WalkDir(text) => ErrorView::WalkDir(text@),
            FxError::TomlSer(text) => ErrorView::TomlSer(text@),
        }
    }
}

/// What a step came to, the path of its success and its error taken by their views.
pub open spec fn path_outcome(outcome: Result<FilePath, FxError>) -> Result<PathView, ErrorView> {
    match outcome {
        Ok(path) => Ok(path@),
        Err(e) => Err(e@),
    }
}

/// What a step without a value came to, its error taken by its view.
pub open spec fn plain_outcome(outcome: Result<(), FxError>) -> Result<(), ErrorView> {
    match outcome {
        Ok(()) => Ok(()),
        Err(e) => Err(e@),
    }
}

} // verus!
