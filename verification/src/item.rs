//! The items of a directory, and how one is made from what the file system tells.

use crate::clock::{is_moment, local_stamp, moment, tells_moment};
use crate::path::{optional_path, FilePath, PathView};
use crate::text::{ascii_lower, ascii_lower_text, chars_of, utf8_text};
use vstd::prelude::*;
use vstd::string::*;
use vstd::utf8::{decode_utf8, valid_utf8};

verus! {

/// What kind of item it is.
#[derive(Copy, Clone, Debug, PartialEq, Eq, PartialOrd, Ord, Structural)]
pub enum FileType {
    Directory,
    File,
    Symlink,
}

/// An item of a directory.
#[derive(Debug, PartialEq, Eq, PartialOrd)]
pub struct ItemInfo {
    pub file_type: FileType,
    pub file_name: String,
    pub file_path: FilePath,
    pub symlink_dir_path: Option<FilePath>,
    pub file_size: u64,
    pub file_ext: Option<String>,
    pub modified: Option<String>,
    pub is_hidden: bool,
    pub selected: bool,
}

/// What an item is.
#[verifier::ext_equal]
pub struct ItemView {
    pub file_type: FileType,
    pub file_name: Seq<char>,
    pub file_path: PathView,
    pub symlink_dir_path: Option<PathView>,
    pub file_size: u64,
    pub file_ext: Option<Seq<char>>,
    pub modified: Option<Seq<char>>,
    pub is_hidden: bool,
    pub selected: bool,
}

/// The contents of a text that may be missing.
pub open spec fn optional_text(text: Option<String>) -> Option<Seq<char>> {
    match text {
        Some(t) => Some(t@),
        None => None,
    }
}

impl View for ItemInfo {
    type V = ItemView;

    open spec fn view(&self) -> ItemView {
        ItemView {
            file_type: self.file_type,
            file_name: self.file_name@,
            file_path: self.file_path@,
            symlink_dir_path: optional_path(self.symlink_dir_path),
            file_size: self.file_size,
            file_ext: optional_text(self.file_ext),
            modified: optional_text(self.modified),
            is_hidden: self.is_hidden,
            selected: self.selected,
        }
    }
}

/// The views of a list of items.
pub open spec fn item_views(items: Seq<ItemInfo>) -> Seq<ItemView> {
    items.map_values(|i: ItemInfo| i@)
}

/// A copy of a text that may be missing.
pub fn copy_text(text: &Option<String>) -> (copied: Option<String>)
    ensures
        optional_text(copied) == optional_text(*text),
{
    match text {
        Some(t) => Some(t.clone()),
        None => None,
    }
}

/// A copy of a path that may be missing.
pub fn copy_path(path: &Option<FilePath>) -> (copied: Option<FilePath>)
    ensures
        optional_path(copied) == optional_path(*path),
{
    match path {
        Some(p) => Some(p.clone()),
        None => None,
    }
}

impl Clone for ItemInfo {
    fn clone(&self) -> (copied: Self)
        ensures
            copied@ == self@,
    {
        ItemInfo {
            file_type: self.file_type,
            file_name: self.file_name.clone(),
            file_path: self.file_path.clone(),
            symlink_dir_path: copy_path(&self.symlink_dir_path),
            file_size: self.file_size,
            file_ext: copy_text(&self.file_ext),
            modified: copy_text(&self.modified),
            is_hidden: self.is_hidden,
            selected: self.selected,
        }
    }
}

/// Copies of a list of items.
pub fn copy_items(items: &[ItemInfo]) -> (copied: Vec<ItemInfo>)
    ensures
        item_views(copied@) == item_views(items@),
{
    let mut copied: Vec<ItemInfo> = Vec::new();
    let mut at: usize = 0;
    while at < items.len()
        invariant
            at <= items@.len(),
            item_views(copied@) == item_views(items@.take(at as int)),
        decreases items@.len() - at,
    {
        let ghost before = copied@;
        copied.push(items[at].clone());
        at += 1;
        assert(item_views(copied@) == item_views(before).push(items@[at - 1]@));
        assert(item_views(items@.take(at as int)) == item_views(items@.take(at - 1)).push(
            items@[at - 1]@,
        ));
    }
    assert(items@.take(items@.len() as int) == items@);
    copied
}

/// What the file system tells of an entry without following a symbolic link.
pub struct EntryMeta {
    pub is_dir: bool,
    pub is_file: bool,
    pub is_symlink: bool,
    /// When the contents were last modified: seconds since 1970 in UTC, and nanoseconds.
    pub modified_secs: i64,
    pub modified_nanos: u32,
    pub len: u64,
    /// Whether a link leads to a directory; missing where that cannot be found out.
    pub target_is_dir: Option<bool>,
    /// Where a link leads to; missing where that cannot be found out.
    pub canonical: Option<FilePath>,
}

/// An entry of a directory.
pub struct Entry {
    pub path: FilePath,
    pub name: Vec<u8>,
    pub meta: Option<EntryMeta>,
}

/// The file name that an item shows: a name that is no text gets another.
pub open spec fn shown_name(name: Seq<u8>) -> Seq<char> {
    if valid_utf8(name) {
        decode_utf8(name)
    } else {
        "Invalid unicode name"@
    }
}

/// The extension that an item shows, in lower case; one that is no text is empty.
pub open spec fn shown_extension(path: PathView) -> Option<Seq<char>> {
    match path.extension() {
        Some(ext) => Some(
            if valid_utf8(ext) {
                ascii_lower(decode_utf8(ext))
            } else {
                Seq::empty()
            },
        ),
        None => None,
    }
}

/// A name that begins with a dot.
pub open spec fn is_dot_name(name: Seq<char>) -> bool {
    name.len() > 0 && name[0] == '.'
}

impl EntryMeta {
    /// The kind of item: whatever is no directory and no link is a file.
    pub open spec fn kind(self) -> FileType {
        if self.is_dir {
            FileType::Directory
        } else if !self.is_file && self.is_symlink {
            FileType::Symlink
        } else {
            FileType::File
        }
    }

    /// Where a link to a directory leads to.
    pub open spec fn link_dir(self) -> Option<PathView> {
        if self.kind() == FileType::Symlink && self.target_is_dir == Some(true) {
            optional_path(self.canonical)
        } else {
            None
        }
    }
}

/// The item of an entry that was last modified at the time that `modified` tells.
pub open spec fn item_of(entry: Entry, modified: Seq<char>) -> ItemView {
    match entry.meta {
        Some(meta) => ItemView {
            file_type: meta.kind(),
            file_name: shown_name(entry.name@),
            file_path: entry.path@,
            symlink_dir_path: meta.link_dir(),
            file_size: meta.len,
            file_ext: if meta.kind() == FileType::Directory {
                None
            } else {
                shown_extension(entry.path@)
            },
            modified: Some(modified),
            is_hidden: is_dot_name(shown_name(entry.name@)),
            selected: false,
        },
        None => ItemView {
            file_type: FileType::File,
            file_name: shown_name(entry.name@),
            file_path: entry.path@,
            symlink_dir_path: None,
            file_size: 0,
            file_ext: shown_extension(entry.path@),
            modified: None,
            is_hidden: false,
            selected: false,
        },
    }
}

/// The time at which an entry was last modified, if known, can be written out.
pub open spec fn is_timely(entry: Entry) -> bool {
    entry.meta matches Some(meta) ==> is_moment(meta.modified_secs, meta.modified_nanos)
}

/// Whether the time at which an entry was last modified, if known, can be written out.
pub fn timely_entry(entry: &Entry) -> (fits: bool)
    ensures
        fits == is_timely(*entry),
{
    match &entry.meta {
        Some(meta) => moment(meta.modified_secs, meta.modified_nanos),
        None => true,
    }
}

/// `item` is the item of `entry`, its time written out in the local time zone.
pub open spec fn is_item_of(item: ItemView, entry: Entry) -> bool {
    match entry.meta {
        Some(meta) => item.modified matches Some(modified) && item == item_of(entry, modified)
            && tells_moment(modified, meta.modified_secs),
        None => item == item_of(entry, Seq::empty()),
    }
}

/// The shown name of an entry.
pub(crate) fn name_of(name: &Vec<u8>) -> (text: String)
    ensures
        text@ == shown_name(name@),
{
    match utf8_text(name.as_slice()) {
        Some(text) => text,
        None => String::from_str("Invalid unicode name"),
    }
}

/// The shown extension of a path.
fn extension_of(path: &FilePath) -> (ext: Option<String>)
    ensures
        optional_text(ext) == shown_extension(path@),
{
    match path.extension() {
        Some(bytes) => match utf8_text(bytes.as_slice()) {
            Some(text) => Some(ascii_lower_text(text.as_str())),
            None => Some(String::new()),
        },
        None => None,
    }
}

/// Makes the item of an entry, given the time of its last modification as text.
pub fn make_item_at(entry: &Entry, modified: String) -> (item: ItemInfo)
    ensures
        item@ == item_of(*entry, modified@),
{
    let name = name_of(&entry.name);
    let ext = extension_of(&entry.path);
    match &entry.meta {
        Some(meta) => {
            let chars = chars_of(name.as_str());
            let hidden = chars.len() > 0 && chars[0] == '.';
            let file_type = if meta.is_dir {
                FileType::Directory
            } else if meta.is_file {
                FileType::File
            } else if meta.is_symlink {
                FileType::Symlink
            } else {
                FileType::File
            };
            let symlink_dir_path = if file_type == FileType::Symlink {
                match meta.target_is_dir {
                    Some(true) => copy_path(&meta.canonical),
                    _ => None,
                }
            } else {
                None
            };
            ItemInfo {
                file_type,
                file_name: name,
                file_path: entry.path.clone(),
                symlink_dir_path,
                file_size: meta.len,
                file_ext: match file_type {
                    FileType::Directory => None,
                    _ => ext,
                },
                modified: Some(modified),
                is_hidden: hidden,
                selected: false,
            }
        },
        None => ItemInfo {
            file_type: FileType::File,
            file_name: name,
            file_path: entry.path.clone(),
            symlink_dir_path: None,
            file_size: 0,
            file_ext: ext,
            modified: None,
            is_hidden: false,
            selected: false,
        },
    }
}

/// Makes the item of an entry.
pub fn make_item(entry: &Entry) -> (item: ItemInfo)
    requires
        is_timely(*entry),
    ensures
        is_item_of(item@, *entry),
{
    let modified = match &entry.meta {
        Some(meta) => local_stamp(meta.modified_secs, meta.modified_nanos),
        None => String::new(),
    };
    make_item_at(entry, modified)
}

} // verus!
