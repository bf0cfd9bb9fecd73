//! With which program an item is opened, and whether it is an image.

use crate::error::FxError;
use crate::item::{optional_text, ItemInfo};
use crate::path::FilePath;
use crate::state::State;
use crate::text::{chars_of, contains_text, occurs_in, text_between, utf8_text};
use vstd::hash_map::StringHashMap;
use vstd::prelude::*;
use vstd::string::*;
use vstd::utf8::{decode_utf8, valid_utf8};

verus! {

/// A program that is to be run on a path.
#[derive(Debug, PartialEq, Eq)]
pub struct Launch {
    pub program: String,
    pub path: FilePath,
}

/// The command for an extension, if there is one.
pub open spec fn command_for(
    commands: Option<StringHashMap<String>>,
    ext: Option<Seq<char>>,
) -> Option<Seq<char>> {
    match (commands, ext) {
        (Some(map), Some(ext)) => if map@.contains_key(ext) {
            Some(map@[ext]@)
        } else {
            None
        },
        _ => None,
    }
}

/// What came of running a program: one that could not be run is an error.
pub fn opened<T>(run: Option<T>) -> (result: Result<T, FxError>)
    ensures
        result == match run {
            Some(value) => Ok::<T, FxError>(value),
            None => Err::<T, FxError>(FxError::OpenItem),
        },
{
    match run {
        Some(value) => Ok(value),
        None => Err(FxError::OpenItem),
    }
}

impl State {
    /// The command for the extension of an item.
    fn command_of(&self, item: &ItemInfo) -> (command: Option<String>)
        ensures
            optional_text(command) == command_for(self.commands, item@.file_ext),
    {
        match &self.commands {
            None => None,
            Some(map) => match &item.file_ext {
                None => None,
                Some(extension) => match map.get(extension.as_str()) {
                    Some(command) => Some(command.clone()),
                    None => None,
                },
            },
        }
    }

    /// How an item is opened: with the command for its extension, or else with the
    /// default command.
    pub fn open_file(&self, item: &ItemInfo) -> (launch: Launch)
        ensures
            launch.program@ == match command_for(self.commands, item@.file_ext) {
                Some(command) => command,
                None => self.default@,
            },
            launch.path@ == item@.file_path,
    {
        let program = match self.command_of(item) {
            Some(command) => command,
            None => self.default.clone(),
        };
        Launch { program, path: item.file_path.clone() }
    }

    /// How the item at a position is opened in a new window: with the command for its
    /// extension.
    pub fn open_file_in_new_window(&self, index: usize) -> (result: Result<Launch, FxError>)
        ensures
            index >= self.list@.len() ==> result == Err::<Launch, FxError>(FxError::GetItem),
            index < self.list@.len() ==> match command_for(
                self.commands,
                self.list@[index as int]@.file_ext,
            ) {
                Some(command) => result matches Ok(launch) && launch.program@ == command
                    && launch.path@ == self.list@[index as int]@.file_path,
                None => result == Err::<Launch, FxError>(FxError::OpenNewWindow),
            },
    {
        match self.get_item(index) {
            Err(e) => Err(e),
            Ok(item) => match self.command_of(item) {
                Some(command) => Ok(Launch { program: command, path: item.file_path.clone() }),
                None => Err(FxError::OpenNewWindow),
            },
        }
    }
}

/// A character that parts the answer of the program `file`.
pub open spec fn is_mark(c: char) -> bool {
    c == ':' || c == ';'
}

/// The text before its first mark, or all of it.
pub open spec fn before_mark(text: Seq<char>) -> Seq<char>
    decreases text.len(),
{
    if text.len() == 0 || is_mark(text.first()) {
        Seq::empty()
    } else {
        seq![text.first()] + before_mark(text.drop_first())
    }
}

/// The text behind its first mark, if it has one.
pub open spec fn behind_mark(text: Seq<char>) -> Option<Seq<char>>
    decreases text.len(),
{
    if text.len() == 0 {
        None
    } else if is_mark(text.first()) {
        Some(text.drop_first())
    } else {
        behind_mark(text.drop_first())
    }
}

/// The position of the first mark from a position on, or the end.
fn next_mark(chars: &Vec<char>, from: usize) -> (at: usize)
    requires
        from <= chars@.len(),
    ensures
        from <= at <= chars@.len(),
        chars@.subrange(from as int, at as int) == before_mark(chars@.skip(from as int)),
        behind_mark(chars@.skip(from as int)) == if at < chars@.len() {
            Some(chars@.skip(at + 1))
        } else {
            None
        },
{
    let mut at: usize = from;
    while at < chars.len() && chars[at] != ':' && chars[at] != ';'
        invariant
            from <= at <= chars@.len(),
            before_mark(chars@.skip(from as int)) == chars@.subrange(from as int, at as int)
                + before_mark(chars@.skip(at as int)),
            behind_mark(chars@.skip(from as int)) == behind_mark(chars@.skip(at as int)),
        decreases chars@.len() - at,
    {
        let ghost rest = chars@.skip(at as int);
        assert(rest.drop_first() == chars@.skip(at + 1));
        assert(chars@.subrange(from as int, at as int) + (seq![rest.first()] + before_mark(
            rest.drop_first(),
        )) == chars@.subrange(from as int, at + 1) + before_mark(rest.drop_first()));
        at += 1;
    }
    assert(at < chars@.len() ==> chars@.skip(at as int).drop_first() == chars@.skip(at + 1));
    assert(before_mark(chars@.skip(at as int)) == Seq::<char>::empty());
    at
}

/// Whether an item is an image, by what the program `file` says of it, if it can be run:
/// its answer is text, and an image is named between the first mark and the next.
pub fn is_supported_image(output: &Option<Vec<u8>>) -> (image: bool)
    requires
        *output matches Some(bytes) ==> valid_utf8(bytes@) ==> behind_mark(
            decode_utf8(bytes@),
        ) is Some,
    ensures
        image == (*output matches Some(bytes) && valid_utf8(bytes@) && occurs_in(
            before_mark(behind_mark(decode_utf8(bytes@))->0),
            "image"@,
        )),
{
    match output {
        None => false,
        Some(bytes) => match utf8_text(bytes.as_slice()) {
            None => false,
            Some(text) => {
                let chars = chars_of(text.as_str());
                assert(chars@.skip(0) == chars@);
                let first = next_mark(&chars, 0);
                assert(first < chars.len());
                let second = next_mark(&chars, first + 1);
                contains_text(text_between(&chars, first + 1, second).as_str(), "image")
            },
        },
    }
}

} // verus!
