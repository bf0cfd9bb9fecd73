//! The state of the file manager: what is listed, selected and registered.

pub use vstd::hash_map::StringHashMap;

use crate::error::FxError;
use crate::item::{
    is_item_of, is_timely, item_views, make_item, timely_entry, Entry, ItemInfo, ItemView,
};
use crate::layout::{ConfigColor, Layout, BEGINNING_ROW};
use crate::op::Operation;
use crate::order::{arrange, filter_push, is_listing};
use crate::path::{empty_path, FilePath, PathView};
use crate::session::{Session, SortKey};
use crate::text::{contains_text, occurs_in};
use vstd::prelude::*;
use vstd::string::*;

verus! {

/// The name of the directory that holds the configuration.
pub const FX_CONFIG_DIR: &'static str = "felix";

/// The name of the file that holds the configuration.
pub const CONFIG_FILE: &'static str = "config.toml";

/// The name of the trash directory.
pub const TRASH: &'static str = "trash";

/// The question before the trash is emptied.
pub const WHEN_EMPTY: &'static str = "Are you sure to empty the trash directory? (if yes: y)";

/// The state of the file manager.
pub struct State {
    /// The items of the current directory that are shown.
    pub list: Vec<ItemInfo>,
    /// The items that can be put.
    pub registered: Vec<ItemInfo>,
    /// The operations that can be undone or redone.
    pub operations: Operation,
    pub current_dir: FilePath,
    pub trash_dir: FilePath,
    /// The command that opens an item for which there is no other.
    pub default: String,
    /// The commands that open items, by extension.
    pub commands: Option<StringHashMap<String>>,
    pub sort_by: SortKey,
    pub layout: Layout,
    pub show_hidden: bool,
    pub filtered: bool,
    pub rust_log: Option<String>,
}

/// What is found at the start: the configuration, the last session, the terminal and
/// the environment.
pub struct Startup {
    /// The default command of the configuration.
    pub default: Option<String>,
    /// The commands of the configuration, by extension.
    pub commands: Option<StringHashMap<String>>,
    pub use_full_width: Option<bool>,
    pub item_name_length: Option<usize>,
    pub color: ConfigColor,
    pub session: Session,
    /// The size of the terminal.
    pub column: u16,
    pub row: u16,
    /// Whether the program `chafa` can be run.
    pub has_chafa: bool,
    /// The variables `TERM`, `EDITOR` and `RUST_LOG` of the environment.
    pub term: Option<String>,
    pub editor: Option<String>,
    pub rust_log: Option<String>,
}

/// A terminal that there is no room to draw in.
pub open spec fn is_too_small(column: u16, row: u16) -> bool {
    column < 4 || row < 4
}

/// Whether a terminal is too small to draw in.
pub fn too_small(column: u16, row: u16) -> (small: bool)
    ensures
        small == is_too_small(column, row),
{
    column < 4 || row < 4
}

/// The terminal `kitty`, by the variable `TERM`.
pub open spec fn names_kitty(term: Option<String>) -> bool {
    term matches Some(t) && occurs_in(t@, "kitty"@)
}

/// Whether the terminal is `kitty`.
pub fn check_kitty_support(term: &Option<String>) -> (is_kitty: bool)
    ensures
        is_kitty == names_kitty(*term),
{
    match term {
        Some(t) => contains_text(t.as_str(), "kitty"),
        None => false,
    }
}

impl Startup {
    /// The layout at the start, given where times begin and how long names are.
    pub open spec fn layout(self, widths: (u16, usize)) -> Layout {
        Layout {
            y: BEGINNING_ROW,
            terminal_row: self.row,
            terminal_column: self.column,
            name_max_len: widths.1,
            time_start_pos: widths.0,
            use_full: self.use_full_width,
            option_name_len: self.item_name_length,
            colors: self.color,
            preview: false,
            preview_start_column: (self.column + 2) as u16,
            preview_width: (self.column - 1) as u16,
            has_chafa: self.has_chafa,
            is_kitty: names_kitty(self.term),
        }
    }

    /// The default command: that of the configuration, or else the editor.
    pub open spec fn default_command(self) -> String {
        match self.default {
            Some(command) => command,
            None => self.editor->0,
        }
    }
}

/// An item, selected or not.
pub open spec fn marked(item: ItemView, selected: bool) -> ItemView {
    ItemView { selected, ..item }
}

/// All items, deselected.
pub open spec fn deselected(items: Seq<ItemView>) -> Seq<ItemView> {
    Seq::new(items.len(), |k: int| marked(items[k], false))
}

/// The items, of which those down to a position are selected.
pub open spec fn selected_down_to(items: Seq<ItemView>, position: int) -> Seq<ItemView> {
    Seq::new(items.len(), |k: int| marked(items[k], k <= position))
}

/// The items, of which those from a position on are selected.
pub open spec fn selected_from(items: Seq<ItemView>, position: int) -> Seq<ItemView> {
    Seq::new(items.len(), |k: int| marked(items[k], position <= k))
}

/// The items that are selected.
pub open spec fn selected_items(items: Seq<ItemView>) -> Seq<ItemView> {
    items.filter(|i: ItemView| i.selected)
}

/// The first entry that cannot be read.
pub open spec fn is_first_error<T>(entries: Seq<Result<T, FxError>>, at: int, e: FxError) -> bool {
    &&& 0 <= at < entries.len()
    &&& entries[at] == Err::<T, FxError>(e)
    &&& forall|k: int| 0 <= k < at ==> #[trigger] entries[k] is Ok
}

/// `items` are the items of the entries, one by one.
pub open spec fn are_items_of(items: Seq<ItemView>, entries: Seq<Result<Entry, FxError>>) -> bool {
    &&& items.len() == entries.len()
    &&& forall|k: int|
        0 <= k < items.len() ==> #[trigger] entries[k] is Ok && is_item_of(items[k], entries[k]->Ok_0)
}

/// An entry is read: it can be, and all before it can be.
pub open spec fn is_read(entries: Seq<Result<Entry, FxError>>, at: int) -> bool {
    forall|k: int| 0 <= k <= at ==> #[trigger] entries[k] is Ok
}

/// The times of all entries before the first one that cannot be read can be written out.
pub open spec fn are_timely(entries: Seq<Result<Entry, FxError>>) -> bool {
    forall|at: int|
        0 <= at < entries.len() && #[trigger] is_read(entries, at) ==> is_timely(
            entries[at]->Ok_0,
        )
}

impl State {
    /// The state at the start, with nothing listed yet. `make_layout` tells where the
    /// times of items begin and how long their names are.
    pub fn new<F: Fn(u16, Option<bool>, Option<usize>) -> (u16, usize)>(
        start: Startup,
        make_layout: F,
    ) -> (result: Result<State, FxError>)
        requires
            !is_too_small(start.column, start.row) ==> {
                &&& start.column + 2 <= u16::MAX
                &&& start.default is Some || start.editor is Some
                &&& call_requires(
                    make_layout,
                    (start.column, start.use_full_width, start.item_name_length),
                )
            },
        ensures
            result is Err <==> is_too_small(start.column, start.row),
            result matches Err(e) ==> e == FxError::TooSmallWindowSize,
            result matches Ok(state) ==> {
                &&& state.list@ == Seq::<ItemInfo>::empty()
                &&& state.registered@ == Seq::<ItemInfo>::empty()
                &&& state.operations.pos == 0
                &&& state.operations.op_list@.len() == 0
                &&& state.current_dir@ == empty_path()
                &&& state.trash_dir@ == empty_path()
                &&& state.default == start.default_command()
                &&& state.commands == start.commands
                &&& state.sort_by == start.session.sort_by
                &&& exists|widths: (u16, usize)|
                    #[trigger] call_ensures(
                        make_layout,
                        (start.column, start.use_full_width, start.item_name_length),
                        widths,
                    ) && state.layout == start.layout(widths)
                &&& state.show_hidden == start.session.show_hidden
                &&& !state.filtered
                &&& state.rust_log == start.rust_log
            },
    {
        if too_small(start.column, start.row) {
            return Err(FxError::TooSmallWindowSize);
        }
        let widths = make_layout(start.column, start.use_full_width, start.item_name_length);
        let is_kitty = check_kitty_support(&start.term);
        let default = match start.default {
            Some(command) => command,
            None => start.editor.unwrap(),
        };
        Ok(
            State {
                list: Vec::new(),
                registered: Vec::new(),
                operations: Operation { pos: 0, op_list: Vec::new() },
                current_dir: FilePath::new(),
                trash_dir: FilePath::new(),
                default,
                commands: start.commands,
                sort_by: start.session.sort_by,
                layout: Layout {
                    y: BEGINNING_ROW,
                    terminal_row: start.row,
                    terminal_column: start.column,
                    name_max_len: widths.1,
                    time_start_pos: widths.0,
                    use_full: start.use_full_width,
                    option_name_len: start.item_name_length,
                    colors: start.color,
                    preview: false,
                    preview_start_column: start.column + 2,
                    preview_width: start.column - 1,
                    has_chafa: start.has_chafa,
                    is_kitty,
                },
                show_hidden: start.session.show_hidden,
                filtered: false,
                rust_log: start.rust_log,
            },
        )
    }

    /// The item at a position of the listing.
    pub fn get_item(&self, index: usize) -> (item: Result<&ItemInfo, FxError>)
        ensures
            item == if index < self.list@.len() {
                Ok::<&ItemInfo, FxError>(&self.list@[index as int])
            } else {
                Err::<&ItemInfo, FxError>(FxError::GetItem)
            },
    {
        if index < self.list.len() {
            Ok(&self.list[index])
        } else {
            Err(FxError::GetItem)
        }
    }

    /// The item at a position of the listing, for changing it.
    pub fn get_item_mut(&mut self, index: usize) -> (item: Result<&mut ItemInfo, FxError>)
        ensures
            item is Ok <==> index < old(self).list@.len(),
            item matches Err(e) ==> e == FxError::GetItem && *final(self) == *old(self),
            item matches Ok(item) ==> {
                &&& *item == old(self).list@[index as int]
                &&& final(self).list@ == old(self).list@.update(index as int, *final(item))
                &&& *final(self) == (State { list: final(self).list, ..*old(self) })
            },
    {
        if index < self.list.len() {
            Ok(&mut self.list[index])
        } else {
            Err(FxError::GetItem)
        }
    }

    /// Selects or deselects one item.
    fn set_selected(&mut self, at: usize, selected: bool)
        requires
            at < old(self).list@.len(),
        ensures
            item_views(final(self).list@) == item_views(old(self).list@).update(
                at as int,
                marked(old(self).list@[at as int]@, selected),
            ),
            *final(self) == (State { list: final(self).list, ..*old(self) }),
    {
        self.list[at].selected = selected;
        assert(self.list@[at as int]@ == marked(old(self).list@[at as int]@, selected));
        assert(item_views(self.list@) == item_views(old(self).list@).update(
            at as int,
            marked(old(self).list@[at as int]@, selected),
        ));
    }

    /// Deselects all items.
    pub fn reset_selection(&mut self)
        ensures
            item_views(final(self).list@) == deselected(item_views(old(self).list@)),
            *final(self) == (State { list: final(self).list, ..*old(self) }),
    {
        let mut at: usize = 0;
        while at < self.list.len()
            invariant
                at <= self.list@.len() == old(self).list@.len(),
                item_views(self.list@) == Seq::new(
                    old(self).list@.len(),
                    |k: int|
                        if k < at {
                            marked(old(self).list@[k]@, false)
                        } else {
                            old(self).list@[k]@
                        },
                ),
                *self == (State { list: self.list, ..*old(self) }),
            decreases self.list@.len() - at,
        {
            let ghost before = item_views(self.list@);
            assert(before[at as int] == self.list@[at as int]@);
            self.set_selected(at, false);
            assert(item_views(self.list@).len() == before.len());
            at += 1;
        }
    }

    /// Selects the items from the top down to a position.
    pub fn select_from_top(&mut self, start_pos: usize)
        ensures
            item_views(final(self).list@) == selected_down_to(
                item_views(old(self).list@),
                start_pos as int,
            ),
            *final(self) == (State { list: final(self).list, ..*old(self) }),
    {
        let mut at: usize = 0;
        while at < self.list.len()
            invariant
                at <= self.list@.len() == old(self).list@.len(),
                item_views(self.list@) == Seq::new(
                    old(self).list@.len(),
                    |k: int|
                        if k < at {
                            marked(old(self).list@[k]@, k <= start_pos)
                        } else {
                            old(self).list@[k]@
                        },
                ),
                *self == (State { list: self.list, ..*old(self) }),
            decreases self.list@.len() - at,
        {
            let ghost before = item_views(self.list@);
            assert(before[at as int] == self.list@[at as int]@);
            self.set_selected(at, at <= start_pos);
            assert(item_views(self.list@).len() == before.len());
            at += 1;
        }
    }

    /// Selects the items from a position down to the bottom.
    pub fn select_to_bottom(&mut self, start_pos: usize)
        ensures
            item_views(final(self).list@) == selected_from(
                item_views(old(self).list@),
                start_pos as int,
            ),
            *final(self) == (State { list: final(self).list, ..*old(self) }),
    {
        let mut at: usize = 0;
        while at < self.list.len()
            invariant
                at <= self.list@.len() == old(self).list@.len(),
                item_views(self.list@) == Seq::new(
                    old(self).list@.len(),
                    |k: int|
                        if k < at {
                            marked(old(self).list@[k]@, start_pos <= k)
                        } else {
                            old(self).list@[k]@
                        },
                ),
                *self == (State { list: self.list, ..*old(self) }),
            decreases self.list@.len() - at,
        {
            let ghost before = item_views(self.list@);
            assert(before[at as int] == self.list@[at as int]@);
            self.set_selected(at, start_pos <= at);
            assert(item_views(self.list@).len() == before.len());
            at += 1;
        }
    }

    /// Registers the selected items, or else the item at a position, in place of what
    /// was registered.
    pub fn yank_item(&mut self, index: usize, selected: bool)
        requires
            selected || index < old(self).list@.len(),
        ensures
            item_views(final(self).registered@) == if selected {
                selected_items(item_views(old(self).list@))
            } else {
                seq![old(self).list@[index as int]@]
            },
            *final(self) == (State { registered: final(self).registered, ..*old(self) }),
    {
        let mut registered: Vec<ItemInfo> = Vec::new();
        if selected {
            let ghost views = item_views(self.list@);
            let ghost is_selected = |i: ItemView| i.selected;
            let mut at: usize = 0;
            assert(views.take(0).filter(is_selected) == item_views(registered@)) by {
                reveal(Seq::filter);
            }
            while at < self.list.len()
                invariant
                    at <= self.list@.len(),
                    views == item_views(self.list@),
                    is_selected == (|i: ItemView| i.selected),
                    item_views(registered@) == views.take(at as int).filter(is_selected),
                    *self == *old(self),
                decreases self.list@.len() - at,
            {
                proof {
                    let before = views.take(at as int);
                    assert(views.take(at + 1) == before.push(views[at as int]));
                    filter_push(before, views[at as int], is_selected);
                }
                if self.list[at].selected {
                    let ghost before = registered@;
                    registered.push(self.list[at].clone());
                    assert(item_views(registered@) == item_views(before).push(views[at as int]));
                }
                at += 1;
            }
            assert(views.take(views.len() as int) == views);
        } else {
            registered.push(self.list[index].clone());
            assert(item_views(registered@) == seq![old(self).list@[index as int]@]);
        }
        self.registered = registered;
    }

    /// Registers an item that was moved to the trash, under its name and path there.
    pub fn push_to_registered(&mut self, item: &ItemInfo, file_path: FilePath, file_name: String)
        ensures
            item_views(final(self).registered@) == item_views(old(self).registered@).push(
                moved(item@, file_path@, file_name@),
            ),
            *final(self) == (State { registered: final(self).registered, ..*old(self) }),
    {
        let mut buf = item.clone();
        buf.file_path = file_path;
        buf.file_name = file_name;
        buf.selected = false;
        self.registered.push(buf);
        assert(item_views(self.registered@) == item_views(old(self).registered@).push(buf@));
    }

    /// Lists the entries of the current directory anew.
    pub fn update_list(&mut self, entries: Vec<Result<Entry, FxError>>) -> (result: Result<
        (),
        FxError,
    >)
        requires
            are_timely(entries@),
        ensures
            result matches Err(e) ==> *final(self) == *old(self) && exists|at: int|
                is_first_error(entries@, at, e),
            result is Ok ==> {
                &&& exists|items: Seq<ItemView>|
                    #[trigger] are_items_of(items, entries@) && is_listing(
                        item_views(final(self).list@),
                        items,
                        old(self).sort_by,
                        old(self).show_hidden,
                    )
                &&& *final(self) == (State { list: final(self).list, ..*old(self) })
            },
    {
        let mut items: Vec<ItemInfo> = Vec::new();
        for entry in it: entries
            invariant
                it.seq() == entries@,
                are_timely(entries@),
                items@.len() == it.index(),
                forall|k: int|
                    0 <= k < items@.len() ==> #[trigger] entries@[k] is Ok && is_item_of(
                        items@[k]@,
                        entries@[k]->Ok_0,
                    ),
                *self == *old(self),
        {
            match entry {
                Ok(entry) => {
                    assert(is_read(entries@, it.index()));
                    items.push(make_item(&entry));
                },
                Err(e) => {
                    assert(is_first_error(entries@, it.index(), e));
                    return Err(e);
                },
            }
        }
        assert(are_items_of(item_views(items@), entries@));
        self.list = arrange(items, self.sort_by, self.show_hidden);
        Ok(())
    }

    /// What the session file is to hold.
    pub fn write_session(&self) -> (session: Session)
        ensures
            session == (Session { sort_by: self.sort_by, show_hidden: self.show_hidden }),
    {
        Session { sort_by: self.sort_by, show_hidden: self.show_hidden }
    }
}

/// An item under another name and path, deselected.
pub open spec fn moved(item: ItemView, file_path: PathView, file_name: Seq<char>) -> ItemView {
    ItemView { file_path, file_name, selected: false, ..item }
}

/// Whether the times of all entries before the first one that cannot be read can be written
/// out.
pub fn timely(entries: &Vec<Result<Entry, FxError>>) -> (fits: bool)
    ensures
        fits == are_timely(entries@),
{
    let mut at: usize = 0;
    while at < entries.len()
        invariant
            at <= entries@.len(),
            forall|k: int|
                0 <= k < at ==> (#[trigger] entries@[k]) is Ok && is_timely(entries@[k]->Ok_0),
        decreases entries@.len() - at,
    {
        match &entries[at] {
            Ok(entry) => if !timely_entry(entry) {
                assert(is_read(entries@, at as int));
                return false;
            },
            Err(_) => {
                assert forall|k: int|
                    0 <= k < entries@.len() && #[trigger] is_read(entries@, k) implies is_timely(
                    entries@[k]->Ok_0,
                ) by {
                    assert(k < at) by {
                        assert(entries@[at as int] is Err);
                    }
                    assert(entries@[k] is Ok);
                }
                return true;
            },
        }
        at += 1;
    }
    assert forall|k: int| 0 <= k < entries@.len() && #[trigger] is_read(entries@, k) implies is_timely(
        entries@[k]->Ok_0,
    ) by {
        assert(entries@[k] is Ok);
    }
    true
}

} // verus!
