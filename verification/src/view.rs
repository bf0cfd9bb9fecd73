//! What is drawn of the state: the headline, the listing and the footer.

use crate::draw::{draw, draw_all, draw_views, Draw, DrawView};
use crate::error::FxError;
use crate::item::{
    copy_text, is_item_of, item_views, name_of, shown_name, Entry, FileType, ItemInfo, ItemView,
};
use crate::layout::{Colorname, ConfigColor, Layout, Num, Widths, BEGINNING_ROW};
use crate::order::{is_listing, listed_items};
use crate::session::SortKey;
use crate::state::{are_items_of, are_timely, is_first_error, State};
use crate::text::{
    blank_text, blanks, chars_of, decimal, decimal_text, prefix, suffix, take_chars, text_between,
    trim, trimmed, utf8_text,
};
use vstd::prelude::*;
use vstd::string::*;
use vstd::utf8::{decode_utf8, valid_utf8};

verus! {

/// A name as a row shows it: one that is too long ends in two dots.
pub open spec fn fitted_name(name: Seq<char>, max: nat) -> Seq<char> {
    if name.len() > max {
        name.take(max - 2) + ".."@
    } else {
        name
    }
}

/// The color of an item.
pub open spec fn item_color(colors: ConfigColor, file_type: FileType) -> Colorname {
    match file_type {
        FileType::Directory => colors.dir_fg,
        FileType::File => colors.file_fg,
        FileType::Symlink => colors.symlink_fg,
    }
}

/// A row for a name of `name_len` characters can be laid out.
pub open spec fn row_fits(layout: Layout, widths: Widths, name_len: nat) -> bool {
    &&& name_len > layout.name_max_len ==> layout.name_max_len >= 2
    &&& layout.terminal_column >= widths.proper ==> layout.time_start_pos >= 1
    &&& layout.time_start_pos + widths.time <= u16::MAX
}

/// The name in a row, reversed where the item is selected.
pub open spec fn name_step(layout: Layout, item: ItemView) -> DrawView {
    let name = fitted_name(item.file_name, layout.name_max_len as nat);
    if item.selected {
        DrawView::Negative(name)
    } else {
        DrawView::Text(name)
    }
}

/// The steps that draw the row of an item. The time is left out on a narrow terminal.
pub open spec fn row_steps(layout: Layout, widths: Widths, item: ItemView) -> Seq<DrawView> {
    let name = seq![
        DrawView::SetColor(item_color(layout.colors, item.file_type)),
        name_step(layout, item),
    ];
    let time = if layout.terminal_column < widths.proper {
        Seq::empty()
    } else {
        seq![
            DrawView::MoveLeft(100),
            DrawView::MoveRight((layout.time_start_pos - 1) as u16),
            DrawView::Text(" "@),
            DrawView::Time { modified: item.modified, negative: item.selected },
        ]
    };
    let color = if item.selected {
        Seq::empty()
    } else {
        seq![DrawView::ResetColor]
    };
    let rest = if layout.terminal_column > layout.time_start_pos + widths.time {
        seq![DrawView::ClearUntilNewline]
    } else {
        Seq::empty()
    };
    name + time + color + rest
}

/// How many rows the listing has room for.
pub open spec fn rows_shown(len: nat, layout: Layout, skip: u16) -> nat
    recommends
        skip < len,
        layout.terminal_row >= BEGINNING_ROW,
{
    if len - skip <= layout.terminal_row - BEGINNING_ROW {
        (len - skip) as nat
    } else {
        (layout.terminal_row - BEGINNING_ROW) as nat
    }
}

/// The steps that draw the first `count` rows of a listing.
pub open spec fn rows_steps(
    list: Seq<ItemView>,
    layout: Layout,
    widths: Widths,
    skip: u16,
    count: nat,
) -> Seq<DrawView>
    decreases count,
{
    if count == 0 {
        Seq::empty()
    } else {
        rows_steps(list, layout, widths, skip, (count - 1) as nat).push(
            DrawView::MoveTo(3, (BEGINNING_ROW + count - 1) as u16),
        ) + row_steps(layout, widths, list[skip + count - 1])
    }
}

/// The steps that draw a listing of which the first `skip` items are scrolled off.
/// Where there is no room for all of it, the cursor moves on to the row below.
pub open spec fn list_steps(
    list: Seq<ItemView>,
    layout: Layout,
    widths: Widths,
    skip: u16,
) -> Seq<DrawView> {
    if list.len() <= skip {
        Seq::empty()
    } else {
        let count = rows_shown(list.len(), layout, skip);
        let rows = rows_steps(list, layout, widths, skip, count);
        if skip + count < list.len() {
            rows.push(DrawView::MoveTo(3, (BEGINNING_ROW + count) as u16))
        } else {
            rows
        }
    }
}

/// The listing can be laid out: the terminal has the rows above it, the rows can be
/// counted, and each of them fits.
pub open spec fn list_fits(
    list: Seq<ItemView>,
    layout: Layout,
    widths: Widths,
    skip: u16,
) -> bool {
    list.len() > skip ==> {
        &&& layout.terminal_row >= BEGINNING_ROW
        &&& skip + layout.terminal_row <= u16::MAX || list.len() + BEGINNING_ROW - 1 <= u16::MAX
        &&& forall|k: int|
            skip <= k < skip + rows_shown(list.len(), layout, skip) ==> row_fits(
                layout,
                widths,
                (#[trigger] list[k]).file_name.len(),
            )
    }
}

/// What the footer says of an item: its place, its extension and its size, and where
/// things stand if that is logged.
pub open spec fn footer_text(
    layout: Layout,
    len: nat,
    nums: Num,
    item: ItemView,
    size: Seq<char>,
    logged: bool,
) -> Seq<char> {
    let place = "["@ + decimal((nums.index + 1) as nat) + "/"@ + decimal(len) + "] "@;
    let ext = match item.file_ext {
        Some(ext) => ext + " "@,
        None => Seq::empty(),
    };
    let log = if logged {
        " index:"@ + decimal(nums.index as nat) + " skip:"@ + decimal(nums.skip as nat)
            + " column:"@ + decimal(layout.terminal_column as nat) + " row:"@ + decimal(
            layout.terminal_row as nat,
        )
    } else {
        Seq::empty()
    };
    place + ext + size + log
}

/// The steps that draw the footer, cut off at the width of the terminal.
pub open spec fn footer_steps(layout: Layout, text: Seq<char>) -> Seq<DrawView> {
    seq![
        DrawView::MoveTo(1, layout.terminal_row),
        DrawView::ClearCurrentLine,
        DrawView::Negative(blanks(layout.terminal_column as nat)),
        DrawView::MoveTo(1, layout.terminal_row),
        DrawView::Negative(prefix(text, layout.terminal_column as nat)),
    ]
}

/// `size` is what `size_text` writes of the size of the item under the cursor, if there
/// is one.
pub open spec fn reads_size<F: Fn(u64) -> String>(
    size_text: &F,
    list: Seq<ItemInfo>,
    nums: Num,
    size: Seq<char>,
) -> bool {
    if nums.index < list.len() {
        exists|text: String| #[trigger]
            call_ensures(size_text, (list[nums.index as int].file_size,), text) && text@ == size
    } else {
        size == Seq::<char>::empty()
    }
}

/// What is known of the surroundings when the screen is drawn.
pub struct Screen {
    pub widths: Widths,
    /// What the file `HEAD` of the repository in the current directory holds, if there
    /// is one.
    pub head: Option<Vec<u8>>,
}

/// The names of entries can be laid out in rows, and the rows can be counted.
pub open spec fn entries_fit(
    entries: Seq<Result<Entry, FxError>>,
    layout: Layout,
    widths: Widths,
    skip: u16,
) -> bool {
    entries.len() > skip ==> {
        &&& layout.terminal_row >= BEGINNING_ROW
        &&& skip + layout.terminal_row <= u16::MAX || entries.len() + BEGINNING_ROW - 1 <= u16::MAX
        &&& forall|k: int|
            0 <= k < entries.len() && (#[trigger] entries[k]) is Ok ==> row_fits(
                layout,
                widths,
                shown_name(entries[k]->Ok_0.name@).len(),
            )
    }
}

/// Whatever listing is made of the entries, it can be laid out.
pub open spec fn listings_fit(
    entries: Seq<Result<Entry, FxError>>,
    key: SortKey,
    show_hidden: bool,
    layout: Layout,
    widths: Widths,
    skip: u16,
) -> bool {
    forall|items: Seq<ItemView>, list: Seq<ItemView>|
        #![trigger are_items_of(items, entries), is_listing(list, items, key, show_hidden)]
        are_items_of(items, entries) && is_listing(list, items, key, show_hidden) ==> list_fits(
            list,
            layout,
            widths,
            skip,
        )
}

/// The listing of entries whose names can all be laid out can be laid out.
proof fn fitting_entries_list(
    entries: Seq<Result<Entry, FxError>>,
    key: SortKey,
    show_hidden: bool,
    layout: Layout,
    widths: Widths,
    skip: u16,
)
    requires
        entries_fit(entries, layout, widths, skip),
    ensures
        listings_fit(entries, key, show_hidden, layout, widths, skip),
{
    assert forall|items: Seq<ItemView>, list: Seq<ItemView>|
        #![trigger are_items_of(items, entries), is_listing(list, items, key, show_hidden)]
        are_items_of(items, entries) && is_listing(list, items, key, show_hidden) implies list_fits(
        list,
        layout,
        widths,
        skip,
    ) by {
        listed_items(list, items, key, show_hidden);
        if list.len() > skip {
            assert forall|k: int|
                skip <= k < skip + rows_shown(list.len(), layout, skip) implies row_fits(
                layout,
                widths,
                (#[trigger] list[k]).file_name.len(),
            ) by {
                assert(items.contains(list[k]));
                let j = choose|j: int| 0 <= j < items.len() && items[j] == list[k];
                assert(entries[j] is Ok);
                assert(is_item_of(items[j], entries[j]->Ok_0));
            }
        }
    }
}

/// The name of the branch in the contents of the file `HEAD` of a repository: what
/// follows the first 16 bytes, if it is text.
pub open spec fn branch_name(head: Option<Vec<u8>>) -> Option<Seq<char>> {
    match head {
        Some(bytes) => if valid_utf8(suffix(bytes@, 16)) {
            Some(trimmed(decode_utf8(suffix(bytes@, 16))))
        } else {
            None
        },
        None => None,
    }
}

impl State {
    /// The steps that draw the headline.
    pub open spec fn headline_steps(self, head: Option<Vec<u8>>) -> Seq<DrawView> {
        let dir = seq![
            DrawView::ClearAll,
            DrawView::MoveTo(1, 1),
            DrawView::SetColor(Colorname::Cyan),
            DrawView::Text(" "@),
            DrawView::Path(self.current_dir@),
            DrawView::ResetColor,
        ];
        let branch = match branch_name(head) {
            Some(name) => seq![
                DrawView::Text(" on "@),
                DrawView::SetColor(Colorname::LightMagenta),
                DrawView::Bold(name),
                DrawView::ResetColor,
            ],
            None => Seq::empty(),
        };
        let filtered = if self.filtered {
            seq![DrawView::Text(" (filtered)"@)]
        } else {
            Seq::empty()
        };
        dir + branch + filtered
    }

    /// The steps that draw the listing.
    pub open spec fn list_steps(self, widths: Widths, skip: u16) -> Seq<DrawView> {
        list_steps(item_views(self.list@), self.layout, widths, skip)
    }

    /// The listing can be laid out.
    pub open spec fn list_fits(self, widths: Widths, skip: u16) -> bool {
        list_fits(item_views(self.list@), self.layout, widths, skip)
    }

    /// The listing of entries can be laid out.
    pub open spec fn entries_fit(
        self,
        entries: Seq<Result<Entry, FxError>>,
        widths: Widths,
        skip: u16,
    ) -> bool {
        listings_fit(entries, self.sort_by, self.show_hidden, self.layout, widths, skip)
    }

    /// The footer for an item whose size reads `size`.
    pub open spec fn footer_text(self, nums: Num, item: ItemView, size: Seq<char>) -> Seq<char> {
        footer_text(self.layout, self.list@.len(), nums, item, size, self.rust_log is Some)
    }

    /// The steps that move the cursor to a row. `size` reads the size of the item there.
    pub open spec fn cursor_steps(self, nums: Num, y: u16, size: Seq<char>) -> Seq<DrawView> {
        let item = if nums.index < self.list@.len() {
            seq![DrawView::DeleteCursor] + footer_steps(
                self.layout,
                self.footer_text(nums, self.list@[nums.index as int]@, size),
            ) + if self.layout.preview {
                seq![DrawView::Preview { index: nums.index, y }]
            } else {
                Seq::empty()
            }
        } else {
            Seq::empty()
        };
        item + seq![DrawView::MoveTo(1, y), DrawView::Pointer, DrawView::MoveLeft(1)]
    }

    /// Draws the row of an item.
    pub fn print(&self, index: usize, widths: &Widths) -> (steps: Vec<Draw>)
        requires
            index < self.list@.len(),
            row_fits(self.layout, *widths, self.list@[index as int]@.file_name.len()),
        ensures
            draw_views(steps@) == row_steps(self.layout, *widths, self.list@[index as int]@),
    {
        let item = &self.list[index];
        let chars = chars_of(item.file_name.as_str());
        let name = if chars.len() > self.layout.name_max_len {
            let mut result = text_between(&chars, 0, self.layout.name_max_len - 2);
            assert(chars@.subrange(0, self.layout.name_max_len - 2) == chars@.take(
                self.layout.name_max_len - 2,
            ));
            result.append("..");
            result
        } else {
            item.file_name.clone()
        };
        let color = match item.file_type {
            FileType::Directory => self.layout.colors.dir_fg,
            FileType::File => self.layout.colors.file_fg,
            FileType::Symlink => self.layout.colors.symlink_fg,
        };
        let mut steps: Vec<Draw> = Vec::new();
        draw(&mut steps, Draw::SetColor(color));
        if item.selected {
            draw(&mut steps, Draw::Negative(name));
        } else {
            draw(&mut steps, Draw::Text(name));
        }
        if self.layout.terminal_column >= widths.proper {
            draw(&mut steps, Draw::MoveLeft(100));
            draw(&mut steps, Draw::MoveRight(self.layout.time_start_pos - 1));
            draw(&mut steps, Draw::Text(String::from_str(" ")));
            draw(
                &mut steps,
                Draw::Time { modified: copy_text(&item.modified), negative: item.selected },
            );
        }
        if !item.selected {
            draw(&mut steps, Draw::ResetColor);
        }
        if self.layout.terminal_column > self.layout.time_start_pos + widths.time {
            draw(&mut steps, Draw::ClearUntilNewline);
        }
        assert(draw_views(steps@) == row_steps(self.layout, *widths, item@));
        steps
    }

    /// Draws the listing.
    pub fn list_up(&self, skip_number: u16, widths: &Widths) -> (steps: Vec<Draw>)
        requires
            self.list_fits(*widths, skip_number),
        ensures
            draw_views(steps@) == self.list_steps(*widths, skip_number),
    {
        let mut steps: Vec<Draw> = Vec::new();
        let ghost views = item_views(self.list@);
        if self.list.len() <= skip_number as usize {
            assert(draw_views(steps@) == self.list_steps(*widths, skip_number));
            return steps;
        }
        let room: u16 = self.layout.terminal_row - BEGINNING_ROW;
        let ghost shown = rows_shown(views.len(), self.layout, skip_number);
        let mut row_count: u16 = 0;
        assert(draw_views(steps@) == rows_steps(views, self.layout, *widths, skip_number, 0));
        while row_count as usize + (skip_number as usize) < self.list.len()
            invariant_except_break
                row_count <= shown,
                draw_views(steps@) == rows_steps(
                    views,
                    self.layout,
                    *widths,
                    skip_number,
                    row_count as nat,
                ),
            invariant
                views == item_views(self.list@),
                self.list@.len() > skip_number,
                self.layout.terminal_row >= BEGINNING_ROW,
                room == self.layout.terminal_row - BEGINNING_ROW,
                shown == rows_shown(views.len(), self.layout, skip_number),
                list_fits(views, self.layout, *widths, skip_number),
            ensures
                draw_views(steps@) == list_steps(views, self.layout, *widths, skip_number),
            decreases room + 1 - row_count,
        {
            draw(&mut steps, Draw::MoveTo(3, row_count + BEGINNING_ROW));
            if row_count == room {
                break;
            }
            let index: usize = row_count as usize + skip_number as usize;
            assert(views[index as int] == self.list@[index as int]@);
            let row = self.print(index, widths);
            draw_all(&mut steps, row);
            row_count += 1;
        }
        steps
    }

    /// Draws the footer for an item. `size_text` writes a size for reading.
    pub fn print_footer<F: Fn(u64) -> String>(
        &self,
        nums: &Num,
        item: &ItemInfo,
        size_text: &F,
    ) -> (steps: Vec<Draw>)
        requires
            nums.index < usize::MAX,
            forall|n: u64| #[trigger] call_requires(size_text, (n,)),
        ensures
            exists|size: String| #[trigger]
                call_ensures(size_text, (item.file_size,), size) && draw_views(steps@)
                    == footer_steps(self.layout, self.footer_text(*nums, item@, size@)),
    {
        let mut footer = String::from_str("[");
        footer.append(decimal_text((nums.index + 1) as u64).as_str());
        footer.append("/");
        footer.append(decimal_text(self.list.len() as u64).as_str());
        footer.append("] ");
        match &item.file_ext {
            Some(ext) => {
                footer.append(ext.as_str());
                footer.append(" ");
            },
            None => {},
        }
        let size = size_text(item.file_size);
        footer.append(size.as_str());
        if self.rust_log.is_some() {
            footer.append(" index:");
            footer.append(decimal_text(nums.index as u64).as_str());
            footer.append(" skip:");
            footer.append(decimal_text(nums.skip as u64).as_str());
            footer.append(" column:");
            footer.append(decimal_text(self.layout.terminal_column as u64).as_str());
            footer.append(" row:");
            footer.append(decimal_text(self.layout.terminal_row as u64).as_str());
        }
        assert(footer@ == self.footer_text(*nums, item@, size@));
        let mut steps: Vec<Draw> = Vec::new();
        draw(&mut steps, Draw::MoveTo(1, self.layout.terminal_row));
        draw(&mut steps, Draw::ClearCurrentLine);
        draw(&mut steps, Draw::Negative(blank_text(self.layout.terminal_column)));
        draw(&mut steps, Draw::MoveTo(1, self.layout.terminal_row));
        draw(
            &mut steps,
            Draw::Negative(take_chars(footer.as_str(), self.layout.terminal_column as usize)),
        );
        assert(draw_views(steps@) == footer_steps(
            self.layout,
            self.footer_text(*nums, item@, size@),
        ));
        steps
    }

    /// Moves the cursor to a row, and draws the footer and the preview of the item there.
    pub fn move_cursor<F: Fn(u64) -> String>(&mut self, nums: &Num, y: u16, size_text: &F) -> (steps:
        Vec<Draw>)
        requires
            forall|n: u64| #[trigger] call_requires(size_text, (n,)),
        ensures
            exists|size: Seq<char>| #[trigger]
                reads_size(size_text, old(self).list@, *nums, size) && draw_views(steps@) == old(
                    self,
                ).cursor_steps(*nums, y, size),
            *final(self) == (State { layout: Layout { y, ..old(self).layout }, ..*old(self) }),
    {
        let mut steps: Vec<Draw> = Vec::new();
        let ghost mut text: Seq<char> = Seq::empty();
        if nums.index < self.list.len() {
            draw(&mut steps, Draw::DeleteCursor);
            let footer = self.print_footer(nums, &self.list[nums.index], size_text);
            proof {
                let size = choose|size: String| #[trigger]
                    call_ensures(size_text, (self.list@[nums.index as int].file_size,), size)
                        && draw_views(footer@) == footer_steps(
                        self.layout,
                        self.footer_text(*nums, self.list@[nums.index as int]@, size@),
                    );
                text = size@;
                assert(reads_size(size_text, self.list@, *nums, text));
            }
            draw_all(&mut steps, footer);
            if self.layout.preview {
                draw(&mut steps, Draw::Preview { index: nums.index, y });
            }
        }
        draw(&mut steps, Draw::MoveTo(1, y));
        draw(&mut steps, Draw::Pointer);
        draw(&mut steps, Draw::MoveLeft(1));
        assert(draw_views(steps@) == self.cursor_steps(*nums, y, text));
        assert(reads_size(size_text, self.list@, *nums, text));
        self.layout.y = y;
        steps
    }

    /// Clears the screen and draws the headline. `head` is what the file `HEAD` of the
    /// repository in the current directory holds, if there is one.
    pub fn clear_and_show_headline(&self, head: &Option<Vec<u8>>) -> (steps: Vec<Draw>)
        ensures
            draw_views(steps@) == self.headline_steps(*head),
    {
        let mut steps: Vec<Draw> = Vec::new();
        draw(&mut steps, Draw::ClearAll);
        draw(&mut steps, Draw::MoveTo(1, 1));
        draw(&mut steps, Draw::SetColor(Colorname::Cyan));
        draw(&mut steps, Draw::Text(String::from_str(" ")));
        draw(&mut steps, Draw::Path(self.current_dir.clone()));
        draw(&mut steps, Draw::ResetColor);
        match branch_of(head) {
            Some(name) => {
                draw(&mut steps, Draw::Text(String::from_str(" on ")));
                draw(&mut steps, Draw::SetColor(Colorname::LightMagenta));
                draw(&mut steps, Draw::Bold(name));
                draw(&mut steps, Draw::ResetColor);
            },
            None => {},
        }
        if self.filtered {
            draw(&mut steps, Draw::Text(String::from_str(" (filtered)")));
        }
        assert(draw_views(steps@) == self.headline_steps(*head));
        steps
    }

    /// The steps that draw the whole screen. `size` reads the size of the item under the
    /// cursor.
    pub open spec fn screen_steps(
        self,
        screen: Screen,
        nums: Num,
        y: u16,
        size: Seq<char>,
    ) -> Seq<DrawView> {
        self.headline_steps(screen.head) + self.list_steps(screen.widths, nums.skip)
            + self.cursor_steps(nums, y, size)
    }

    /// Draws the whole screen.
    pub fn redraw<F: Fn(u64) -> String>(
        &mut self,
        nums: &Num,
        y: u16,
        screen: &Screen,
        size_text: &F,
    ) -> (steps: Vec<Draw>)
        requires
            old(self).list_fits(screen.widths, nums.skip),
            forall|n: u64| #[trigger] call_requires(size_text, (n,)),
        ensures
            exists|size: Seq<char>| #[trigger]
                reads_size(size_text, old(self).list@, *nums, size) && draw_views(steps@) == old(
                    self,
                ).screen_steps(*screen, *nums, y, size),
            *final(self) == (State { layout: Layout { y, ..old(self).layout }, ..*old(self) }),
    {
        let mut steps = self.clear_and_show_headline(&screen.head);
        let rows = self.list_up(nums.skip, &screen.widths);
        draw_all(&mut steps, rows);
        let cursor = self.move_cursor(nums, y, size_text);
        draw_all(&mut steps, cursor);
        steps
    }

    /// Lists the entries of the current directory anew and draws the whole screen.
    pub fn reload<F: Fn(u64) -> String>(
        &mut self,
        entries: Vec<Result<Entry, FxError>>,
        nums: &Num,
        y: u16,
        screen: &Screen,
        size_text: &F,
    ) -> (result: Result<Vec<Draw>, FxError>)
        requires
            are_timely(entries@),
            old(self).entries_fit(entries@, screen.widths, nums.skip),
            forall|n: u64| #[trigger] call_requires(size_text, (n,)),
        ensures
            result matches Err(e) ==> *final(self) == *old(self) && exists|at: int|
                is_first_error(entries@, at, e),
            result matches Ok(steps) ==> {
                &&& exists|items: Seq<ItemView>| #[trigger]
                    are_items_of(items, entries@) && is_listing(
                        item_views(final(self).list@),
                        items,
                        old(self).sort_by,
                        old(self).show_hidden,
                    )
                &&& *final(self) == (State {
                    list: final(self).list,
                    layout: Layout { y, ..old(self).layout },
                    ..*old(self)
                })
                &&& exists|size: Seq<char>| #[trigger]
                    reads_size(size_text, final(self).list@, *nums, size) && draw_views(steps@)
                        == (State { layout: old(self).layout, ..*final(self) }).screen_steps(
                        *screen,
                        *nums,
                        y,
                        size,
                    )
            },
    {
        match self.update_list(entries) {
            Ok(()) => {},
            Err(e) => {
                return Err(e);
            },
        }
        Ok(self.redraw(nums, y, screen, size_text))
    }

    /// Lays the screen out for another size of the terminal and draws it. `make_layout`
    /// tells where the times of items begin and how long their names are.
    pub fn refresh<
        G: Fn(u16, Option<bool>, Option<usize>) -> (u16, usize),
        F: Fn(u64) -> String,
    >(
        &mut self,
        column: u16,
        row: u16,
        nums: &Num,
        cursor_pos: u16,
        screen: &Screen,
        make_layout: &G,
        size_text: &F,
    ) -> (steps: Vec<Draw>)
        requires
            1 <= column <= u16::MAX - 2,
            call_requires(
                make_layout,
                (column, old(self).layout.use_full, old(self).layout.option_name_len),
            ),
            forall|found: (u16, usize)| #[trigger]
                call_ensures(
                    make_layout,
                    (column, old(self).layout.use_full, old(self).layout.option_name_len),
                    found,
                ) ==> list_fits(
                    item_views(old(self).list@),
                    resized(old(self).layout, column, row, found),
                    screen.widths,
                    nums.skip,
                ),
            forall|n: u64| #[trigger] call_requires(size_text, (n,)),
        ensures
            exists|found: (u16, usize), size: Seq<char>|
                #![trigger call_ensures(
                    make_layout,
                    (column, old(self).layout.use_full, old(self).layout.option_name_len),
                    found,
                ), reads_size(size_text, old(self).list@, *nums, size)]
                {
                    let layout = resized(old(self).layout, column, row, found);
                    &&& call_ensures(
                        make_layout,
                        (column, old(self).layout.use_full, old(self).layout.option_name_len),
                        found,
                    )
                    &&& reads_size(size_text, old(self).list@, *nums, size)
                    &&& *final(self) == (State {
                        layout: Layout { y: cursor_pos, ..layout },
                        ..*old(self)
                    })
                    &&& draw_views(steps@) == (State { layout, ..*old(self) }).screen_steps(
                        *screen,
                        *nums,
                        cursor_pos,
                        size,
                    )
                },
    {
        let found = make_layout(column, self.layout.use_full, self.layout.option_name_len);
        self.layout.terminal_row = row;
        self.layout.terminal_column = column;
        self.layout.preview_start_column = column + 2;
        self.layout.preview_width = column - 1;
        self.layout.name_max_len = found.1;
        self.layout.time_start_pos = found.0;
        assert(self.layout == resized(old(self).layout, column, row, found));
        self.redraw(nums, cursor_pos, screen, size_text)
    }
}

/// A layout for another size of the terminal.
pub open spec fn resized(layout: Layout, column: u16, row: u16, widths: (u16, usize)) -> Layout {
    Layout {
        terminal_row: row,
        terminal_column: column,
        preview_start_column: (column + 2) as u16,
        preview_width: (column - 1) as u16,
        name_max_len: widths.1,
        time_start_pos: widths.0,
        ..layout
    }
}

/// The name of the branch in the contents of the file `HEAD` of a repository.
fn branch_of(head: &Option<Vec<u8>>) -> (name: Option<String>)
    ensures
        crate::item::optional_text(name) == branch_name(*head),
{
    match head {
        Some(bytes) => {
            let mut branch: Vec<u8> = Vec::new();
            let mut at: usize = 16;
            while at < bytes.len()
                invariant
                    at == 16 || 16 <= at <= bytes@.len(),
                    branch@ == if at <= bytes@.len() {
                        bytes@.subrange(16, at as int)
                    } else {
                        Seq::empty()
                    },
                decreases bytes@.len() - at,
            {
                branch.push(bytes[at]);
                at += 1;
                assert(bytes@.subrange(16, at as int) == bytes@.subrange(16, at - 1).push(
                    bytes@[at - 1],
                ));
            }
            assert(branch@ == suffix(bytes@, 16));
            match utf8_text(branch.as_slice()) {
                Some(text) => Some(trim(text.as_str())),
                None => None,
            }
        },
        None => None,
    }
}

/// Whether a row for a name of `name_len` characters can be laid out.
fn row_has_room(layout: &Layout, widths: &Widths, name_len: usize) -> (fits: bool)
    ensures
        fits == row_fits(*layout, *widths, name_len as nat),
{
    (name_len <= layout.name_max_len || layout.name_max_len >= 2) && (layout.terminal_column
        < widths.proper || layout.time_start_pos >= 1) && layout.time_start_pos <= u16::MAX
        - widths.time
}

/// Whether the rows of a listing of `len` items can be counted.
fn rows_have_room(layout: &Layout, len: usize, skip: u16) -> (fits: bool)
    ensures
        fits == (layout.terminal_row >= BEGINNING_ROW && (skip + layout.terminal_row <= u16::MAX
            || len + BEGINNING_ROW - 1 <= u16::MAX)),
{
    layout.terminal_row >= BEGINNING_ROW && (skip <= u16::MAX - layout.terminal_row || len
        <= (u16::MAX - BEGINNING_ROW + 1) as usize)
}

/// Whether a listing can be laid out.
pub fn list_has_room(list: &Vec<ItemInfo>, layout: &Layout, widths: &Widths, skip: u16) -> (fits:
    bool)
    ensures
        fits == list_fits(item_views(list@), *layout, *widths, skip),
{
    let ghost views = item_views(list@);
    if list.len() <= skip as usize {
        return true;
    }
    if !rows_have_room(layout, list.len(), skip) {
        return false;
    }
    let room: usize = (layout.terminal_row - BEGINNING_ROW) as usize;
    let shown: usize = if list.len() - skip as usize <= room {
        list.len() - skip as usize
    } else {
        room
    };
    let mut done: usize = 0;
    while done < shown
        invariant
            done <= shown,
            views == item_views(list@),
            skip + shown <= list.len(),
            skip < list@.len(),
            layout.terminal_row >= BEGINNING_ROW,
            shown == rows_shown(views.len(), *layout, skip),
            forall|k: int|
                skip <= k < skip + done ==> row_fits(
                    *layout,
                    *widths,
                    (#[trigger] views[k]).file_name.len(),
                ),
        decreases shown - done,
    {
        let at: usize = skip as usize + done;
        assert(views[at as int] == list@[at as int]@);
        if !row_has_room(layout, widths, list[at].file_name.as_str().unicode_len()) {
            return false;
        }
        done += 1;
    }
    true
}

/// Whether the names of entries can be laid out in rows, and the rows can be counted. The
/// listing of the entries can then be laid out.
pub fn entries_have_room(
    entries: &Vec<Result<Entry, FxError>>,
    layout: &Layout,
    widths: &Widths,
    skip: u16,
) -> (fits: bool)
    ensures
        fits == entries_fit(entries@, *layout, *widths, skip),
        fits ==> forall|key: SortKey, show_hidden: bool| #[trigger]
            listings_fit(entries@, key, show_hidden, *layout, *widths, skip),
{
    proof {
        if entries_fit(entries@, *layout, *widths, skip) {
            assert forall|key: SortKey, show_hidden: bool| #[trigger]
                listings_fit(entries@, key, show_hidden, *layout, *widths, skip) by {
                fitting_entries_list(entries@, key, show_hidden, *layout, *widths, skip);
            }
        }
    }
    if entries.len() <= skip as usize {
        return true;
    }
    if !rows_have_room(layout, entries.len(), skip) {
        return false;
    }
    let mut at: usize = 0;
    while at < entries.len()
        invariant
            at <= entries@.len(),
            entries@.len() > skip,
            forall|k: int|
                0 <= k < at && (#[trigger] entries@[k]) is Ok ==> row_fits(
                    *layout,
                    *widths,
                    shown_name(entries@[k]->Ok_0.name@).len(),
                ),
        decreases entries@.len() - at,
    {
        match &entries[at] {
            Ok(entry) => {
                let name = name_of(&entry.name);
                if !row_has_room(layout, widths, name.as_str().unicode_len()) {
                    assert(entries@[at as int] is Ok);
                    return false;
                }
            },
            Err(_) => {},
        }
        at += 1;
    }
    true
}

} // verus!
