//! What holds of the screen: rows, listing, footer, headline and cursor.

use crate::draw::{Draw, DrawView};
use crate::error::FxError;
use crate::history::{listed_anew, redone_message, undone_message};
use crate::item::{item_views, shown_name, Entry, FileType, ItemInfo, ItemView};
use crate::layout::{Colorname, Layout, Num, Widths};
use crate::op::OpView;
use crate::order::is_listing;
use crate::state::{are_items_of, is_first_error, is_too_small, Startup, State};
use crate::text::{blanks, decimal, occurs_in, trimmed};
use crate::view::{
    branch_name, entries_fit, fitted_name, footer_steps, footer_text, list_fits, list_steps, reads_size, resized, row_fits,
    row_steps, rows_shown, rows_steps, Screen,
};
use vstd::prelude::*;
use vstd::string::*;
use vstd::utf8::{decode_utf8, valid_utf8};

verus! {

/// A name that is too long for a row is cut so that it fills the row: it keeps its first
/// characters and ends in two dots.
pub proof fn long_name_is_cut(name: Seq<char>, max: nat)
    requires
        max >= 2,
        name.len() > max,
    ensures
        ({
            let fitted = fitted_name(name, max);
            &&& fitted.len() == max
            &&& forall|i: int| 0 <= i < max - 2 ==> #[trigger] fitted[i] == name[i]
            &&& fitted[max - 2] == '.'
            &&& fitted[max - 1] == '.'
        }),
{
    reveal_strlit("..");
}

/// How many steps a row takes.
pub open spec fn row_len(layout: Layout, widths: Widths, item: ItemView) -> nat {
    let time: nat = if layout.terminal_column >= widths.proper {
        4
    } else {
        0
    };
    let reset: nat = if item.selected {
        0
    } else {
        1
    };
    let clear: nat = if layout.terminal_column > layout.time_start_pos + widths.time {
        1
    } else {
        0
    };
    2 + time + reset + clear
}

/// A row begins with the color of the item's kind and shows its name, in reverse video where
/// it is selected. On a terminal that is wide enough its time follows in the column for
/// times. The color is reset unless it is selected, and what is behind the time is cleared.
pub proof fn row_shows_item(layout: Layout, widths: Widths, item: ItemView)
    ensures
        ({
            let steps = row_steps(layout, widths, item);
            let name = fitted_name(item.file_name, layout.name_max_len as nat);
            let wide = layout.terminal_column >= widths.proper;
            let after: int = if wide {
                6
            } else {
                2
            };
            &&& steps.len() == row_len(layout, widths, item)
            &&& item.file_type == FileType::Directory ==> steps[0] == DrawView::SetColor(
                layout.colors.dir_fg,
            )
            &&& item.file_type == FileType::File ==> steps[0] == DrawView::SetColor(
                layout.colors.file_fg,
            )
            &&& item.file_type == FileType::Symlink ==> steps[0] == DrawView::SetColor(
                layout.colors.symlink_fg,
            )
            &&& item.selected ==> steps[1] == DrawView::Negative(name)
            &&& !item.selected ==> steps[1] == DrawView::Text(name)
            &&& wide ==> {
                &&& steps[2] == DrawView::MoveLeft(100)
                &&& steps[3] == DrawView::MoveRight((layout.time_start_pos - 1) as u16)
                &&& steps[4] == DrawView::Text(" "@)
                &&& steps[5] == (DrawView::Time {
                    modified: item.modified,
                    negative: item.selected,
                })
            }
            &&& !item.selected ==> steps[after] == DrawView::ResetColor
            &&& layout.terminal_column > layout.time_start_pos + widths.time ==> steps.last()
                == DrawView::ClearUntilNewline
        }),
{
}

/// From a position on, steps show an item in a row of the listing: they move to the row and
/// draw the item there.
pub open spec fn shows_at(
    steps: Seq<DrawView>,
    p: int,
    row: nat,
    drawn: Seq<DrawView>,
) -> bool {
    &&& 0 <= p
    &&& p + 1 + drawn.len() <= steps.len()
    &&& steps[p] == DrawView::MoveTo(3, row as u16)
    &&& steps.subrange(p + 1, p + 1 + drawn.len()) == drawn
}

/// How many steps the rows of the first items take that are not scrolled off.
pub open spec fn rows_len(
    list: Seq<ItemView>,
    layout: Layout,
    widths: Widths,
    skip: u16,
    count: nat,
) -> nat
    decreases count,
{
    if count == 0 {
        0
    } else {
        rows_len(list, layout, widths, skip, (count - 1) as nat) + 1 + row_len(
            layout,
            widths,
            list[skip + count - 1],
        )
    }
}

/// The rows of a listing show the items in their order, each in its row.
proof fn rows_show_items(
    list: Seq<ItemView>,
    layout: Layout,
    widths: Widths,
    skip: u16,
    count: nat,
    k: nat,
)
    ensures
        rows_steps(list, layout, widths, skip, count).len() == rows_len(
            list,
            layout,
            widths,
            skip,
            count,
        ),
        k < count ==> shows_at(
            rows_steps(list, layout, widths, skip, count),
            rows_len(list, layout, widths, skip, k) as int,
            3 + k,
            row_steps(layout, widths, list[skip + k]),
        ),
    decreases count,
{
    if count > 0 {
        let steps = rows_steps(list, layout, widths, skip, count);
        let before = rows_steps(list, layout, widths, skip, (count - 1) as nat);
        let last = row_steps(layout, widths, list[skip + count - 1]);
        let p = rows_len(list, layout, widths, skip, k) as int;
        rows_show_items(list, layout, widths, skip, (count - 1) as nat, k);
        row_shows_item(layout, widths, list[skip + count - 1]);
        if k < count - 1 {
            let drawn = row_steps(layout, widths, list[skip + k]);
            assert(steps[p] == before[p]);
            assert(steps.subrange(p + 1, p + 1 + drawn.len()) =~= before.subrange(
                p + 1,
                p + 1 + drawn.len(),
            ));
        } else if k == count - 1 {
            assert(steps[p] == DrawView::MoveTo(3, (3 + k) as u16));
            assert(steps.subrange(p + 1, p + 1 + last.len()) =~= last);
        }
    }
}

/// Every item that there is room for is drawn in its row: the item behind those that are
/// scrolled off in the first row of the listing, the one behind it in the next, and so on,
/// with nothing drawn between them.
pub proof fn listing_shows_items(
    list: Seq<ItemView>,
    layout: Layout,
    widths: Widths,
    skip: u16,
    k: nat,
)
    requires
        skip + k < list.len(),
        3 + k < layout.terminal_row,
    ensures
        shows_at(
            list_steps(list, layout, widths, skip),
            rows_len(list, layout, widths, skip, k) as int,
            3 + k,
            row_steps(layout, widths, list[skip + k]),
        ),
{
    let count = rows_shown(list.len(), layout, skip);
    rows_show_items(list, layout, widths, skip, count, k);
    let drawn = row_steps(layout, widths, list[skip + k]);
    let rows = rows_steps(list, layout, widths, skip, count);
    let steps = list_steps(list, layout, widths, skip);
    let p = rows_len(list, layout, widths, skip, k) as int;
    assert(steps[p] == rows[p]);
    assert(steps.subrange(p + 1, p + 1 + drawn.len()) =~= rows.subrange(
        p + 1,
        p + 1 + drawn.len(),
    ));
}

/// The number of steps that move to another place.
pub open spec fn moves(steps: Seq<DrawView>) -> nat
    decreases steps.len(),
{
    if steps.len() == 0 {
        0
    } else {
        moves(steps.drop_last()) + if steps.last() is MoveTo {
            1nat
        } else {
            0nat
        }
    }
}

/// The moves of two lists of steps are those of both.
proof fn moves_of_both(first: Seq<DrawView>, second: Seq<DrawView>)
    ensures
        moves(first + second) == moves(first) + moves(second),
    decreases second.len(),
{
    if second.len() == 0 {
        assert(first + second =~= first);
    } else {
        assert((first + second).drop_last() =~= first + second.drop_last());
        moves_of_both(first, second.drop_last());
    }
}

/// Steps without a move move nowhere.
proof fn nothing_moves(steps: Seq<DrawView>)
    requires
        forall|i: int| 0 <= i < steps.len() ==> !(#[trigger] steps[i] is MoveTo),
    ensures
        moves(steps) == 0,
    decreases steps.len(),
{
    if steps.len() > 0 {
        assert forall|i: int| 0 <= i < steps.drop_last().len() implies !(
        #[trigger] steps.drop_last()[i] is MoveTo) by {
            assert(steps.drop_last()[i] == steps[i]);
        }
        nothing_moves(steps.drop_last());
        assert(!(steps[steps.len() - 1] is MoveTo));
    }
}

/// Rows move once for each item.
proof fn rows_move_once_each(
    list: Seq<ItemView>,
    layout: Layout,
    widths: Widths,
    skip: u16,
    count: nat,
)
    ensures
        moves(rows_steps(list, layout, widths, skip, count)) == count,
    decreases count,
{
    if count > 0 {
        let fewer = (count - 1) as nat;
        rows_move_once_each(list, layout, widths, skip, fewer);
        let before = rows_steps(list, layout, widths, skip, fewer);
        let to = DrawView::MoveTo(3, (3 + count - 1) as u16);
        let row = row_steps(layout, widths, list[skip + count - 1]);
        assert forall|i: int| 0 <= i < row.len() implies !(#[trigger] row[i] is MoveTo) by {}
        nothing_moves(row);
        assert(before.push(to).drop_last() =~= before);
        moves_of_both(before.push(to), row);
    }
}

/// The listing draws no more rows than there are items left and than there is room for. If
/// items are left over, it moves on to one more row, and draws nothing there.
pub proof fn listing_draws_no_more(
    list: Seq<ItemView>,
    layout: Layout,
    widths: Widths,
    skip: u16,
)
    requires
        layout.terminal_row >= 3,
    ensures
        ({
            let steps = list_steps(list, layout, widths, skip);
            let room = layout.terminal_row - 3;
            &&& list.len() <= skip ==> steps.len() == 0
            &&& list.len() > skip && list.len() - skip <= room ==> moves(steps) == list.len() - skip
                && steps.len() == rows_len(
                list,
                layout,
                widths,
                skip,
                (list.len() - skip) as nat,
            )
            &&& list.len() > skip && list.len() - skip > room ==> moves(steps) == room + 1
                && steps.len() == rows_len(list, layout, widths, skip, room as nat) + 1
                && steps.last() == DrawView::MoveTo(3, layout.terminal_row)
        }),
{
    if list.len() > skip {
        let count = rows_shown(list.len(), layout, skip);
        rows_move_once_each(list, layout, widths, skip, count);
        rows_show_items(list, layout, widths, skip, count, 0);
        let rows = rows_steps(list, layout, widths, skip, count);
        let to = DrawView::MoveTo(3, (3 + count) as u16);
        assert(rows.push(to).drop_last() =~= rows);
    }
}

/// The footer tells the place of the item, counted from one, the number of items, its
/// extension if it has one, and its size; and if that is logged, where things stand.
pub proof fn footer_tells_item(
    layout: Layout,
    len: nat,
    nums: Num,
    item: ItemView,
    size: Seq<char>,
)
    ensures
        ({
            let place = "["@ + decimal((nums.index + 1) as nat) + "/"@ + decimal(len) + "] "@;
            let told = match item.file_ext {
                Some(ext) => place + ext + " "@ + size,
                None => place + size,
            };
            let log = " index:"@ + decimal(nums.index as nat) + " skip:"@ + decimal(
                nums.skip as nat,
            ) + " column:"@ + decimal(layout.terminal_column as nat) + " row:"@ + decimal(
                layout.terminal_row as nat,
            );
            &&& footer_text(layout, len, nums, item, size, false) == told
            &&& footer_text(layout, len, nums, item, size, true) == told + log
        }),
{
    let place = "["@ + decimal((nums.index + 1) as nat) + "/"@ + decimal(len) + "] "@;
    match item.file_ext {
        Some(ext) => {
            assert(place + (ext + " "@) + size =~= place + ext + " "@ + size);
        },
        None => {
            assert(place + Seq::<char>::empty() + size =~= place + size);
        },
    }
}

/// The footer of a state tells where the item stands in its listing.
pub proof fn footer_of_state(state: State, nums: Num, item: ItemView, size: Seq<char>)
    ensures
        state.footer_text(nums, item, size) == footer_text(
            state.layout,
            state.list@.len(),
            nums,
            item,
            size,
            state.rust_log is Some,
        ),
{
}

/// The footer is drawn in the last row, over a bar of the whole width, and cut off where the
/// terminal ends.
pub proof fn footer_is_drawn_in_last_row(layout: Layout, text: Seq<char>)
    ensures
        ({
            let steps = footer_steps(layout, text);
            let width = layout.terminal_column as nat;
            &&& steps.len() == 5
            &&& steps[0] == DrawView::MoveTo(1, layout.terminal_row)
            &&& steps[1] == DrawView::ClearCurrentLine
            &&& steps[2] == DrawView::Negative(Seq::new(width, |i: int| ' '))
            &&& steps[3] == DrawView::MoveTo(1, layout.terminal_row)
            &&& text.len() <= width ==> steps[4] == DrawView::Negative(text)
            &&& text.len() > width ==> steps[4] == DrawView::Negative(text.take(width as int))
        }),
{
    assert(blanks(layout.terminal_column as nat) =~= Seq::new(
        layout.terminal_column as nat,
        |i: int| ' ',
    ));
}

/// The branch is what follows the first sixteen bytes of the file, where that is text,
/// without white space around it.
pub proof fn branch_is_behind_sixteen_bytes(head: Vec<u8>)
    ensures
        branch_name(None) is None,
        ({
            let rest = if head@.len() > 16 {
                head@.skip(16)
            } else {
                Seq::empty()
            };
            &&& valid_utf8(rest) ==> branch_name(Some(head)) == Some(trimmed(decode_utf8(rest)))
            &&& !valid_utf8(rest) ==> branch_name(Some(head)) is None
        }),
{
}

/// The headline clears the screen and shows the current directory in its color, then the
/// branch if there is one, and then whether the listing is filtered.
pub proof fn headline_shows_directory(state: State, head: Option<Vec<u8>>)
    ensures
        ({
            let steps = state.headline_steps(head);
            let dir = seq![
                DrawView::ClearAll,
                DrawView::MoveTo(1, 1),
                DrawView::SetColor(Colorname::Cyan),
                DrawView::Text(" "@),
                DrawView::Path(state.current_dir@),
                DrawView::ResetColor,
            ];
            let branch = match branch_name(head) {
                Some(name) => seq![
                    DrawView::Text(" on "@),
                    DrawView::SetColor(Colorname::LightMagenta),
                    DrawView::Bold(name),
                    DrawView::ResetColor,
                ],
                None => Seq::empty(),
            };
            &&& !state.filtered ==> steps == dir + branch
            &&& state.filtered ==> steps == (dir + branch).push(DrawView::Text(" (filtered)"@))
        }),
{
    let steps = state.headline_steps(head);
    if state.filtered {
        assert(steps =~= steps.drop_last().push(DrawView::Text(" (filtered)"@)));
    }
}

/// The cursor erases the pointer and draws the footer of the item under it, and its preview
/// if that is on; then it moves to its row and draws the pointer there. Where there is no
/// item it only moves.
pub proof fn cursor_moves_to_row(state: State, nums: Num, y: u16, size: Seq<char>)
    ensures
        ({
            let steps = state.cursor_steps(nums, y, size);
            let moving = seq![DrawView::MoveTo(1, y), DrawView::Pointer, DrawView::MoveLeft(1)];
            let footer = footer_steps(
                state.layout,
                footer_text(
                    state.layout,
                    state.list@.len(),
                    nums,
                    state.list@[nums.index as int]@,
                    size,
                    state.rust_log is Some,
                ),
            );
            let pointed = seq![DrawView::DeleteCursor] + footer;
            &&& nums.index >= state.list@.len() ==> steps == moving
            &&& nums.index < state.list@.len() && !state.layout.preview ==> steps == pointed + moving
            &&& nums.index < state.list@.len() && state.layout.preview ==> steps == pointed.push(
                DrawView::Preview { index: nums.index, y },
            ) + moving
        }),
{
}

/// The size in the footer is written of the size of the item under the cursor.
pub proof fn footer_tells_size_of_item<F: Fn(u64) -> String>(
    size_text: &F,
    list: Seq<ItemInfo>,
    nums: Num,
    size: Seq<char>,
)
    requires
        nums.index < list.len(),
        reads_size(size_text, list, nums, size),
    ensures
        exists|text: String| #[trigger]
            call_ensures(size_text, (list[nums.index as int].file_size,), text) && text@ == size,
{
}

/// After undoing or redoing, the entries are listed as before: by the same order and with
/// the same items hidden. Where one of them cannot be read, the list stays as it was.
pub proof fn entries_are_listed_as_before(
    before: State,
    after: State,
    steps: Vec<Draw>,
    e: FxError,
    entries: Seq<Result<Entry, FxError>>,
)
    ensures
        listed_anew(before, after, Ok(steps), entries) ==> {
            &&& exists|items: Seq<ItemView>| #[trigger]
                are_items_of(items, entries) && is_listing(
                    item_views(after.list@),
                    items,
                    before.sort_by,
                    before.show_hidden,
                )
            &&& after.sort_by == before.sort_by
            &&& after.show_hidden == before.show_hidden
            &&& after.current_dir == before.current_dir
            &&& after.registered == before.registered
            &&& after.layout == before.layout
        },
        listed_anew(before, after, Err(e), entries) ==> {
            &&& exists|at: int| is_first_error(entries, at, e)
            &&& after.list == before.list
            &&& after.current_dir == before.current_dir
            &&& after.registered == before.registered
        },
{
}

/// The screen is drawn from the top: the headline, then the listing, then the cursor; and
/// after undoing or redoing, a message in place of the cursor.
pub proof fn screen_is_drawn_from_top(
    state: State,
    screen: Screen,
    nums: Num,
    y: u16,
    size: Seq<char>,
    message: Seq<char>,
)
    ensures
        ({
            let headline = state.headline_steps(screen.head);
            let items = state.list@.map_values(|i: ItemInfo| i@);
            let listing = list_steps(items, state.layout, screen.widths, nums.skip);
            let steps = state.screen_steps(screen, nums, y, size);
            let told = state.message_steps(screen, nums, message);
            &&& state.list_steps(screen.widths, nums.skip) == listing
            &&& steps == headline + listing + state.cursor_steps(nums, y, size)
            &&& told == (headline + listing).push(DrawView::Info { message, y: 3 })
        }),
{
    let told = state.message_steps(screen, nums, message);
    assert(told =~= told.drop_last().push(DrawView::Info { message, y: 3 }));
}

/// Each kind of operation has its message.
pub proof fn messages_name_operation(op: OpView)
    ensures
        op is Rename ==> undone_message(op) == "UNDONE: RENAME"@ && redone_message(op)
            == "REDONE: RENAME"@,
        op is Put ==> undone_message(op) == "UNDONE: PUT"@ && redone_message(op)
            == "REDONE: PUT"@,
        op is Delete ==> undone_message(op) == "UNDONE: DELETE"@ && redone_message(op)
            == "REDONE DELETE"@,
{
}

/// Another size of the terminal changes the sizes and what follows from them, and nothing
/// else of the layout.
pub proof fn resizing_changes_sizes(layout: Layout, column: u16, row: u16, widths: (u16, usize))
    requires
        1 <= column <= u16::MAX - 2,
    ensures
        ({
            let other = resized(layout, column, row, widths);
            &&& other.terminal_column == column
            &&& other.terminal_row == row
            &&& other.preview_start_column == column + 2
            &&& other.preview_width == column - 1
            &&& other.time_start_pos == widths.0
            &&& other.name_max_len == widths.1
            &&& other.y == layout.y
            &&& other.use_full == layout.use_full
            &&& other.option_name_len == layout.option_name_len
            &&& other.colors == layout.colors
            &&& other.preview == layout.preview
            &&& other.has_chafa == layout.has_chafa
            &&& other.is_kitty == layout.is_kitty
        }),
{
}

/// There is no room to draw in a terminal of fewer than four columns or fewer than four rows.
pub proof fn four_by_four_is_enough(column: u16, row: u16)
    ensures
        column < 4 ==> is_too_small(column, row),
        row < 4 ==> is_too_small(column, row),
        column >= 4 && row >= 4 ==> !is_too_small(column, row),
{
}

/// The layout at the start follows from the terminal, the configuration and the environment.
pub proof fn layout_at_start(start: Startup, widths: (u16, usize))
    requires
        4 <= start.column <= u16::MAX - 2,
    ensures
        ({
            let layout = start.layout(widths);
            &&& layout.y == 3
            &&& layout.terminal_column == start.column
            &&& layout.terminal_row == start.row
            &&& layout.preview_start_column == start.column + 2
            &&& layout.preview_width == start.column - 1
            &&& layout.time_start_pos == widths.0
            &&& layout.name_max_len == widths.1
            &&& layout.use_full == start.use_full_width
            &&& layout.option_name_len == start.item_name_length
            &&& layout.colors == start.color
            &&& !layout.preview
            &&& layout.has_chafa == start.has_chafa
            &&& start.term is None ==> !layout.is_kitty
            &&& start.term is Some ==> layout.is_kitty == occurs_in(
                start.term->0@,
                "kitty"@,
            )
        }),
        start.default is Some ==> start.default_command() == start.default->0,
        start.default is None ==> start.default_command() == start.editor->0,
{
}

/// A row can be laid out where a name that is too long can be cut, the time has a column,
/// and the columns can be counted.
pub proof fn room_for_a_row(layout: Layout, widths: Widths, name_len: nat)
    ensures
        row_fits(layout, widths, name_len) <==> {
            &&& name_len <= layout.name_max_len || layout.name_max_len >= 2
            &&& layout.terminal_column < widths.proper || layout.time_start_pos > 0
            &&& layout.time_start_pos + widths.time < 65_536
        },
{
}

/// A listing can be drawn where the terminal has the rows above it, the rows can be counted,
/// and there is room for a row for each item that is shown. One that is scrolled off can
/// always be drawn.
pub proof fn room_for_a_listing(
    list: Seq<ItemView>,
    layout: Layout,
    widths: Widths,
    skip: u16,
)
    ensures
        list.len() <= skip ==> list_fits(list, layout, widths, skip),
        list.len() > skip ==> (list_fits(list, layout, widths, skip) <==> {
            &&& layout.terminal_row >= 3
            &&& skip + layout.terminal_row < 65_536 || list.len() + 2 < 65_536
            &&& forall|k: int|
                skip <= k < list.len() && k - skip < layout.terminal_row - 3 ==> row_fits(
                    layout,
                    widths,
                    (#[trigger] list[k]).file_name.len(),
                )
        }),
{
}

/// The listing of entries can be drawn where there is room for a row for each of them that
/// can be read, shown or not.
pub proof fn room_for_entries(
    entries: Seq<Result<Entry, FxError>>,
    layout: Layout,
    widths: Widths,
    skip: u16,
)
    ensures
        entries.len() <= skip ==> entries_fit(entries, layout, widths, skip),
        entries.len() > skip ==> (entries_fit(entries, layout, widths, skip) <==> {
            &&& layout.terminal_row >= 3
            &&& skip + layout.terminal_row < 65_536 || entries.len() + 2 < 65_536
            &&& forall|k: int|
                0 <= k < entries.len() && (#[trigger] entries[k]) is Ok ==> row_fits(
                    layout,
                    widths,
                    shown_name(entries[k]->Ok_0.name@).len(),
                )
        }),
{
}

} // verus!
