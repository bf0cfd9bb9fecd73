//! What holds of the file manager as a whole.

use crate::draw::DrawView;
use crate::error::{ErrorView, FxError};
use crate::history::{redoing, undoing, wanted_entries, PlanView};
use crate::item::{item_of, Entry, FileType, ItemView};
use crate::layout::{Layout, Widths, BEGINNING_ROW};
use crate::op::{OpView, Operation};
use crate::order::{
    directories, filter_push, filter_subset, is_listing, is_permutation, is_ranked, is_sorted,
    item_order, listed_items, lists, names_are_ordered, natural_order, other_items, precedes, sorted_items, sorts,
    visible,
};
use crate::path::{
    behind_drops_first, different_names_differ, empty_path, is_plain_name, join_leads_on,
    parent_of_entry, routes, PathView,
};
use crate::put::{
    destination, dir_started, dir_target, file_started, is_moved_link, is_trashed, names_of,
    next_put, put_at, put_name, DirPutView, PutStepView, PutView, STAMP_LEN,
};
use crate::remove::{
    first_dir_step, first_file_step, next_dir_step, next_file_step, next_removal, records,
    registered_after, registered_next, removal_at, trash_name, DirStepView, FileStepView, RemovalStepView,
    RemovalView,
};
use crate::route::{RouteView, DOT};
use crate::session::SortKey;
use crate::state::{deselected, moved, selected_down_to, selected_from, selected_items};
use crate::text::{decimal, prefix, suffix, text_order_antisymmetric};
use crate::tree::{copy_of, TreeWalkView, WalkEvent};
use crate::view::{fitted_name, footer_steps, list_steps, row_steps, rows_shown, rows_steps};
use vstd::prelude::*;
use vstd::string::*;
use vstd::utf8::{decode_utf8, encode_utf8, encode_utf8_decode_utf8, encode_utf8_valid_utf8};

verus! {

/// A power of ten.
spec fn power_of_ten(exponent: nat) -> nat
    decreases exponent,
{
    if exponent == 0 {
        1
    } else {
        10 * power_of_ten((exponent - 1) as nat)
    }
}

/// A number below a power of ten has so many digits, and all of them are digits.
proof fn decimal_digits(n: nat, digits: nat)
    requires
        digits > 0,
        n < power_of_ten(digits),
        digits > 1 ==> power_of_ten((digits - 1) as nat) <= n,
    ensures
        decimal(n).len() == digits,
        forall|i: int| 0 <= i < digits ==> '0' <= #[trigger] decimal(n)[i] <= '9',
    decreases digits,
{
    reveal_with_fuel(power_of_ten, 3);
    if digits > 1 {
        assert(n >= 10) by {
            if digits > 2 {
                power_is_positive((digits - 2) as nat);
            }
        }
        decimal_digits(n / 10, (digits - 1) as nat);
    }
}

/// A power of ten is positive.
proof fn power_is_positive(exponent: nat)
    ensures
        power_of_ten(exponent) >= 1,
    decreases exponent,
{
    if exponent > 0 {
        power_is_positive((exponent - 1) as nat);
    }
}

/// A time of ten digits, as it has been since 2001 and will be until 2286.
pub open spec fn has_ten_digits(stamp: i64) -> bool {
    1_000_000_000 <= stamp <= 9_999_999_999
}

/// The name of an item in the trash begins with its time, which takes ten characters.
proof fn trash_name_form(stamp: i64, name: Seq<char>)
    requires
        has_ten_digits(stamp),
        is_plain_name(name),
    ensures
        is_plain_name(trash_name(stamp, name)),
        suffix(trash_name(stamp, name), STAMP_LEN as nat) == name,
{
    reveal_strlit("_");
    assert(power_of_ten(9) == 1_000_000_000 && power_of_ten(10) == 10_000_000_000) by {
        reveal_with_fuel(power_of_ten, 11);
    }
    decimal_digits(stamp as nat, 10);
    let text = trash_name(stamp, name);
    let time = decimal(stamp as nat);
    assert(text == time + "_"@ + name);
    assert(text.len() == 11 + name.len());
    assert(suffix(text, STAMP_LEN as nat) == name);
    assert(!text.contains('/')) by {
        if text.contains('/') {
            let k = choose|k: int| 0 <= k < text.len() && text[k] == '/';
            if k < 10 {
                assert(text[k] == time[k]);
            } else if k > 10 {
                assert(text[k] == name[k - 11]);
            }
        }
    }
    assert(text != seq!['.']);
}

/// An item that was moved to the trash is put under the name that it had.
pub proof fn trash_gives_back_name(trash_dir: PathView, item: ItemView, stamp: i64)
    requires
        has_ten_digits(stamp),
        is_plain_name(item.file_name),
    ensures
        ({
            let name = trash_name(stamp, item.file_name);
            let trashed = moved(item, trash_dir.join_name(name), name);
            is_trashed(trashed, trash_dir) && put_name(trashed, trash_dir) == item.file_name
        }),
{
    trash_name_form(stamp, item.file_name);
    parent_of_entry(trash_dir, trash_name(stamp, item.file_name));
}

/// Undoing a deletion puts an item back where it was, if its name is still free there: the
/// item that is made from its entry in the trash is put under the name that it had, and
/// that leads to its old path. A directory goes there whatever name is found for it, and a
/// link that was moved to the trash is made anew.
pub proof fn undo_puts_back(
    trash_dir: PathView,
    current_dir: PathView,
    item: ItemView,
    dir: PathView,
    stamp: i64,
    entry: Entry,
    modified: Seq<char>,
    found: Seq<char>,
)
    requires
        has_ten_digits(stamp),
        is_plain_name(item.file_name),
        item.file_path == dir.join_name(item.file_name),
        entry.path@ == trash_dir.join_name(trash_name(stamp, item.file_name)),
        entry.name@ == encode_utf8(trash_name(stamp, item.file_name)),
    ensures
        put_name(item_of(entry, modified), trash_dir) == item.file_name,
        destination(current_dir, Some(dir)).join_name(item.file_name) == item.file_path,
        dir_target(dir, item_of(entry, modified), trash_dir, found) == item.file_path,
        is_moved_link(item_of(entry, modified), trash_dir, true),
{
    let name = trash_name(stamp, item.file_name);
    trash_name_form(stamp, item.file_name);
    parent_of_entry(trash_dir, name);
    encode_utf8_valid_utf8(name);
    encode_utf8_decode_utf8(name);
}

/// Moving a file to the trash, if nothing fails, copies it there, registers the copy,
/// removes the file and comes to the path of the copy.
pub proof fn file_goes_to_trash(
    trash_dir: PathView,
    item: ItemView,
    stamp: i64,
    registered: Seq<ItemView>,
)
    ensures
        ({
            let name = trash_name(stamp, item.file_name);
            let to = trash_dir.join_name(name);
            let copy = first_file_step(trash_dir, item, true, true, stamp);
            let remove = next_file_step(copy, item, true);
            &&& copy == FileStepView::Copy { to, name }
            &&& remove == FileStepView::Remove { to }
            &&& next_file_step(remove, item, true) == FileStepView::Done(Ok(to))
            &&& registered_after(registered, copy, item, true) == registered.push(
                moved(item, to, name),
            )
            &&& registered_after(registered, remove, item, true) == registered
        }),
{
}

/// A link that leads nowhere goes to the trash as well: it is moved there, registered under
/// its new name, and comes to its path there. One that cannot be moved is left alone and
/// reported.
pub proof fn link_goes_to_trash(
    trash_dir: PathView,
    item: ItemView,
    stamp: i64,
    registered: Seq<ItemView>,
)
    requires
        item.file_type == FileType::Symlink,
    ensures
        ({
            let name = trash_name(stamp, item.file_name);
            let to = trash_dir.join_name(name);
            let step = first_file_step(trash_dir, item, true, false, stamp);
            &&& step == FileStepView::MoveLink { to, name }
            &&& next_file_step(step, item, true) == FileStepView::Done(Ok(to))
            &&& registered_after(registered, step, item, true) == registered.push(
                moved(item, to, name),
            )
            &&& next_file_step(step, item, false) == FileStepView::Done(
                Err(ErrorView::PutItem(item.file_path)),
            )
            &&& registered_after(registered, step, item, false) == registered
        }),
{
}

/// A file of a new operation is removed only after it was copied, and one that could not
/// be copied is left alone and reported.
pub proof fn file_removed_only_after_copy(
    trash_dir: PathView,
    item: ItemView,
    exists: bool,
    stamp: i64,
    step: FileStepView,
    ok: bool,
)
    ensures
        !(first_file_step(trash_dir, item, true, exists, stamp) is Remove),
        next_file_step(step, item, ok) is Remove ==> step is Copy && ok,
        step is Copy && !ok ==> next_file_step(step, item, ok) == FileStepView::Done(
            Err(ErrorView::PutItem(item.file_path)),
        ),
{
}

/// A directory that is copied to the trash is removed only after the walk through it came
/// to its end.
pub proof fn dir_removed_only_after_walk(
    trash_dir: PathView,
    item: ItemView,
    step: DirStepView,
    event: WalkEvent,
    stamp: i64,
)
    requires
        step is Walk,
        step->walk !is Ended,
        next_dir_step(trash_dir, item, step, event, stamp) is RemoveAll,
    ensures
        step->walk is Next,
        event is End,
{
}

/// A new operation makes the history forget what was undone, and becomes the last one that
/// is not undone.
pub proof fn new_operation_is_last(before: Operation, after: Operation, op: OpView)
    requires
        before.well_formed(),
        records(before, after, op),
    ensures
        after.well_formed(),
        after.done() == before.done().push(after.op_list@.last()),
        after.done().last()@ == op,
{
    assert(after.op_list@ == after.op_list@.drop_last().push(after.op_list@.last()));
    assert(after.done() == after.op_list@);
}

/// Redoing what was undone last leaves the history as it was.
pub proof fn redo_follows_undo(start: Operation, undone: Operation, redone: Operation)
    requires
        start.pos < start.op_list@.len(),
        undone.pos == start.pos + 1,
        undone.op_list == start.op_list,
        redone.pos == undone.pos - 1,
        redone.op_list == undone.op_list,
    ensures
        start.well_formed(),
        undone.well_formed(),
        undone.done() == start.done().drop_last(),
        redone == start,
{
}

/// Undoing a renaming takes the way of redoing it backwards, and undoing a put removes what
/// was put.
pub proof fn undo_inverts(op: OpView)
    ensures
        op matches OpView::Rename { original_name, new_name } ==> undoing(op) == (PlanView::Rename {
            from: new_name,
            to: original_name,
        }) && redoing(op) == (PlanView::Rename { from: original_name, to: new_name }),
        op matches OpView::Put { original, put, dir } ==> undoing(op) == (PlanView::Unput {
            paths: put,
        }) && redoing(op) == (PlanView::PutAgain { items: original, dir }),
        op matches OpView::Delete { trash, original, dir } ==> undoing(op) == (PlanView::PutBack {
            trash,
            dir,
        }) && redoing(op) == (PlanView::RemoveAgain { items: original }),
{
}

/// What was recorded last is what is undone: of a put, exactly what was put is removed, and
/// of a deletion, exactly what went to the trash is put back into the directory that it
/// came from.
pub proof fn recorded_operation_is_undone(before: Operation, after: Operation, op: OpView)
    requires
        before.well_formed(),
        records(before, after, op),
    ensures
        op matches OpView::Put { original, put, dir } ==> undoing(after.done().last()@) == (
        PlanView::Unput { paths: put }),
        op matches OpView::Delete { trash, original, dir } ==> undoing(after.done().last()@) == (
        PlanView::PutBack { trash, dir }),
{
    new_operation_is_last(before, after, op);
}

/// The paths of entries that can all be read are all different.
pub open spec fn have_own_paths(entries: Seq<Result<Entry, FxError>>) -> bool {
    &&& forall|k: int| 0 <= k < entries.len() ==> #[trigger] entries[k] is Ok
    &&& forall|i: int, j: int|
        0 <= i < j < entries.len() ==> !(#[trigger] entries[i])->Ok_0.path@.same_as(
            (#[trigger] entries[j])->Ok_0.path@,
        )
}

/// One of the entries has a path.
pub open spec fn has_path(entries: Seq<Entry>, path: PathView) -> bool {
    exists|k: int| 0 <= k < entries.len() && (#[trigger] entries[k]).path@.same_as(path)
}

/// Of the entries of the trash exactly those are found whose paths are wanted.
pub proof fn wanted_entries_are_found(
    entries: Seq<Result<Entry, FxError>>,
    wanted: Seq<PathView>,
    path: PathView,
)
    requires
        have_own_paths(entries),
    ensures
        wanted_entries(entries, wanted, 0) is Ok,
        has_path(wanted_entries(entries, wanted, 0)->Ok_0, path) <==> routes(wanted).contains(path.route())
            && exists|k: int|
            0 <= k < entries.len() && (#[trigger] entries[k])->Ok_0.path@.same_as(path),
{
    wanted_entries_hold(entries, wanted, Set::empty(), path);
}

/// Of the entries that are left, those are found whose paths are wanted. The paths `taken`
/// were found before.
proof fn wanted_entries_hold(
    entries: Seq<Result<Entry, FxError>>,
    wanted: Seq<PathView>,
    taken: Set<RouteView>,
    path: PathView,
)
    requires
        have_own_paths(entries),
        taken.finite(),
        taken.subset_of(routes(wanted).to_set()),
        forall|k: int|
            0 <= k < entries.len() ==> !taken.contains((#[trigger] entries[k])->Ok_0.path@.route()),
    ensures
        wanted_entries(entries, wanted, taken.len()) is Ok,
        has_path(wanted_entries(entries, wanted, taken.len())->Ok_0, path) <==> routes(
            wanted,
        ).contains(path.route()) && exists|k: int|
            0 <= k < entries.len() && (#[trigger] entries[k])->Ok_0.path@.same_as(path),
    decreases entries.len(),
{
    let result = wanted_entries(entries, wanted, taken.len());
    if entries.len() > 0 {
        let rest = entries.drop_first();
        let entry = entries[0]->Ok_0;
        let p = entry.path@.route();
        assert(entries[0] is Ok);
        assert forall|k: int| 0 <= k < rest.len() implies #[trigger] rest[k] is Ok by {
            assert(rest[k] == entries[k + 1]);
        }
        assert(have_own_paths(rest)) by {
            assert forall|i: int, j: int| 0 <= i < j < rest.len() implies !(
            #[trigger] rest[i])->Ok_0.path@.same_as((#[trigger] rest[j])->Ok_0.path@) by {
                assert(rest[i] == entries[i + 1] && rest[j] == entries[j + 1]);
            }
        }
        assert forall|k: int| 0 <= k < rest.len() implies !taken.contains(
            (#[trigger] rest[k])->Ok_0.path@.route(),
        ) && rest[k]->Ok_0.path@.route() != p by {
            assert(rest[k] == entries[k + 1]);
        }
        let here = exists|k: int|
            0 <= k < entries.len() && (#[trigger] entries[k])->Ok_0.path@.same_as(path);
        let later = exists|k: int| 0 <= k < rest.len() && (#[trigger] rest[k])->Ok_0.path@.same_as(path);
        assert(here <==> p == path.route() || later) by {
            if here {
                let k = choose|k: int|
                    0 <= k < entries.len() && (#[trigger] entries[k])->Ok_0.path@.same_as(path);
                if k > 0 {
                    assert(rest[k - 1] == entries[k]);
                }
            }
            if later {
                let k = choose|k: int|
                    0 <= k < rest.len() && (#[trigger] rest[k])->Ok_0.path@.same_as(path);
                assert(entries[k + 1] == rest[k]);
            }
        }
        if !routes(wanted).contains(p) {
            wanted_entries_hold(rest, wanted, taken, path);
        } else {
            let more = taken.insert(p);
            assert(!taken.contains(p));
            assert(routes(wanted).to_set().contains(p));
            if taken.len() + 1 == wanted.len() {
                routes(wanted).lemma_cardinality_of_set();
                vstd::seq_lib::seq_to_set_is_finite(routes(wanted));
                vstd::set_lib::lemma_len_subset(more, routes(wanted).to_set());
                vstd::set_lib::lemma_subset_equality(more, routes(wanted).to_set());
                assert(result->Ok_0 == seq![entry]);
                assert(seq![entry][0].path@.route() == p);
                if routes(wanted).contains(path.route()) && later {
                    assert(routes(wanted).to_set().contains(path.route()));
                    assert(more.contains(path.route()));
                }
            } else {
                wanted_entries_hold(rest, wanted, more, path);
                let found = wanted_entries(rest, wanted, more.len())->Ok_0;
                let all = seq![entry] + found;
                assert(result->Ok_0 == all);
                assert(all[0].path@.route() == p);
                if has_path(found, path) {
                    let k = choose|k: int| 0 <= k < found.len() && (#[trigger] found[k]).path@.same_as(path);
                    assert(all[k + 1] == found[k]);
                }
                if has_path(all, path) && path.route() != p {
                    let k = choose|k: int| 0 <= k < all.len() && (#[trigger] all[k]).path@.same_as(path);
                    assert(found[k - 1] == all[k]);
                }
            }
        }
    }
}

/// Selecting down to a position and selecting from it on leave no item out, and have only
/// the item there in common.
pub proof fn selections_meet(items: Seq<ItemView>, position: int, k: int)
    requires
        0 <= k < items.len(),
    ensures
        selected_down_to(items, position)[k].selected || selected_from(items, position)[k].selected,
        selected_down_to(items, position)[k].selected && selected_from(items, position)[k].selected
            <==> k == position,
{
}

/// Selecting changes nothing of an item but whether it is selected, and deselecting all
/// undoes any selection.
pub proof fn selection_keeps_items(items: Seq<ItemView>, position: int)
    ensures
        deselected(selected_down_to(items, position)) == deselected(items),
        deselected(selected_from(items, position)) == deselected(items),
        deselected(deselected(items)) == deselected(items),
{
    assert(deselected(selected_down_to(items, position)) =~= deselected(items));
    assert(deselected(selected_from(items, position)) =~= deselected(items));
    assert(deselected(deselected(items)) =~= deselected(items));
}

/// After all items were deselected no item is selected.
pub proof fn nothing_selected(items: Seq<ItemView>)
    ensures
        selected_items(deselected(items)) == Seq::<ItemView>::empty(),
    decreases items.len(),
{
    let is_selected = |i: ItemView| i.selected;
    let all = deselected(items);
    if selected_items(all).len() > 0 {
        let first = selected_items(all)[0];
        assert(all.filter(is_selected).contains(first));
        filter_subset(all, is_selected, first);
        let k = choose|k: int| 0 <= k < all.len() && all[k] == first;
        assert(!all[k].selected);
    }
    assert(selected_items(all) =~= Seq::<ItemView>::empty());
}

/// What is registered of a selection is what stands in the listing and is selected.
pub proof fn selected_items_are_listed(items: Seq<ItemView>, item: ItemView)
    ensures
        selected_items(items).contains(item) <==> items.contains(item) && item.selected,
{
    let is_selected = |i: ItemView| i.selected;
    if selected_items(items).contains(item) {
        filter_subset(items, is_selected, item);
    }
    if items.contains(item) && item.selected {
        filter_keeps(items, is_selected, item);
    }
}

/// Filtering keeps the order of what is left.
proof fn filter_keeps_order<A>(s: Seq<A>, keep: spec_fn(A) -> bool, rel: spec_fn(A, A) -> bool)
    requires
        forall|p: int, q: int| 0 <= p < q < s.len() ==> rel(#[trigger] s[p], #[trigger] s[q]),
    ensures
        forall|p: int, q: int|
            0 <= p < q < s.filter(keep).len() ==> rel(
                #[trigger] s.filter(keep)[p],
                #[trigger] s.filter(keep)[q],
            ),
    decreases s.len(),
{
    if s.len() == 0 {
        reveal(Seq::filter);
    } else {
        let rest = s.drop_last();
        assert(s == rest.push(s.last()));
        assert forall|p: int, q: int| 0 <= p < q < rest.len() implies rel(
            #[trigger] rest[p],
            #[trigger] rest[q],
        ) by {
            assert(rest[p] == s[p] && rest[q] == s[q]);
        }
        filter_keeps_order(rest, keep, rel);
        filter_push(rest, s.last(), keep);
        let kept = rest.filter(keep);
        let all = s.filter(keep);
        assert forall|p: int, q: int| 0 <= p < q < all.len() implies rel(
            #[trigger] all[p],
            #[trigger] all[q],
        ) by {
            assert(all[p] == kept[p]);
            if q < kept.len() {
                assert(all[q] == kept[q]);
            } else {
                assert(kept.contains(kept[p]));
                filter_subset(rest, keep, kept[p]);
                let k = choose|k: int| 0 <= k < rest.len() && rest[k] == kept[p];
                assert(s[k] == kept[p]);
                assert(all[q] == s[s.len() - 1]);
            }
        }
    }
}

/// One item may be listed before another: directories stand before other items, and those
/// of a kind stand in order.
pub open spec fn may_precede(key: SortKey, left: ItemView, right: ItemView) -> bool {
    &&& right.file_type == FileType::Directory ==> left.file_type == FileType::Directory
    &&& (left.file_type == FileType::Directory) == (right.file_type == FileType::Directory)
        ==> item_order(key, left, right) <= 0
}

/// In a listing, directories stand before other items, and those of a kind stand in order.
pub proof fn listing_is_ordered(
    list: Seq<ItemView>,
    items: Seq<ItemView>,
    key: SortKey,
    show_hidden: bool,
)
    requires
        is_listing(list, items, key, show_hidden),
    ensures
        forall|p: int, q: int|
            0 <= p < q < list.len() ==> may_precede(key, #[trigger] list[p], #[trigger] list[q]),
{
    let (dirs, others) = choose|dirs: Seq<ItemView>, others: Seq<ItemView>|
        lists(list, dirs, others, items, key, show_hidden);
    let all = dirs + others;
    let is_dir = |i: ItemView| i.file_type == FileType::Directory;
    let is_other = |i: ItemView| i.file_type != FileType::Directory;
    sorted_items(dirs, directories(items), key);
    sorted_items(others, other_items(items), key);
    sorted_in_order(dirs, directories(items), key);
    sorted_in_order(others, other_items(items), key);
    assert forall|k: int| 0 <= k < dirs.len() implies is_dir(#[trigger] dirs[k]) by {
        filter_subset(items, is_dir, dirs[k]);
    }
    assert forall|k: int| 0 <= k < others.len() implies is_other(#[trigger] others[k]) by {
        filter_subset(items, is_other, others[k]);
    }
    let rel = |a: ItemView, b: ItemView| may_precede(key, a, b);
    assert forall|p: int, q: int| 0 <= p < q < all.len() implies rel(
        #[trigger] all[p],
        #[trigger] all[q],
    ) by {
        if q < dirs.len() {
            assert(is_dir(dirs[p]) && is_dir(dirs[q]));
        } else if p < dirs.len() {
            assert(is_dir(dirs[p]) && is_other(others[q - dirs.len()]));
        } else {
            assert(is_other(others[p - dirs.len()]) && is_other(others[q - dirs.len()]));
        }
    }
    if !show_hidden {
        filter_keeps_order(all, |i: ItemView| !i.is_hidden, rel);
    }
    assert forall|p: int, q: int| 0 <= p < q < list.len() implies may_precede(
        key,
        #[trigger] list[p],
        #[trigger] list[q],
    ) by {
        assert(rel(list[p], list[q]));
    }
}

/// A sorted list is in order.
proof fn sorted_in_order(sorted: Seq<ItemView>, items: Seq<ItemView>, key: SortKey)
    requires
        is_sorted(sorted, items, key),
    ensures
        forall|p: int, q: int|
            0 <= p < q < sorted.len() ==> item_order(
                key,
                #[trigger] sorted[p],
                #[trigger] sorted[q],
            ) <= 0,
{
    let ranks = choose|ranks: Seq<usize>| sorts(ranks, sorted, items, key);
    assert forall|p: int, q: int| 0 <= p < q < sorted.len() implies item_order(
        key,
        #[trigger] sorted[p],
        #[trigger] sorted[q],
    ) <= 0 by {
        assert(precedes(items, key, ranks[p] as int, ranks[q] as int));
    }
}

/// A sorted list holds all that was sorted.
proof fn sorted_holds_all(sorted: Seq<ItemView>, items: Seq<ItemView>, key: SortKey, x: ItemView)
    requires
        is_sorted(sorted, items, key),
        items.contains(x),
    ensures
        sorted.contains(x),
{
    let ranks = choose|ranks: Seq<usize>| sorts(ranks, sorted, items, key);
    let j = choose|j: int| 0 <= j < items.len() && items[j] == x;
    permutation_hits(ranks, items.len(), j);
    let k = choose|k: int| 0 <= k < ranks.len() && ranks[k] == j;
    assert(sorted[k] == x);
}

/// A permutation takes every value.
pub proof fn permutation_hits(ranks: Seq<usize>, count: nat, j: int)
    requires
        is_permutation(ranks, count),
        0 <= j < count,
    ensures
        exists|k: int| 0 <= k < ranks.len() && ranks[k] == j,
{
    let values = ranks.map_values(|r: usize| r as int);
    assert(values.no_duplicates());
    values.unique_seq_to_set();
    let all = vstd::set_lib::set_int_range(0, count as int);
    vstd::set_lib::lemma_int_range(0, count as int);
    assert(values.to_set().subset_of(all)) by {
        assert forall|v: int| values.to_set().contains(v) implies all.contains(v) by {
            let k = choose|k: int| 0 <= k < values.len() && values[k] == v;
            assert(ranks[k] < count);
        }
    }
    vstd::set_lib::lemma_subset_equality(values.to_set(), all);
    assert(all.contains(j));
    assert(values.contains(j));
    let k = choose|k: int| 0 <= k < values.len() && values[k] == j;
    assert(ranks[k] == j);
}

/// A listing holds exactly the items that are shown: all of them, or those that are not
/// hidden.
pub proof fn listing_is_complete(
    list: Seq<ItemView>,
    items: Seq<ItemView>,
    key: SortKey,
    show_hidden: bool,
    item: ItemView,
)
    requires
        is_listing(list, items, key, show_hidden),
    ensures
        list.contains(item) <==> items.contains(item) && (show_hidden || !item.is_hidden),
{
    let (dirs, others) = choose|dirs: Seq<ItemView>, others: Seq<ItemView>|
        lists(list, dirs, others, items, key, show_hidden);
    let all = dirs + others;
    let is_dir = |i: ItemView| i.file_type == FileType::Directory;
    let is_other = |i: ItemView| i.file_type != FileType::Directory;
    let is_shown = |i: ItemView| !i.is_hidden;
    if list.contains(item) {
        if !show_hidden {
            filter_subset(all, is_shown, item);
        }
        let k = choose|k: int| 0 <= k < list.len() && list[k] == item;
        listed_items(list, items, key, show_hidden);
        assert(items.contains(list[k]));
    }
    if items.contains(item) && (show_hidden || !item.is_hidden) {
        if is_dir(item) {
            filter_keeps(items, is_dir, item);
            sorted_holds_all(dirs, directories(items), key, item);
            let k = choose|k: int| 0 <= k < dirs.len() && dirs[k] == item;
            assert(all[k] == item);
        } else {
            filter_keeps(items, is_other, item);
            sorted_holds_all(others, other_items(items), key, item);
            let k = choose|k: int| 0 <= k < others.len() && others[k] == item;
            assert(all[dirs.len() + k] == item);
        }
        if !show_hidden {
            filter_keeps(all, is_shown, item);
        }
    }
}

/// Some of the items have names that are ordered if all of them have.
proof fn filtered_names_are_ordered(items: Seq<ItemView>, keep: spec_fn(ItemView) -> bool)
    requires
        names_are_ordered(items),
    ensures
        names_are_ordered(items.filter(keep)),
{
    let kept = items.filter(keep);
    assert forall|i: int, j: int|
        #![trigger kept[i], kept[j]]
        0 <= i < kept.len() && 0 <= j < kept.len() implies natural_order(
        kept[j].file_name,
        kept[i].file_name,
    ) == -natural_order(kept[i].file_name, kept[j].file_name) by {
        filter_subset(items, keep, kept[i]);
        filter_subset(items, keep, kept[j]);
        let p = choose|p: int| 0 <= p < items.len() && items[p] == kept[i];
        let q = choose|q: int| 0 <= q < items.len() && items[q] == kept[j];
        assert(items[p] == kept[i] && items[q] == kept[j]);
    }
}

/// Of two items at different positions only one precedes the other.
proof fn precedes_one_way(items: Seq<ItemView>, key: SortKey, i: int, j: int)
    requires
        0 <= i < items.len(),
        0 <= j < items.len(),
        key == SortKey::Name ==> names_are_ordered(items),
        precedes(items, key, i, j),
    ensures
        !precedes(items, key, j, i),
{
    match key {
        SortKey::Name => {
            assert(items[i] == items[i] && items[j] == items[j]);
        },
        SortKey::Time => match (items[i].modified, items[j].modified) {
            (Some(l), Some(r)) => text_order_antisymmetric(l, r),
            _ => {},
        },
    }
}

/// There is one way to rank items.
proof fn ranks_are_unique(
    items: Seq<ItemView>,
    key: SortKey,
    left: Seq<usize>,
    right: Seq<usize>,
    k: int,
)
    requires
        key == SortKey::Name ==> names_are_ordered(items),
        is_permutation(left, items.len()),
        is_permutation(right, items.len()),
        is_ranked(items, key, left),
        is_ranked(items, key, right),
        0 <= k <= items.len(),
    ensures
        left.take(k) == right.take(k),
    decreases k,
{
    if k > 0 {
        let last = k - 1;
        ranks_are_unique(items, key, left, right, last);
        assert forall|j: int| 0 <= j < last implies left[j] == right[j] by {
            assert(left.take(last)[j] == right.take(last)[j]);
        }
        permutation_hits(right, items.len(), left[last] as int);
        permutation_hits(left, items.len(), right[last] as int);
        let m = choose|m: int| 0 <= m < right.len() && right[m] == left[last];
        let p = choose|p: int| 0 <= p < left.len() && left[p] == right[last];
        if left[last] != right[last] {
            assert(m > last) by {
                if m < last {
                    assert(left[m] == left[last]);
                }
            }
            assert(p > last) by {
                if p < last {
                    assert(right[p] == right[last]);
                }
            }
            assert(precedes(items, key, right[last] as int, right[m] as int));
            assert(precedes(items, key, left[last] as int, left[p] as int));
            precedes_one_way(items, key, left[last] as int, right[last] as int);
        }
        assert(left.take(k) == left.take(last).push(left[last]));
        assert(right.take(k) == right.take(last).push(right[last]));
    }
}

/// There is one way to sort items.
proof fn sorting_is_unique(
    items: Seq<ItemView>,
    key: SortKey,
    left: Seq<ItemView>,
    right: Seq<ItemView>,
)
    requires
        key == SortKey::Name ==> names_are_ordered(items),
        is_sorted(left, items, key),
        is_sorted(right, items, key),
    ensures
        left == right,
{
    let l = choose|ranks: Seq<usize>| sorts(ranks, left, items, key);
    let r = choose|ranks: Seq<usize>| sorts(ranks, right, items, key);
    ranks_are_unique(items, key, l, r, items.len() as int);
    assert(l.take(l.len() as int) == l && r.take(r.len() as int) == r);
}

/// Items have one listing: listing them again gives the same list. The listing without
/// hidden items is the whole listing without them, in the same order.
pub proof fn listing_is_unique(
    items: Seq<ItemView>,
    key: SortKey,
    show_hidden: bool,
    list: Seq<ItemView>,
    again: Seq<ItemView>,
    whole: Seq<ItemView>,
)
    requires
        key == SortKey::Name ==> names_are_ordered(items),
        is_listing(list, items, key, show_hidden),
        is_listing(again, items, key, show_hidden),
        is_listing(whole, items, key, true),
    ensures
        again == list,
        list == visible(whole, show_hidden),
{
    let (dirs, others) = choose|dirs: Seq<ItemView>, others: Seq<ItemView>|
        lists(list, dirs, others, items, key, show_hidden);
    let (dirs_again, others_again) = choose|dirs: Seq<ItemView>, others: Seq<ItemView>|
        lists(again, dirs, others, items, key, show_hidden);
    let (all_dirs, all_others) = choose|dirs: Seq<ItemView>, others: Seq<ItemView>|
        lists(whole, dirs, others, items, key, true);
    if key == SortKey::Name {
        filtered_names_are_ordered(items, |i: ItemView| i.file_type == FileType::Directory);
        filtered_names_are_ordered(items, |i: ItemView| i.file_type != FileType::Directory);
    }
    sorting_is_unique(directories(items), key, dirs, dirs_again);
    sorting_is_unique(directories(items), key, dirs, all_dirs);
    sorting_is_unique(other_items(items), key, others, others_again);
    sorting_is_unique(other_items(items), key, others, all_others);
}

/// A filter leaves what it is to keep.
proof fn filter_keeps<A>(s: Seq<A>, keep: spec_fn(A) -> bool, x: A)
    requires
        s.contains(x),
        keep(x),
    ensures
        s.filter(keep).contains(x),
{
    let k = choose|k: int| 0 <= k < s.len() && s[k] == x;
    s.lemma_filter_contains(keep, k);
}

/// A name in a row takes no more characters than there is room for.
pub proof fn name_fits_row(name: Seq<char>, max: nat)
    requires
        max >= 2,
    ensures
        fitted_name(name, max).len() <= max,
        name.len() <= max ==> fitted_name(name, max) == name,
{
    reveal_strlit("..");
}

/// The footer takes no more characters than the terminal has columns.
pub proof fn footer_fits_terminal(layout: Layout, text: Seq<char>)
    ensures
        footer_steps(layout, text).last() == DrawView::Negative(
            prefix(text, layout.terminal_column as nat),
        ),
        prefix(text, layout.terminal_column as nat).len() <= layout.terminal_column,
{
}

/// The listing is drawn between the row in which it begins and the last row of the
/// terminal.
pub proof fn listing_stays_on_terminal(
    list: Seq<ItemView>,
    layout: Layout,
    widths: Widths,
    skip: u16,
)
    requires
        layout.terminal_row >= BEGINNING_ROW,
    ensures
        forall|k: int|
            0 <= k < list_steps(list, layout, widths, skip).len() ==> (#[trigger] list_steps(
                list,
                layout,
                widths,
                skip,
            )[k] matches DrawView::MoveTo(column, row) ==> column == 3 && BEGINNING_ROW <= row
                <= layout.terminal_row),
{
    if list.len() > skip {
        rows_stay_on_terminal(list, layout, widths, skip, rows_shown(list.len(), layout, skip));
    }
}

/// The rows of the listing are drawn between the row in which it begins and the last row
/// of the terminal.
proof fn rows_stay_on_terminal(
    list: Seq<ItemView>,
    layout: Layout,
    widths: Widths,
    skip: u16,
    count: nat,
)
    requires
        count <= layout.terminal_row - BEGINNING_ROW,
    ensures
        forall|k: int|
            0 <= k < rows_steps(list, layout, widths, skip, count).len() ==> (
            #[trigger] rows_steps(list, layout, widths, skip, count)[k] matches DrawView::MoveTo(
                column,
                row,
            ) ==> column == 3 && BEGINNING_ROW <= row <= layout.terminal_row),
    decreases count,
{
    if count > 0 {
        rows_stay_on_terminal(list, layout, widths, skip, (count - 1) as nat);
        let row = row_steps(layout, widths, list[skip + count - 1]);
        assert forall|k: int| 0 <= k < row.len() implies !(#[trigger] row[k] is MoveTo) by {}
        let before = rows_steps(list, layout, widths, skip, (count - 1) as nat);
        let steps = rows_steps(list, layout, widths, skip, count);
        assert forall|k: int| 0 <= k < steps.len() implies (
        #[trigger] steps[k] matches DrawView::MoveTo(column, row) ==> column == 3 && BEGINNING_ROW
            <= row <= layout.terminal_row) by {
            if k < before.len() {
                assert(steps[k] == before[k]);
            } else if k > before.len() {
                assert(steps[k] == row[k - before.len() - 1]);
            }
        }
    }
}

/// Where names are found that are not taken, no item is put over one that is listed.
pub proof fn put_overwrites_nothing(
    list: Seq<ItemView>,
    dir: PathView,
    found: Seq<char>,
    k: int,
)
    requires
        0 <= k < list.len(),
        is_plain_name(list[k].file_name),
        is_plain_name(found),
        !names_of(list).contains(found),
    ensures
        !dir.join_name(found).same_as(dir.join_name(list[k].file_name)),
{
    if dir.join_name(found).same_as(dir.join_name(list[k].file_name)) {
        different_names_differ(dir, found, list[k].file_name);
    }
}

/// A path in a directory under a name that is taken.
pub open spec fn is_taken_path(dir: PathView, names: Set<Seq<char>>, path: PathView) -> bool {
    exists|name: Seq<char>|
        #![trigger names.contains(name)]
        names.contains(name) && is_plain_name(name) && path == dir.join_name(name)
}

/// A walk that waits for its first entry.
pub open spec fn is_unstarted(walk: TreeWalkView) -> bool {
    walk matches TreeWalkView::Next { tree, started: false }
}

/// What is put goes to paths of its own: what was put did, under names that are taken, and
/// what is being put does.
pub open spec fn has_own_places(dir: PathView, run: PutView) -> bool {
    &&& routes(run.put).no_duplicates()
    &&& forall|k: int|
        0 <= k < run.put.len() ==> is_taken_path(dir, run.names, #[trigger] run.put[k])
    &&& match run.step {
        PutStepView::File { at, to, name, link } => {
            &&& is_plain_name(name)
            &&& !run.names.contains(name)
            &&& to == dir.join_name(name)
        },
        PutStepView::Dir {
            at,
            step: DirPutView::Walk(TreeWalkView::CreateRoot { path, tree }),
        } => path == tree.target && is_taken_path(dir, run.names, path),
        PutStepView::Dir { at, step: DirPutView::Walk(walk) } => {
            ||| is_unstarted(walk)
            ||| walk is Failed
            ||| is_taken_path(dir, run.names, walk_place(walk)->0) && !routes(run.put).contains(
                walk_place(walk)->0.route(),
            )
        },
        PutStepView::Dir { at, step: DirPutView::Done(Ok(place)) } => is_taken_path(
            dir,
            run.names,
            place,
        ) && !routes(run.put).contains(place.route()),
        _ => true,
    }
}

/// A path under a new name is none of those under names that are taken.
proof fn new_place(dir: PathView, names: Set<Seq<char>>, put: Seq<PathView>, found: Seq<char>)
    requires
        is_plain_name(found),
        !names.contains(found),
        forall|k: int| 0 <= k < put.len() ==> is_taken_path(dir, names, #[trigger] put[k]),
    ensures
        !routes(put).contains(dir.join_name(found).route()),
        is_taken_path(dir, names.insert(found), dir.join_name(found)),
        forall|k: int|
            0 <= k < put.len() ==> is_taken_path(dir, names.insert(found), #[trigger] put[k]),
{
    let place = dir.join_name(found);
    if routes(put).contains(place.route()) {
        let k = choose|k: int| 0 <= k < routes(put).len() && routes(put)[k] == place.route();
        assert(is_taken_path(dir, names, put[k]));
        let name = choose|name: Seq<char>|
            #![trigger names.contains(name)]
            names.contains(name) && is_plain_name(name) && put[k] == dir.join_name(name);
        different_names_differ(dir, found, name);
    }
    assert(names.insert(found).contains(found));
    assert forall|k: int| 0 <= k < put.len() implies is_taken_path(
        dir,
        names.insert(found),
        #[trigger] put[k],
    ) by {
        let name = choose|name: Seq<char>|
            #![trigger names.contains(name)]
            names.contains(name) && is_plain_name(name) && put[k] == dir.join_name(name);
        assert(names.insert(found).contains(name));
    }
}

/// Where names are found that are not taken, no two items are put at the same path, from
/// the beginning to the end. A directory from the trash goes to its name even where that
/// is taken; of it this holds because no directory can be created where something was put,
/// and because a name that is not taken is found as it is. A walk through a directory comes
/// to the directory itself first.
pub proof fn puts_do_not_collide(
    trash_dir: PathView,
    dir: PathView,
    targets: Seq<ItemView>,
    names: Set<Seq<char>>,
    run: PutView,
    event: WalkEvent,
    item: ItemView,
    root: PathView,
    found: Seq<char>,
    link: bool,
)
    requires
        has_own_places(dir, run),
        is_plain_name(found),
        !run.names.contains(found),
        is_trashed(item, trash_dir) ==> {
            &&& is_plain_name(put_name(item, trash_dir))
            &&& !run.names.contains(put_name(item, trash_dir)) ==> found == put_name(
                item,
                trash_dir,
            )
        },
        event matches WalkEvent::Did(outcome) && outcome is Ok ==> (
        run.step matches PutStepView::Dir {
            at,
            step: DirPutView::Walk(TreeWalkView::CreateRoot { path, tree }),
        } ==> !routes(run.put).contains(path.route())),
        event is End ==> !(run.step matches PutStepView::Dir { at, step: DirPutView::Walk(walk) }
            && is_unstarted(walk)),
    ensures
        has_own_places(dir, put_at(targets.len(), names, Seq::empty(), 0)),
        has_own_places(dir, file_started(run, dir, found, link)),
        has_own_places(
            dir,
            dir_started(run, dir_target(dir, item, trash_dir, found), root, found),
        ),
        has_own_places(dir, next_put(targets, run, event)),
{
    new_place(dir, run.names, run.put, found);
    if is_trashed(item, trash_dir) {
        assert(run.names.insert(found).contains(put_name(item, trash_dir)));
    }
    match run.step {
        PutStepView::File { at, to, name, link } => {
            new_place(dir, run.names, run.put, name);
        },
        _ => {},
    }
    assert forall|path: PathView| #[trigger] routes(run.put.push(path)) == routes(run.put).push(
        path.route(),
    ) by {
        assert(routes(run.put.push(path)) =~= routes(run.put).push(path.route()));
    }
}

/// The copy of a directory has the shape of the directory: the directory itself goes to
/// the target, and what is under it goes under the target by the same names.
pub proof fn copy_keeps_shape(
    root: PathView,
    target: PathView,
    entry: PathView,
    names: Seq<Seq<u8>>,
)
    requires
        root.route().count() > 0,
        entry.route() == (RouteView {
            rooted: root.route().rooted,
            parts: root.route().parts + names,
        }),
        names.len() > 0 ==> names.first() != seq![DOT],
    ensures
        copy_of(root, target, root).same_as(target),
        copy_of(root, target, entry).route() == (RouteView {
            rooted: target.route().rooted,
            parts: target.route().parts + names,
        }),
{
    behind_drops_first(root, root);
    behind_drops_first(entry, root);
    join_leads_on(target, root.behind(root));
    join_leads_on(target, entry.behind(root));
    let from = root.route();
    let to = target.route();
    assert(from.skip(from.count()).parts == Seq::<Seq<u8>>::empty());
    assert(to.parts + Seq::<Seq<u8>>::empty() == to.parts);
    assert(entry.route().skip(from.count()).parts == names);
}

/// A deletion that succeeds records one place in the trash for each item, and one that
/// fails has come to less.
pub proof fn deletion_records_all(
    trash_dir: PathView,
    targets: Seq<ItemView>,
    new_op: bool,
    removal: RemovalView,
    event: WalkEvent,
    stamp: i64,
)
    requires
        removal.well_formed(targets.len()),
    ensures
        ({
            let next = next_removal(trash_dir, targets, new_op, removal, event, stamp);
            &&& removal_at(targets.len(), Seq::empty()).well_formed(targets.len())
            &&& next.well_formed(targets.len())
            &&& next.step == RemovalStepView::Done(Ok(())) ==> next.trash.len() == targets.len()
            &&& removal.step is Done ==> next == removal
        }),
{
}

/// The name that an item keeps in the trash behind its time.
pub open spec fn kept_name(item: ItemView, root: Seq<char>) -> Seq<char> {
    if item.file_type == FileType::Directory {
        root
    } else {
        item.file_name
    }
}

/// The place of an item in the trash: a file or a link goes there under its own name, and a
/// directory under the name `root`, which is that of the first entry of the walk through
/// it. An operation that is done again moves nothing there.
pub open spec fn is_trash_place(
    trash_dir: PathView,
    new_op: bool,
    item: ItemView,
    root: Seq<char>,
    path: PathView,
) -> bool {
    if new_op {
        exists|stamp: i64|
            path == trash_dir.join_name(#[trigger] trash_name(stamp, kept_name(item, root)))
    } else {
        path == empty_path()
    }
}

/// The place in the trash to which a step moves a file.
pub open spec fn file_place(file: FileStepView) -> Option<PathView> {
    match file {
        FileStepView::MoveLink { to, name } => Some(to),
        FileStepView::Copy { to, name } => Some(to),
        FileStepView::Remove { to } => Some(to),
        FileStepView::Done(Ok(to)) => Some(to),
        _ => None,
    }
}

/// The place to which a walk copies a directory.
pub open spec fn walk_place(walk: TreeWalkView) -> Option<PathView> {
    match walk {
        TreeWalkView::Next { tree, started } => Some(tree.target),
        TreeWalkView::CreateRoot { path, tree } => Some(tree.target),
        TreeWalkView::Entry { step, tree } => Some(tree.target),
        TreeWalkView::Ended { tree } => Some(tree.target),
        TreeWalkView::Failed(e) => None,
    }
}

/// The place in the trash to which a step moves a directory.
pub open spec fn dir_place(dir: DirStepView) -> Option<PathView> {
    match dir {
        DirStepView::Walk { walk, name } => walk_place(walk),
        DirStepView::RemoveAll { target } => Some(target),
        DirStepView::Done(Ok(target)) => Some(target),
        DirStepView::Done(Err(_)) => None,
    }
}

/// The step is about a directory whose walk waits for its first entry.
pub open spec fn awaits_root(removal: RemovalView) -> bool {
    removal.step matches RemovalStepView::Dir { at, dir: DirStepView::Walk { walk, name } }
        && is_unstarted(walk)
}

/// All that a removal moves goes to its place in the trash. `roots` are the names of the
/// first entries of the walks through the directories.
pub open spec fn stays_in_trash(
    trash_dir: PathView,
    targets: Seq<ItemView>,
    roots: Seq<Seq<char>>,
    new_op: bool,
    removal: RemovalView,
) -> bool {
    &&& forall|k: int|
        0 <= k < removal.trash.len() ==> is_trash_place(
            trash_dir,
            new_op,
            targets[k],
            roots[k],
            #[trigger] removal.trash[k],
        )
    &&& match removal.step {
        RemovalStepView::File { at, file } => file_place(file) matches Some(place)
            ==> is_trash_place(trash_dir, new_op, targets[at as int], roots[at as int], place),
        RemovalStepView::Dir { at, dir } => {
            &&& targets[at as int].file_type == FileType::Directory
            &&& dir is Walk ==> new_op
            &&& dir_place(dir) matches Some(place) ==> awaits_root(removal) || is_trash_place(
                trash_dir,
                new_op,
                targets[at as int],
                roots[at as int],
                place,
            )
        },
        _ => true,
    }
}

/// A new deletion moves each item to its place in the trash, none is deleted for good, and
/// one that is done again moves nothing there. This holds from the beginning to the end,
/// where a walk through a directory comes to the directory itself first.
pub proof fn deletion_stays_in_trash(
    trash_dir: PathView,
    targets: Seq<ItemView>,
    roots: Seq<Seq<char>>,
    new_op: bool,
    removal: RemovalView,
    event: WalkEvent,
    stamp: i64,
)
    requires
        removal.well_formed(targets.len()),
        roots.len() == targets.len(),
        stays_in_trash(trash_dir, targets, roots, new_op, removal),
        awaits_root(removal) ==> event !is End && (event matches WalkEvent::Entry(entry)
            ==> decode_utf8(entry.name@) == roots[removal.step->Dir_at as int]),
    ensures
        stays_in_trash(trash_dir, targets, roots, new_op, removal_at(targets.len(), Seq::empty())),
        stays_in_trash(
            trash_dir,
            targets,
            roots,
            new_op,
            next_removal(trash_dir, targets, new_op, removal, event, stamp),
        ),
{
    let next = next_removal(trash_dir, targets, new_op, removal, event, stamp);
    if !(removal.step is Done) {
        let at = removal.trash.len() as int;
        let name = kept_name(targets[at], roots[at]);
        assert(new_op ==> is_trash_place(
            trash_dir,
            new_op,
            targets[at],
            roots[at],
            trash_dir.join_name(trash_name(stamp, name)),
        ));
    }
    assert forall|k: int| 0 <= k < next.trash.len() implies is_trash_place(
        trash_dir,
        new_op,
        targets[k],
        roots[k],
        #[trigger] next.trash[k],
    ) by {
        if k < removal.trash.len() {
            assert(next.trash[k] == removal.trash[k]);
        }
    }
}

/// `registered` holds an item in the trash.
pub open spec fn registers_at(
    registered: Seq<ItemView>,
    k: int,
    item: ItemView,
    place: PathView,
) -> bool {
    registered[k] == moved(item, place, registered[k].file_name)
}

/// All that a new deletion has moved to the trash is registered, item by item.
pub open spec fn registers_all(
    targets: Seq<ItemView>,
    removal: RemovalView,
    registered: Seq<ItemView>,
) -> bool {
    let count = removal.trash.len();
    &&& count <= registered.len()
    &&& forall|k: int|
        0 <= k < count ==> registers_at(registered, k, targets[k], #[trigger] removal.trash[k])
    &&& match removal.step {
        RemovalStepView::File { at, file: FileStepView::Remove { to } } => registered.len() == count
            + 1 && registers_at(registered, count as int, targets[count as int], to),
        RemovalStepView::File { at, file } => registered.len() == count && file !is Done,
        RemovalStepView::Dir { at, dir: DirStepView::RemoveAll { target } } => registered.len()
            == count + 1 && registers_at(registered, count as int, targets[count as int], target),
        RemovalStepView::Dir { at, dir: DirStepView::Walk { walk, name } } => registered.len()
            == count && walk !is Ended,
        RemovalStepView::Dir { at, dir } => false,
        RemovalStepView::Done(Err(_)) => registered.len() <= count + 1,
        _ => registered.len() == count,
    }
}

/// A new deletion registers each item that it moves to the trash, in order and under its
/// place there. One that succeeds has registered all of them.
pub proof fn deletion_registers_all(
    trash_dir: PathView,
    targets: Seq<ItemView>,
    removal: RemovalView,
    event: WalkEvent,
    stamp: i64,
    registered: Seq<ItemView>,
)
    requires
        removal.well_formed(targets.len()),
        registers_all(targets, removal, registered),
    ensures
        registers_all(targets, removal_at(targets.len(), Seq::empty()), Seq::empty()),
        ({
            let next = next_removal(trash_dir, targets, true, removal, event, stamp);
            let after = registered_next(registered, targets, removal, event);
            &&& registers_all(targets, next, after)
            &&& next.step == RemovalStepView::Done(Ok(())) ==> after.len() == targets.len()
        }),
{
    let next = next_removal(trash_dir, targets, true, removal, event, stamp);
    let after = registered_next(registered, targets, removal, event);
    assert forall|k: int| 0 <= k < next.trash.len() implies registers_at(
        after,
        k,
        targets[k],
        #[trigger] next.trash[k],
    ) by {
        if k < removal.trash.len() {
            assert(next.trash[k] == removal.trash[k]);
            assert(after[k] == registered[k]);
        }
    }
}

/// A path in a directory, or none where a walk had no entry.
pub open spec fn is_put_path(dir: PathView, path: PathView) -> bool {
    path == empty_path() || exists|name: Seq<char>| path == #[trigger] dir.join_name(name)
}

/// All that is put goes into a directory.
pub open spec fn stays_in_destination(dir: PathView, run: PutView) -> bool {
    &&& forall|k: int| 0 <= k < run.put.len() ==> is_put_path(dir, #[trigger] run.put[k])
    &&& match run.step {
        PutStepView::File { at, to, name, link } => is_put_path(dir, to),
        PutStepView::Dir { at, step: DirPutView::Walk(walk) } => walk_place(walk) matches Some(
            place,
        ) ==> is_put_path(dir, place),
        PutStepView::Dir { at, step: DirPutView::Done(Ok(place)) } => is_put_path(dir, place),
        _ => true,
    }
}

/// Items are put nowhere but into the directory for which they are meant, from the
/// beginning to the end, whatever names are found for them.
pub proof fn put_stays_in_destination(
    trash_dir: PathView,
    dir: PathView,
    targets: Seq<ItemView>,
    names: Set<Seq<char>>,
    run: PutView,
    event: WalkEvent,
    item: ItemView,
    root: PathView,
    found: Seq<char>,
    link: bool,
)
    requires
        stays_in_destination(dir, run),
    ensures
        stays_in_destination(dir, put_at(targets.len(), names, Seq::empty(), 0)),
        stays_in_destination(dir, file_started(run, dir, found, link)),
        stays_in_destination(
            dir,
            dir_started(run, dir_target(dir, item, trash_dir, found), root, found),
        ),
        stays_in_destination(dir, next_put(targets, run, event)),
{
}

/// A name that is taken stays taken while items are put, and the name of a file that was
/// put is taken.
pub proof fn names_stay_taken(targets: Seq<ItemView>, run: PutView, event: WalkEvent)
    ensures
        run.names.subset_of(next_put(targets, run, event).names),
        run.step matches PutStepView::File { at, to, name, link } && event == WalkEvent::Did(Ok(()))
            ==> next_put(targets, run, event).names.contains(run.step->File_name)
            && next_put(targets, run, event).put == run.put.push(run.step->File_to),
{
}

/// An item that cannot be put is passed over: the others are put all the same.
pub proof fn failed_put_is_passed_over(targets: Seq<ItemView>, run: PutView, event: WalkEvent)
    requires
        run.well_formed(targets.len()),
        run.step is File,
        event matches WalkEvent::Did(outcome) && outcome is Err,
    ensures
        next_put(targets, run, event) == put_at(
            targets.len(),
            run.names,
            run.put,
            run.step->File_at + 1,
        ),
{
}

/// A deletion that is done again copies nothing to the trash and registers nothing.
pub proof fn redone_deletion_registers_nothing(
    trash_dir: PathView,
    item: ItemView,
    exists: bool,
    stamp: i64,
    ok: bool,
    registered: Seq<ItemView>,
)
    ensures
        ({
            let step = first_file_step(trash_dir, item, false, exists, stamp);
            &&& step == (FileStepView::Remove { to: empty_path() })
            &&& next_file_step(step, item, ok) is Done
            &&& registered_after(registered, step, item, ok) == registered
            &&& first_dir_step(false) == (DirStepView::RemoveAll { target: empty_path() })
        }),
{
}

} // verus!
