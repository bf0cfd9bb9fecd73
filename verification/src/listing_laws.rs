//! What holds of items and of their listings.

use crate::clock::{is_stamp, stamp_second};
use crate::error::FxError;
use crate::history::{made_entries, wanted_entries};
use crate::item::{
    is_item_of, is_timely, item_of, shown_extension, shown_name, Entry, EntryMeta, FileType,
    ItemView,
};
use crate::order::{
    directories, filter_push, filter_subset, is_listing, is_permutation, is_sorted, item_order,
    lists, natural_order, other_items, precedes, sorts,
};
use crate::path::{optional_path, routes, PathView};
use crate::session::SortKey;
use crate::state::{
    are_items_of, are_timely, deselected, is_first_error, is_read, moved, selected_down_to,
    selected_from, selected_items,
};
use crate::text::ascii_lower;
use crate::text_laws::{different_texts_differ, first_difference_orders};
use vstd::prelude::*;
use vstd::seq_lib::{group_to_multiset_ensures, lemma_multiset_commutative, to_multiset_insert};
use vstd::string::*;
use vstd::utf8::{decode_utf8, decode_utf8_encode_utf8, encode_utf8, valid_utf8};

verus! {

/// By time, two items stand together only if their times read the same. Otherwise the one
/// whose time is greater at the first character that differs, or longer, comes first, and
/// one without a time comes last.
pub proof fn latest_comes_first(left: ItemView, right: ItemView, l: Seq<char>, r: Seq<char>, i: int)
    requires
        left.modified == Some(l),
        right.modified == Some(r),
        0 <= i <= l.len(),
        i <= r.len(),
        l.take(i) == r.take(i),
    ensures
        item_order(SortKey::Time, left, right) == 0 <==> l == r,
        i < l.len() && i < r.len() && l[i] > r[i] ==> item_order(SortKey::Time, left, right) < 0,
        i < l.len() && i < r.len() && l[i] < r[i] ==> item_order(SortKey::Time, left, right) > 0,
        i < l.len() && i == r.len() ==> item_order(SortKey::Time, left, right) < 0,
        i == l.len() && i < r.len() ==> item_order(SortKey::Time, left, right) > 0,
{
    first_difference_orders(r, l, i);
    different_texts_differ(r, l);
}

/// By time, an item without a time comes behind one with a time, and two without stand
/// together.
pub proof fn unknown_time_comes_last(left: ItemView, right: ItemView)
    ensures
        left.modified is Some && right.modified is None ==> item_order(SortKey::Time, left, right)
            < 0,
        left.modified is None && right.modified is Some ==> item_order(SortKey::Time, left, right)
            > 0,
        left.modified is None && right.modified is None ==> item_order(SortKey::Time, left, right)
            == 0,
{
}

/// By name, the order is the natural one of the names.
pub proof fn names_order_by_nature(left: ItemView, right: ItemView)
    ensures
        item_order(SortKey::Name, left, right) == natural_order(left.file_name, right.file_name),
{
}

/// Of two times of one day in one time zone, the later one comes first.
pub proof fn later_in_the_day_comes_first(
    left: ItemView,
    right: ItemView,
    l: Seq<char>,
    r: Seq<char>,
    year: int,
    at: int,
)
    requires
        left.modified == Some(l),
        right.modified == Some(r),
        is_stamp(l, year, at),
        is_stamp(r, year, at),
        l.take(at + 7) == r.take(at + 7),
        l.skip(at + 15) == r.skip(at + 15),
        stamp_second(l, year, at) > stamp_second(r, year, at),
    ensures
        item_order(SortKey::Time, left, right) < 0,
{
    assert forall|k: int| 0 <= k < at + 7 implies l[k] == r[k] by {
        assert(l.take(at + 7)[k] == l[k]);
        assert(r.take(at + 7)[k] == r[k]);
    }
    assert forall|k: int| at + 15 <= k < at + 21 implies l[k] == r[k] by {
        assert(l.skip(at + 15)[k - at - 15] == l[k]);
        assert(r.skip(at + 15)[k - at - 15] == r[k]);
    }
    let first = if l[at + 7] != r[at + 7] {
        at + 7
    } else if l[at + 8] != r[at + 8] {
        at + 8
    } else if l[at + 10] != r[at + 10] {
        at + 10
    } else if l[at + 11] != r[at + 11] {
        at + 11
    } else if l[at + 13] != r[at + 13] {
        at + 13
    } else {
        at + 14
    };
    assert(l.take(first) == r.take(first)) by {
        assert forall|k: int| 0 <= k < first implies l[k] == r[k] by {}
        assert(l.take(first) =~= r.take(first));
    }
    latest_comes_first(left, right, l, r, first);
}

/// The items that a listing shows.
pub open spec fn is_shown(item: ItemView, show_hidden: bool) -> bool {
    show_hidden || !item.is_hidden
}

/// A permutation keeps what it permutes.
proof fn sorted_keeps(sorted: Seq<ItemView>, items: Seq<ItemView>, key: SortKey)
    requires
        is_sorted(sorted, items, key),
    ensures
        sorted.to_multiset() == items.to_multiset(),
{
    let ranks = choose|ranks: Seq<usize>| sorts(ranks, sorted, items, key);
    permuted_keeps(ranks, sorted, items);
}

/// A permutation keeps what it permutes.
proof fn permuted_keeps(ranks: Seq<usize>, sorted: Seq<ItemView>, items: Seq<ItemView>)
    requires
        is_permutation(ranks, items.len()),
        sorted == Seq::new(items.len(), |k: int| items[ranks[k] as int]),
    ensures
        sorted.to_multiset() == items.to_multiset(),
    decreases items.len(),
{
    broadcast use group_to_multiset_ensures;
    if items.len() == 0 {
        assert(sorted =~= items);
    } else {
        let last = items.len() - 1;
        crate::laws::permutation_hits(ranks, items.len(), last);
        let p = choose|k: int| 0 <= k < ranks.len() && ranks[k] == last;
        let fewer = ranks.remove(p);
        let rest = items.drop_last();
        let shorter = sorted.remove(p);
        assert(is_permutation(fewer, rest.len())) by {
            assert forall|k: int| 0 <= k < fewer.len() implies 0 <= #[trigger] fewer[k]
                < rest.len() by {
                let j = if k < p {
                    k
                } else {
                    k + 1
                };
                assert(fewer[k] == ranks[j]);
                assert(ranks[j] != ranks[p]);
            }
            assert forall|i: int, j: int| 0 <= i < fewer.len() && 0 <= j < fewer.len() && i
                != j implies fewer[i] != fewer[j] by {
                let a = if i < p {
                    i
                } else {
                    i + 1
                };
                let b = if j < p {
                    j
                } else {
                    j + 1
                };
                assert(fewer[i] == ranks[a] && fewer[j] == ranks[b]);
            }
        }
        assert(shorter =~= Seq::new(rest.len(), |k: int| rest[fewer[k] as int])) by {
            assert forall|k: int| 0 <= k < shorter.len() implies shorter[k]
                == rest[fewer[k] as int] by {
                let j = if k < p {
                    k
                } else {
                    k + 1
                };
                assert(shorter[k] == sorted[j]);
                assert(fewer[k] == ranks[j]);
                assert(0 <= fewer[k] < rest.len());
            }
        }
        permuted_keeps(fewer, shorter, rest);
        let x = items[last];
        assert(sorted[p] == x);
        assert(sorted.to_multiset() == shorter.to_multiset().insert(x)) by {
            assert(shorter.insert(p, x) =~= sorted);
            to_multiset_insert(shorter, p, x);
        }
        assert(items =~= rest.push(x));
    }
}

/// A filter keeps what it keeps as often as it was there, and nothing else.
proof fn filter_counts(s: Seq<ItemView>, keep: spec_fn(ItemView) -> bool, x: ItemView)
    ensures
        s.filter(keep).to_multiset().count(x) == if keep(x) {
            s.to_multiset().count(x)
        } else {
            0
        },
    decreases s.len(),
{
    broadcast use group_to_multiset_ensures;
    if s.len() == 0 {
        reveal(Seq::filter);
        assert(s.filter(keep) =~= s);
    } else {
        let rest = s.drop_last();
        assert(s =~= rest.push(s.last()));
        filter_counts(rest, keep, x);
        filter_push(rest, s.last(), keep);
    }
}

/// A listing holds every item that is shown as often as it is there, and no other.
pub proof fn listing_keeps_counts(
    list: Seq<ItemView>,
    items: Seq<ItemView>,
    key: SortKey,
    show_hidden: bool,
    item: ItemView,
)
    requires
        is_listing(list, items, key, show_hidden),
    ensures
        list.to_multiset().count(item) == if is_shown(item, show_hidden) {
            items.to_multiset().count(item)
        } else {
            0
        },
{
    let (dirs, others) = choose|dirs: Seq<ItemView>, others: Seq<ItemView>|
        lists(list, dirs, others, items, key, show_hidden);
    let is_dir = |i: ItemView| i.file_type == FileType::Directory;
    let is_other = |i: ItemView| i.file_type != FileType::Directory;
    sorted_keeps(dirs, directories(items), key);
    sorted_keeps(others, other_items(items), key);
    filter_counts(items, is_dir, item);
    filter_counts(items, is_other, item);
    lemma_multiset_commutative(dirs, others);
    let all = dirs + others;
    assert(all.to_multiset().count(item) == items.to_multiset().count(item));
    if !show_hidden {
        filter_counts(all, |i: ItemView| !i.is_hidden, item);
    }
}

/// Two places of a sequence, one before the other, hold two values.
pub open spec fn holds_in_order(s: Seq<ItemView>, first: ItemView, second: ItemView) -> bool {
    exists|i: int, j: int|
        #![trigger s[i], s[j]]
        0 <= i < j < s.len() && s[i] == first && s[j] == second
}

/// What a filter leaves in order was in order.
proof fn filter_was_in_order(
    s: Seq<ItemView>,
    keep: spec_fn(ItemView) -> bool,
    p: int,
    q: int,
)
    requires
        0 <= p < q < s.filter(keep).len(),
    ensures
        holds_in_order(s, s.filter(keep)[p], s.filter(keep)[q]),
    decreases s.len(),
{
    reveal(Seq::filter);
    if s.len() > 0 {
        let rest = s.drop_last();
        assert(s =~= rest.push(s.last()));
        filter_push(rest, s.last(), keep);
        let kept = rest.filter(keep);
        let first = s.filter(keep)[p];
        let second = s.filter(keep)[q];
        if q < kept.len() {
            filter_was_in_order(rest, keep, p, q);
            let (i, j) = choose|i: int, j: int|
                #![trigger rest[i], rest[j]]
                0 <= i < j < rest.len() && rest[i] == first && rest[j] == second;
            assert(s[i] == first && s[j] == second);
        } else {
            assert(kept[p] == first);
            assert(kept.contains(first));
            filter_subset(rest, keep, first);
            let i = choose|i: int| 0 <= i < rest.len() && rest[i] == first;
            assert(s[i] == first && s[s.len() - 1] == second);
        }
    }
}

/// Items of a kind that the order does not tell apart are listed as they stood.
pub proof fn listing_is_stable(
    list: Seq<ItemView>,
    items: Seq<ItemView>,
    key: SortKey,
    show_hidden: bool,
    p: int,
    q: int,
)
    requires
        is_listing(list, items, key, show_hidden),
        0 <= p < q < list.len(),
        (list[p].file_type == FileType::Directory) == (list[q].file_type == FileType::Directory),
        item_order(key, list[p], list[q]) == 0,
    ensures
        holds_in_order(items, list[p], list[q]),
{
    let (dirs, others) = choose|dirs: Seq<ItemView>, others: Seq<ItemView>|
        lists(list, dirs, others, items, key, show_hidden);
    let is_dir = |i: ItemView| i.file_type == FileType::Directory;
    let is_other = |i: ItemView| i.file_type != FileType::Directory;
    let all = dirs + others;
    let first = list[p];
    let second = list[q];
    if show_hidden {
        assert(all[p] == first && all[q] == second);
    } else {
        filter_was_in_order(all, |i: ItemView| !i.is_hidden, p, q);
    }
    let (i, j) = choose|i: int, j: int|
        #![trigger all[i], all[j]]
        0 <= i < j < all.len() && all[i] == first && all[j] == second;
    crate::order::sorted_items(dirs, directories(items), key);
    crate::order::sorted_items(others, other_items(items), key);
    if i < dirs.len() {
        assert(directories(items).contains(dirs[i]));
        filter_subset(items, is_dir, dirs[i]);
        if j >= dirs.len() {
            assert(other_items(items).contains(others[j - dirs.len()]));
            filter_subset(items, is_other, others[j - dirs.len()]);
        }
        sorted_was_in_order(dirs, directories(items), key, i, j);
        let (a, b) = choose|a: int, b: int|
            #![trigger directories(items)[a], directories(items)[b]]
            0 <= a < b < directories(items).len() && directories(items)[a] == first && directories(
                items,
            )[b] == second;
        filter_was_in_order(items, is_dir, a, b);
    } else {
        let x = i - dirs.len();
        let y = j - dirs.len();
        assert(others[x] == first && others[y] == second);
        sorted_was_in_order(others, other_items(items), key, x, y);
        let (a, b) = choose|a: int, b: int|
            #![trigger other_items(items)[a], other_items(items)[b]]
            0 <= a < b < other_items(items).len() && other_items(items)[a] == first && other_items(
                items,
            )[b] == second;
        filter_was_in_order(items, is_other, a, b);
    }
}

/// What a sorting that does not tell two items apart leaves in order was in order.
proof fn sorted_was_in_order(
    sorted: Seq<ItemView>,
    items: Seq<ItemView>,
    key: SortKey,
    p: int,
    q: int,
)
    requires
        is_sorted(sorted, items, key),
        0 <= p < q < sorted.len(),
        item_order(key, sorted[p], sorted[q]) == 0,
    ensures
        holds_in_order(items, sorted[p], sorted[q]),
{
    let ranks = choose|ranks: Seq<usize>| sorts(ranks, sorted, items, key);
    assert(precedes(items, key, ranks[p] as int, ranks[q] as int));
    assert(items[ranks[p] as int] == sorted[p] && items[ranks[q] as int] == sorted[q]);
}

/// The item of an entry has its path, its name where that is text, and is hidden exactly if
/// the name begins with a dot. What the file system tells of it is kept.
pub proof fn item_tells_entry(entry: Entry, meta: EntryMeta, modified: Seq<char>)
    requires
        entry.meta == Some(meta),
    ensures
        ({
            let item = item_of(entry, modified);
            &&& item.file_path == entry.path@
            &&& valid_utf8(entry.name@) ==> encode_utf8(item.file_name) == entry.name@
            &&& !valid_utf8(entry.name@) ==> item.file_name == "Invalid unicode name"@
            &&& item.is_hidden <==> item.file_name.len() > 0 && item.file_name[0] == '.'
            &&& item.file_size == meta.len
            &&& item.modified == Some(modified)
            &&& !item.selected
            &&& item.file_type == FileType::Directory <==> meta.is_dir
            &&& item.file_type == FileType::Symlink <==> !meta.is_dir && !meta.is_file
                && meta.is_symlink
            &&& meta.is_dir ==> item.file_ext is None
            &&& !meta.is_dir ==> item.file_ext == shown_extension(entry.path@)
            &&& item.symlink_dir_path == if item.file_type == FileType::Symlink
                && meta.target_is_dir == Some(true) {
                optional_path(meta.canonical)
            } else {
                None
            }
        }),
{
    if valid_utf8(entry.name@) {
        decode_utf8_encode_utf8(entry.name@);
    }
}

/// The item of an entry of which the file system tells nothing is an empty file that is not
/// hidden.
pub proof fn item_of_unknown_entry(entry: Entry, modified: Seq<char>)
    requires
        entry.meta is None,
    ensures
        ({
            let item = item_of(entry, modified);
            &&& item.file_path == entry.path@
            &&& valid_utf8(entry.name@) ==> encode_utf8(item.file_name) == entry.name@
            &&& !valid_utf8(entry.name@) ==> item.file_name == "Invalid unicode name"@
            &&& item.file_type == FileType::File
            &&& item.file_size == 0
            &&& item.modified is None
            &&& item.symlink_dir_path is None
            &&& item.file_ext == shown_extension(entry.path@)
            &&& !item.is_hidden
            &&& !item.selected
        }),
{
    if valid_utf8(entry.name@) {
        decode_utf8_encode_utf8(entry.name@);
    }
}

/// The extension of an item is that of its path in lower case, empty where it is no text,
/// and missing where the path has none.
pub proof fn extension_is_shown_in_lower_case(path: PathView)
    ensures
        path.extension() is None <==> shown_extension(path) is None,
        path.extension() matches Some(ext) ==> {
            &&& valid_utf8(path.extension()->0) ==> shown_extension(path) == Some(
                ascii_lower(decode_utf8(path.extension()->0)),
            )
            &&& !valid_utf8(path.extension()->0) ==> shown_extension(path) == Some(
                Seq::<char>::empty(),
            )
        },
{
}

/// The items of entries are the items of each of them, in order.
pub proof fn items_tell_entries(
    items: Seq<ItemView>,
    entries: Seq<Result<Entry, crate::error::FxError>>,
    k: int,
)
    requires
        are_items_of(items, entries),
        0 <= k < entries.len(),
    ensures
        items.len() == entries.len(),
        entries[k] is Ok,
        items[k].file_path == entries[k]->Ok_0.path@,
        items[k].file_name == shown_name(entries[k]->Ok_0.name@),
        exists|modified: Seq<char>| items[k] == #[trigger] item_of(entries[k]->Ok_0, modified),
{
    assert(entries[k] is Ok && is_item_of(items[k], entries[k]->Ok_0));
}

/// The error that is reported is the first one, and all entries before it could be read.
pub proof fn reported_error_is_first<T>(
    entries: Seq<Result<T, crate::error::FxError>>,
    at: int,
    e: crate::error::FxError,
    k: int,
)
    requires
        is_first_error(entries, at, e),
        0 <= k < entries.len(),
        entries[k] is Err,
    ensures
        at <= k,
        k == at ==> entries[k]->Err_0 == e,
{
}

/// Selecting down to a position selects exactly the items up to it, and selecting from a
/// position on exactly those from it on. Nothing else of an item changes.
pub proof fn selections_select(items: Seq<ItemView>, position: int, k: int)
    requires
        0 <= k < items.len(),
    ensures
        selected_down_to(items, position).len() == items.len(),
        selected_from(items, position).len() == items.len(),
        deselected(items).len() == items.len(),
        selected_down_to(items, position)[k] == (ItemView { selected: k <= position, ..items[k] }),
        selected_from(items, position)[k] == (ItemView { selected: position <= k, ..items[k] }),
        deselected(items)[k] == (ItemView { selected: false, ..items[k] }),
{
}

/// What is registered of a selection is the selected items in their order, each as it is.
pub proof fn selection_is_registered_in_order(items: Seq<ItemView>, last: ItemView)
    ensures
        selected_items(Seq::empty()) == Seq::<ItemView>::empty(),
        last.selected ==> selected_items(items.push(last)) == selected_items(items).push(last),
        !last.selected ==> selected_items(items.push(last)) == selected_items(items),
{
    let is_selected = |i: ItemView| i.selected;
    filter_push(items, last, is_selected);
    reveal(Seq::filter);
    assert(selected_items(Seq::empty()) =~= Seq::<ItemView>::empty());
}

/// An item in the trash differs from what it was in its path and name alone, and is not
/// selected.
pub proof fn moved_item_is_the_same(item: ItemView, file_path: PathView, file_name: Seq<char>)
    ensures
        ({
            let there = moved(item, file_path, file_name);
            &&& there.file_path == file_path
            &&& there.file_name == file_name
            &&& !there.selected
            &&& there.file_type == item.file_type
            &&& there.symlink_dir_path == item.symlink_dir_path
            &&& there.file_size == item.file_size
            &&& there.file_ext == item.file_ext
            &&& there.modified == item.modified
            &&& there.is_hidden == item.is_hidden
        }),
{
}

/// How many of the entries that can be read have paths that are wanted.
pub open spec fn count_wanted(entries: Seq<Result<Entry, FxError>>, wanted: Seq<PathView>) -> nat
    decreases entries.len(),
{
    if entries.len() == 0 {
        0
    } else {
        count_wanted(entries.drop_first(), wanted) + if entries.first() is Ok && is_wanted(
            entries.first()->Ok_0,
            wanted,
        ) {
            1nat
        } else {
            0nat
        }
    }
}

/// The path of an entry is one of those that are wanted.
pub open spec fn is_wanted(entry: Entry, wanted: Seq<PathView>) -> bool {
    exists|k: int| 0 <= k < wanted.len() && (#[trigger] wanted[k]).same_as(entry.path@)
}

/// A path is wanted where its components are among those of the wanted paths.
proof fn wanted_routes(entry: Entry, wanted: Seq<PathView>)
    ensures
        routes(wanted).contains(entry.path@.route()) <==> is_wanted(entry, wanted),
{
    if routes(wanted).contains(entry.path@.route()) {
        let k = choose|k: int|
            0 <= k < routes(wanted).len() && routes(wanted)[k] == entry.path@.route();
        assert(wanted[k].same_as(entry.path@));
    }
    if is_wanted(entry, wanted) {
        let k = choose|k: int| 0 <= k < wanted.len() && (#[trigger] wanted[k]).same_as(entry.path@);
        assert(routes(wanted)[k] == entry.path@.route());
    }
}

/// Looking for wanted entries meets an entry that cannot be read, or ends before it.
proof fn unread_entry_after(
    entries: Seq<Result<Entry, FxError>>,
    wanted: Seq<PathView>,
    found: nat,
    at: int,
)
    requires
        0 <= at < entries.len(),
        entries[at] is Err,
        forall|k: int| 0 <= k < at ==> #[trigger] entries[k] is Ok,
        wanted.len() > 0 ==> found < wanted.len(),
    ensures
        ({
            let result = wanted_entries(entries, wanted, found);
            let before = found + count_wanted(entries.take(at), wanted);
            &&& before < wanted.len() || wanted.len() == 0 ==> result == Err::<Seq<Entry>, FxError>(
                entries[at]->Err_0,
            )
            &&& before >= wanted.len() > 0 ==> result is Ok
        }),
    decreases entries.len(),
{
    let front = entries.take(at);
    if at > 0 {
        let rest = entries.drop_first();
        let entry = entries[0]->Ok_0;
        assert(entries[0] is Ok);
        assert(front.first() == entries[0]);
        assert(front.drop_first() =~= rest.take(at - 1));
        assert forall|k: int| 0 <= k < at - 1 implies #[trigger] rest[k] is Ok by {
            assert(rest[k] == entries[k + 1]);
        }
        wanted_routes(entry, wanted);
        if !is_wanted(entry, wanted) {
            unread_entry_after(rest, wanted, found, at - 1);
        } else if found + 1 != wanted.len() {
            unread_entry_after(rest, wanted, found + 1, at - 1);
        }
    }
}

/// An entry of the trash that cannot be read is an error unless as many entries as are
/// wanted were found before it.
pub proof fn unread_entry_is_error(
    entries: Seq<Result<Entry, FxError>>,
    wanted: Seq<PathView>,
    at: int,
)
    requires
        0 <= at < entries.len(),
        entries[at] is Err,
        forall|k: int| 0 <= k < at ==> #[trigger] entries[k] is Ok,
    ensures
        ({
            let result = wanted_entries(entries, wanted, 0);
            let before = count_wanted(entries.take(at), wanted);
            &&& before < wanted.len() || wanted.len() == 0 ==> result == Err::<Seq<Entry>, FxError>(
                entries[at]->Err_0,
            )
            &&& before >= wanted.len() > 0 ==> result is Ok
        }),
{
    unread_entry_after(entries, wanted, 0, at);
}

/// Two entries stand in a listing of the trash one before the other.
pub open spec fn lists_in_order(
    entries: Seq<Result<Entry, FxError>>,
    first: Entry,
    second: Entry,
) -> bool {
    exists|i: int, j: int|
        #![trigger entries[i], entries[j]]
        0 <= i < j < entries.len() && entries[i] == Ok::<Entry, FxError>(first) && entries[j] == Ok::<
            Entry,
            FxError,
        >(second)
}

/// What is found from a number on is listed, wanted and in order, and ends with as many.
proof fn found_entries_from(
    entries: Seq<Result<Entry, FxError>>,
    wanted: Seq<PathView>,
    found: nat,
    p: int,
    q: int,
)
    requires
        wanted_entries(entries, wanted, found) is Ok,
        found < wanted.len(),
        0 <= p < wanted_entries(entries, wanted, found)->Ok_0.len(),
    ensures
        ({
            let result = wanted_entries(entries, wanted, found)->Ok_0;
            &&& found + result.len() <= wanted.len()
            &&& is_wanted(result[p], wanted)
            &&& entries.contains(Ok::<Entry, FxError>(result[p]))
            &&& p < q < result.len() ==> lists_in_order(entries, result[p], result[q])
        }),
    decreases entries.len(),
{
    let result = wanted_entries(entries, wanted, found)->Ok_0;
    let rest = entries.drop_first();
    let entry = entries.first()->Ok_0;
    assert(entries.first() is Ok);
    assert(entries[0] == Ok::<Entry, FxError>(entry));
    wanted_routes(entry, wanted);
    if !is_wanted(entry, wanted) {
        found_entries_from(rest, wanted, found, p, q);
        listed_behind(entries, result[p]);
        if p < q < result.len() {
            let (i, j) = choose|i: int, j: int|
                #![trigger rest[i], rest[j]]
                0 <= i < j < rest.len() && rest[i] == Ok::<Entry, FxError>(result[p]) && rest[j]
                    == Ok::<Entry, FxError>(result[q]);
            assert(entries[i + 1] == rest[i] && entries[j + 1] == rest[j]);
        }
    } else if found + 1 == wanted.len() {
        assert(result == seq![entry]);
    } else {
        let more = wanted_entries(rest, wanted, found + 1)->Ok_0;
        assert(result == seq![entry] + more);
        if p > 0 {
            found_entries_from(rest, wanted, found + 1, p - 1, q - 1);
            assert(result[p] == more[p - 1]);
            listed_behind(entries, result[p]);
            if p < q < result.len() {
                assert(result[q] == more[q - 1]);
                let (i, j) = choose|i: int, j: int|
                    #![trigger rest[i], rest[j]]
                    0 <= i < j < rest.len() && rest[i] == Ok::<Entry, FxError>(result[p]) && rest[j]
                        == Ok::<Entry, FxError>(result[q]);
                assert(entries[i + 1] == rest[i] && entries[j + 1] == rest[j]);
            }
        } else {
            if more.len() > 0 {
                found_entries_from(rest, wanted, found + 1, 0, 0);
            }
            if p < q < result.len() {
                assert(result[q] == more[q - 1]);
                found_entries_from(rest, wanted, found + 1, q - 1, q - 1);
                let j = choose|j: int| 0 <= j < rest.len() && rest[j] == Ok::<Entry, FxError>(result[q]);
                assert(entries[j + 1] == rest[j]);
            }
        }
    }
}

/// What is listed behind the first entry is listed.
proof fn listed_behind(entries: Seq<Result<Entry, FxError>>, entry: Entry)
    requires
        entries.len() > 0,
        entries.drop_first().contains(Ok::<Entry, FxError>(entry)),
    ensures
        entries.contains(Ok::<Entry, FxError>(entry)),
{
    let rest = entries.drop_first();
    let k = choose|k: int| 0 <= k < rest.len() && rest[k] == Ok::<Entry, FxError>(entry);
    assert(entries[k + 1] == rest[k]);
}

/// The entries of the trash that are found are entries of it whose paths are wanted, in the
/// order in which the trash lists them, and no more of them than are wanted.
pub proof fn found_entries_keep_order(
    entries: Seq<Result<Entry, FxError>>,
    wanted: Seq<PathView>,
    p: int,
    q: int,
)
    requires
        wanted_entries(entries, wanted, 0) is Ok,
        wanted.len() > 0,
        0 <= p < wanted_entries(entries, wanted, 0)->Ok_0.len(),
    ensures
        ({
            let result = wanted_entries(entries, wanted, 0)->Ok_0;
            &&& result.len() <= wanted.len()
            &&& is_wanted(result[p], wanted)
            &&& entries.contains(Ok::<Entry, FxError>(result[p]))
            &&& p < q < result.len() ==> lists_in_order(entries, result[p], result[q])
        }),
{
    found_entries_from(entries, wanted, 0, p, q);
}

/// Of the entries that are found items are made, and of no others.
pub proof fn items_are_made_of_found_entries(
    entries: Seq<Result<Entry, FxError>>,
    wanted: Seq<PathView>,
    found: nat,
)
    requires
        wanted_entries(entries, wanted, found) is Ok,
    ensures
        made_entries(entries, wanted, found) == wanted_entries(entries, wanted, found)->Ok_0,
    decreases entries.len(),
{
    if entries.len() > 0 {
        let rest = entries.drop_first();
        let entry = entries.first()->Ok_0;
        if !routes(wanted).contains(entry.path@.route()) {
            items_are_made_of_found_entries(rest, wanted, found);
        } else if found + 1 != wanted.len() {
            items_are_made_of_found_entries(rest, wanted, found + 1);
        }
    }
}

/// Times can be written out where each entry whose time is asked for has a moment that can
/// be: all of them up to the first that cannot be read.
pub proof fn times_of_entries(entries: Seq<Result<Entry, FxError>>, at: int)
    requires
        0 <= at < entries.len(),
        entries[at] is Ok,
        forall|k: int| 0 <= k < at ==> #[trigger] entries[k] is Ok,
    ensures
        are_timely(entries) && entries[at]->Ok_0.meta is Some ==> ({
            let meta = entries[at]->Ok_0.meta->0;
            &&& -8_334_601_142_400 <= meta.modified_secs <= 8_210_266_790_399
            &&& meta.modified_nanos < 1_000_000_000
        }),
{
    assert(is_read(entries, at));
}

/// Entries without a time, and those with a moment that can be written out, are no obstacle.
pub proof fn timely_entries(entries: Seq<Result<Entry, FxError>>)
    requires
        forall|k: int|
            0 <= k < entries.len() && (#[trigger] entries[k]) is Ok && entries[k]->Ok_0.meta is Some
                ==> -8_334_601_142_400 <= entries[k]->Ok_0.meta->0.modified_secs
                <= 8_210_266_790_399 && entries[k]->Ok_0.meta->0.modified_nanos < 1_000_000_000,
    ensures
        are_timely(entries),
{
    assert forall|at: int| 0 <= at < entries.len() && #[trigger] is_read(entries, at) implies is_timely(
        entries[at]->Ok_0,
    ) by {
        assert(entries[at] is Ok);
    }
}

} // verus!
