//! The order in which the items of a directory are listed.

use crate::item::{FileType, ItemInfo, ItemView, item_views};
use crate::session::SortKey;
use crate::text::{
    optional_text_order, order_texts, text_order_antisymmetric, text_order_transitive,
};
use vstd::prelude::*;
use vstd::string::*;

verus! {

/// What `natord::compare` says of two texts: -1, 0 or 1 as the left one comes before,
/// with or behind the right one.
pub uninterp spec fn natural_order(left: Seq<char>, right: Seq<char>) -> int;

/// Compares two names in natural order.
///
/// Calls `natord::compare`. Its result depends on the two texts alone; it is named
/// `natural_order`. The contract claims beside it that the result turns its sign when
/// the two texts are exchanged, and that it agrees with what comes behind either of
/// them: the function compares the texts piece by piece, a run of digits being one
/// piece, so that it orders them as lists of pieces.
#[verifier::external_body]
pub(crate) fn compare_names(left: &str, right: &str) -> (order: i8)
    ensures
        order == natural_order(left@, right@),
        -1 <= order <= 1,
        natural_order(right@, left@) == -order,
        order <= 0 ==> forall|x: Seq<char>|
            #![trigger natural_order(right@, x)]
            #![trigger natural_order(left@, x)]
            natural_order(right@, x) <= 0 ==> natural_order(left@, x) <= 0,
        order > 0 ==> forall|x: Seq<char>|
            #![trigger natural_order(right@, x)]
            #![trigger natural_order(left@, x)]
            natural_order(left@, x) <= 0 ==> natural_order(right@, x) < 0,
{
    match natord::compare(left, right) {
        std::cmp::Ordering::Less => -1,
        std::cmp::Ordering::Equal => 0,
        std::cmp::Ordering::Greater => 1,
    }
}

/// Which of two items is listed first: negative, zero or positive as the left one
/// comes before, with or behind the right one.
pub open spec fn item_order(key: SortKey, left: ItemView, right: ItemView) -> int {
    match key {
        SortKey::Name => natural_order(left.file_name, right.file_name),
        SortKey::Time => optional_text_order(right.modified, left.modified),
    }
}

/// The order of the names of items turns its sign when two names are exchanged.
pub open spec fn names_are_ordered(items: Seq<ItemView>) -> bool {
    forall|i: int, j: int|
        #![trigger items[i], items[j]]
        0 <= i < items.len() && 0 <= j < items.len() ==> natural_order(
            items[j].file_name,
            items[i].file_name,
        ) == -natural_order(items[i].file_name, items[j].file_name)
}

/// Finds that the order of the names of items turns its sign when two names are exchanged,
/// by comparing each with each.
pub fn names_in_order(items: &Vec<ItemInfo>)
    ensures
        names_are_ordered(item_views(items@)),
{
    let ghost views = item_views(items@);
    let mut i: usize = 0;
    while i < items.len()
        invariant
            i <= items@.len(),
            views == item_views(items@),
            forall|p: int, q: int|
                #![trigger views[p], views[q]]
                0 <= p < i && 0 <= q < views.len() ==> natural_order(
                    views[q].file_name,
                    views[p].file_name,
                ) == -natural_order(views[p].file_name, views[q].file_name),
        decreases items@.len() - i,
    {
        let mut j: usize = 0;
        while j < items.len()
            invariant
                i < items@.len(),
                j <= items@.len(),
                views == item_views(items@),
                forall|q: int|
                    0 <= q < j ==> natural_order(
                        (#[trigger] views[q]).file_name,
                        views[i as int].file_name,
                    ) == -natural_order(views[i as int].file_name, views[q].file_name),
            decreases items@.len() - j,
        {
            compare_names(items[i].file_name.as_str(), items[j].file_name.as_str());
            assert(views[i as int] == items@[i as int]@ && views[j as int] == items@[j as int]@);
            j += 1;
        }
        i += 1;
    }
}

/// Compares two texts, a missing one being less than any other.
fn order_optional_texts(left: &Option<String>, right: &Option<String>) -> (order: i8)
    ensures
        order == optional_text_order(
            crate::item::optional_text(*left),
            crate::item::optional_text(*right),
        ),
{
    match (left, right) {
        (None, None) => 0,
        (None, Some(_)) => -1,
        (Some(_), None) => 1,
        (Some(l), Some(r)) => order_texts(l.as_str(), r.as_str()),
    }
}

/// Compares two items.
pub(crate) fn order_items(key: SortKey, left: &ItemInfo, right: &ItemInfo) -> (order: i8)
    ensures
        order == item_order(key, left@, right@),
        item_order(key, right@, left@) == -order,
        order <= 0 ==> forall|x: ItemView|
            item_order(key, right@, x) <= 0 ==> #[trigger] item_order(key, left@, x) <= 0,
        order > 0 ==> forall|x: ItemView|
            item_order(key, left@, x) <= 0 ==> #[trigger] item_order(key, right@, x) < 0,
{
    match key {
        SortKey::Name => compare_names(left.file_name.as_str(), right.file_name.as_str()),
        SortKey::Time => {
            let order = order_optional_texts(&right.modified, &left.modified);
            proof {
                later_first(left@, right@);
                assert forall|x: ItemView| order <= 0 && item_order(key, right@, x)
                    <= 0 implies #[trigger] item_order(key, left@, x) <= 0 by {
                    later_first_transitive(left@, right@, x);
                }
                assert forall|x: ItemView| order > 0 && item_order(key, left@, x)
                    <= 0 implies #[trigger] item_order(key, right@, x) < 0 by {
                    later_first_transitive(right@, left@, x);
                }
            }
            order
        },
    }
}

/// The order by time turns its sign when the two items are exchanged.
proof fn later_first(left: ItemView, right: ItemView)
    ensures
        item_order(SortKey::Time, right, left) == -item_order(SortKey::Time, left, right),
{
    match (left.modified, right.modified) {
        (Some(l), Some(r)) => text_order_antisymmetric(l, r),
        _ => {},
    }
}

/// The order by time is transitive, and strict where its first step is.
proof fn later_first_transitive(a: ItemView, b: ItemView, c: ItemView)
    requires
        item_order(SortKey::Time, a, b) <= 0,
        item_order(SortKey::Time, b, c) <= 0,
    ensures
        item_order(SortKey::Time, a, c) <= 0,
        item_order(SortKey::Time, a, b) < 0 ==> item_order(SortKey::Time, a, c) < 0,
{
    match (a.modified, b.modified, c.modified) {
        (Some(x), Some(y), Some(z)) => text_order_transitive(z, y, x),
        _ => {},
    }
}

/// The item at one position is listed before that at another: it comes before it in
/// order, or with it and stood before it.
pub open spec fn precedes(items: Seq<ItemView>, key: SortKey, i: int, j: int) -> bool {
    let order = item_order(key, items[i], items[j]);
    order < 0 || (order == 0 && i < j)
}

/// Every position below `count`, each once.
pub open spec fn is_permutation(ranks: Seq<usize>, count: nat) -> bool {
    &&& ranks.len() == count
    &&& ranks.no_duplicates()
    &&& forall|k: int| 0 <= k < ranks.len() ==> 0 <= #[trigger] ranks[k] < count
}

/// `ranks` are positions in the order in which their items are listed.
pub open spec fn is_ranked(items: Seq<ItemView>, key: SortKey, ranks: Seq<usize>) -> bool {
    forall|p: int, q: int|
        0 <= p < q < ranks.len() ==> precedes(
            items,
            key,
            #[trigger] ranks[p] as int,
            #[trigger] ranks[q] as int,
        )
}

/// `sorted` holds the items in the order of their ranks.
pub open spec fn sorts(
    ranks: Seq<usize>,
    sorted: Seq<ItemView>,
    items: Seq<ItemView>,
    key: SortKey,
) -> bool {
    &&& is_permutation(ranks, items.len())
    &&& is_ranked(items, key, ranks)
    &&& sorted == Seq::new(items.len(), |k: int| items[ranks[k] as int])
}

/// `sorted` holds the items in order. Items that the order does not tell apart stand
/// as they stood.
pub open spec fn is_sorted(sorted: Seq<ItemView>, items: Seq<ItemView>, key: SortKey) -> bool {
    exists|ranks: Seq<usize>| sorts(ranks, sorted, items, key)
}

/// Merges the ranks of the positions before and behind `mid`.
fn merge(
    items: &Vec<ItemInfo>,
    key: SortKey,
    left: &Vec<usize>,
    right: &Vec<usize>,
    Ghost(from): Ghost<int>,
    Ghost(mid): Ghost<int>,
    Ghost(to): Ghost<int>,
) -> (merged: Vec<usize>)
    requires
        0 <= from <= mid <= to <= items@.len(),
        left@.len() == mid - from,
        right@.len() == to - mid,
        forall|k: int| 0 <= k < left@.len() ==> from <= #[trigger] left@[k] < mid,
        forall|k: int| 0 <= k < right@.len() ==> mid <= #[trigger] right@[k] < to,
        left@.no_duplicates(),
        right@.no_duplicates(),
        is_ranked(item_views(items@), key, left@),
        is_ranked(item_views(items@), key, right@),
    ensures
        merged@.len() == to - from,
        forall|k: int| 0 <= k < merged@.len() ==> from <= #[trigger] merged@[k] < to,
        merged@.no_duplicates(),
        is_ranked(item_views(items@), key, merged@),
{
    let ghost views = item_views(items@);
    let mut merged: Vec<usize> = Vec::new();
    let mut l: usize = 0;
    let mut r: usize = 0;
    while l < left.len() || r < right.len()
        invariant
            views == item_views(items@),
            0 <= from <= mid <= to <= items@.len(),
            l <= left@.len() == mid - from,
            r <= right@.len() == to - mid,
            forall|k: int| 0 <= k < left@.len() ==> from <= #[trigger] left@[k] < mid,
            forall|k: int| 0 <= k < right@.len() ==> mid <= #[trigger] right@[k] < to,
            left@.no_duplicates(),
            right@.no_duplicates(),
            is_ranked(views, key, left@),
            is_ranked(views, key, right@),
            merged@.len() == l + r,
            forall|k: int| 0 <= k < merged@.len() ==> from <= #[trigger] merged@[k] < to,
            merged@.no_duplicates(),
            is_ranked(views, key, merged@),
            forall|p: int, q: int|
                0 <= p < merged@.len() && l <= q < left@.len() ==> #[trigger] merged@[p]
                    != #[trigger] left@[q] && precedes(
                    views,
                    key,
                    merged@[p] as int,
                    left@[q] as int,
                ),
            forall|p: int, q: int|
                0 <= p < merged@.len() && r <= q < right@.len() ==> #[trigger] merged@[p]
                    != #[trigger] right@[q] && precedes(
                    views,
                    key,
                    merged@[p] as int,
                    right@[q] as int,
                ),
        decreases left@.len() - l + right@.len() - r,
    {
        let take_left = if l == left.len() {
            false
        } else if r == right.len() {
            true
        } else {
            order_items(key, &items[left[l]], &items[right[r]]) <= 0
        };
        if take_left {
            let rank = left[l];
            assert forall|q: int| r <= q < right@.len() implies precedes(
                views,
                key,
                rank as int,
                #[trigger] right@[q] as int,
            ) by {
                if q > r {
                    assert(precedes(views, key, right@[r as int] as int, right@[q] as int));
                }
            }
            merged.push(rank);
            l += 1;
        } else {
            let rank = right[r];
            assert forall|q: int| l <= q < left@.len() implies precedes(
                views,
                key,
                rank as int,
                #[trigger] left@[q] as int,
            ) by {
                if q > l {
                    assert(precedes(views, key, left@[l as int] as int, left@[q] as int));
                }
            }
            merged.push(rank);
            r += 1;
        }
    }
    merged
}

/// The positions from one up to another, in the order in which their items are listed.
fn rank(items: &Vec<ItemInfo>, key: SortKey, from: usize, to: usize) -> (ranks: Vec<usize>)
    requires
        from <= to <= items@.len(),
    ensures
        ranks@.len() == to - from,
        forall|k: int| 0 <= k < ranks@.len() ==> from <= #[trigger] ranks@[k] < to,
        ranks@.no_duplicates(),
        is_ranked(item_views(items@), key, ranks@),
    decreases to - from,
{
    if to - from < 2 {
        let mut ranks: Vec<usize> = Vec::new();
        if from < to {
            ranks.push(from);
        }
        ranks
    } else {
        let mid: usize = from + (to - from) / 2;
        let left = rank(items, key, from, mid);
        let right = rank(items, key, mid, to);
        merge(
            items,
            key,
            &left,
            &right,
            Ghost(from as int),
            Ghost(mid as int),
            Ghost(to as int),
        )
    }
}

/// Sorts a list of items.
pub(crate) fn sort_items(items: Vec<ItemInfo>, key: SortKey) -> (sorted: Vec<ItemInfo>)
    ensures
        is_sorted(item_views(sorted@), item_views(items@), key),
{
    let ranks = rank(&items, key, 0, items.len());
    let ghost views = item_views(items@);
    let mut slots: Vec<Option<ItemInfo>> = Vec::new();
    for item in it: items
        invariant
            it.seq() == items@,
            slots@.len() == it.index(),
            forall|k: int| 0 <= k < slots@.len() ==> #[trigger] slots@[k] == Some(items@[k]),
    {
        slots.push(Some(item));
    }
    let mut sorted: Vec<ItemInfo> = Vec::new();
    let mut at: usize = 0;
    while at < ranks.len()
        invariant
            at <= ranks@.len() == items@.len() == slots@.len(),
            is_permutation(ranks@, items@.len()),
            sorted@.len() == at,
            forall|k: int| 0 <= k < at ==> #[trigger] sorted@[k] == items@[ranks@[k] as int],
            forall|k: int|
                at <= k < ranks@.len() ==> slots@[#[trigger] ranks@[k] as int] == Some(
                    items@[ranks@[k] as int],
                ),
        decreases ranks@.len() - at,
    {
        let from = ranks[at];
        let item = slots[from].take();
        match item {
            Some(item) => sorted.push(item),
            None => {},
        }
        at += 1;
    }
    assert(item_views(sorted@) == Seq::new(views.len(), |k: int| views[ranks@[k] as int]));
    assert(sorts(ranks@, item_views(sorted@), views, key));
    sorted
}

/// The directories among the items.
pub open spec fn directories(items: Seq<ItemView>) -> Seq<ItemView> {
    items.filter(|i: ItemView| i.file_type == FileType::Directory)
}

/// The items that are no directories.
pub open spec fn other_items(items: Seq<ItemView>) -> Seq<ItemView> {
    items.filter(|i: ItemView| i.file_type != FileType::Directory)
}

/// The items that are shown.
pub open spec fn visible(items: Seq<ItemView>, show_hidden: bool) -> Seq<ItemView> {
    if show_hidden {
        items
    } else {
        items.filter(|i: ItemView| !i.is_hidden)
    }
}

/// The listing is made of the directories in order and then of the other items in
/// order, without those that are not shown.
pub open spec fn lists(
    list: Seq<ItemView>,
    dirs: Seq<ItemView>,
    others: Seq<ItemView>,
    items: Seq<ItemView>,
    key: SortKey,
    show_hidden: bool,
) -> bool {
    &&& is_sorted(dirs, directories(items), key)
    &&& is_sorted(others, other_items(items), key)
    &&& list == visible(dirs + others, show_hidden)
}

/// `list` is the listing of the items.
pub open spec fn is_listing(
    list: Seq<ItemView>,
    items: Seq<ItemView>,
    key: SortKey,
    show_hidden: bool,
) -> bool {
    exists|dirs: Seq<ItemView>, others: Seq<ItemView>|
        lists(list, dirs, others, items, key, show_hidden)
}

/// Filtering a longer sequence filters its last element.
pub proof fn filter_push<A>(s: Seq<A>, last: A, keep: spec_fn(A) -> bool)
    ensures
        s.push(last).filter(keep) == if keep(last) {
            s.filter(keep).push(last)
        } else {
            s.filter(keep)
        },
{
    reveal(Seq::filter);
    assert(s.push(last).drop_last() == s);
}

/// Lists items: directories first, each group in order, hidden items only on demand.
pub fn arrange(items: Vec<ItemInfo>, key: SortKey, show_hidden: bool) -> (list: Vec<ItemInfo>)
    ensures
        is_listing(item_views(list@), item_views(items@), key, show_hidden),
{
    let ghost views = item_views(items@);
    let ghost is_dir = |i: ItemView| i.file_type == FileType::Directory;
    let ghost is_other = |i: ItemView| i.file_type != FileType::Directory;
    let mut dirs: Vec<ItemInfo> = Vec::new();
    let mut others: Vec<ItemInfo> = Vec::new();
    assert(views.take(0).filter(is_dir) == item_views(dirs@)) by {
        reveal(Seq::filter);
    }
    assert(views.take(0).filter(is_other) == item_views(others@)) by {
        reveal(Seq::filter);
    }
    for item in it: items
        invariant
            it.seq() == items@,
            views == item_views(items@),
            is_dir == (|i: ItemView| i.file_type == FileType::Directory),
            is_other == (|i: ItemView| i.file_type != FileType::Directory),
            item_views(dirs@) == views.take(it.index()).filter(is_dir),
            item_views(others@) == views.take(it.index()).filter(is_other),
    {
        proof {
            let before = views.take(it.index());
            assert(views.take(it.index() + 1) == before.push(item@));
            filter_push(before, item@, is_dir);
            filter_push(before, item@, is_other);
        }
        let ghost old_dirs = dirs@;
        let ghost old_others = others@;
        match item.file_type {
            FileType::Directory => dirs.push(item),
            FileType::File | FileType::Symlink => others.push(item),
        }
        assert(item.file_type == FileType::Directory ==> item_views(dirs@) == item_views(
            old_dirs,
        ).push(item@));
        assert(item.file_type != FileType::Directory ==> item_views(others@) == item_views(
            old_others,
        ).push(item@));
    }
    assert(views.take(views.len() as int) == views);
    let mut listed = sort_items(dirs, key);
    let mut rest = sort_items(others, key);
    let ghost sorted_dirs = item_views(listed@);
    let ghost sorted_others = item_views(rest@);
    listed.append(&mut rest);
    assert(item_views(listed@) == sorted_dirs + sorted_others);
    let list = if show_hidden {
        listed
    } else {
        without_hidden(listed)
    };
    assert(lists(item_views(list@), sorted_dirs, sorted_others, views, key, show_hidden));
    list
}

/// Drops the hidden items.
fn without_hidden(items: Vec<ItemInfo>) -> (shown: Vec<ItemInfo>)
    ensures
        item_views(shown@) == visible(item_views(items@), false),
{
    let ghost views = item_views(items@);
    let ghost is_shown = |i: ItemView| !i.is_hidden;
    let mut shown: Vec<ItemInfo> = Vec::new();
    assert(views.take(0).filter(is_shown) == item_views(shown@)) by {
        reveal(Seq::filter);
    }
    for item in it: items
        invariant
            it.seq() == items@,
            views == item_views(items@),
            is_shown == (|i: ItemView| !i.is_hidden),
            item_views(shown@) == views.take(it.index()).filter(is_shown),
    {
        proof {
            let before = views.take(it.index());
            assert(views.take(it.index() + 1) == before.push(item@));
            filter_push(before, item@, is_shown);
        }
        if !item.is_hidden {
            let ghost before = shown@;
            shown.push(item);
            assert(item_views(shown@) == item_views(before).push(item@));
        }
    }
    assert(views.take(views.len() as int) == views);
    shown
}

/// A sorted list holds what was sorted.
pub proof fn sorted_items(sorted: Seq<ItemView>, items: Seq<ItemView>, key: SortKey)
    requires
        is_sorted(sorted, items, key),
    ensures
        sorted.len() == items.len(),
        forall|k: int| 0 <= k < sorted.len() ==> items.contains(#[trigger] sorted[k]),
{
    let ranks = choose|ranks: Seq<usize>| sorts(ranks, sorted, items, key);
    assert forall|k: int| 0 <= k < sorted.len() implies items.contains(#[trigger] sorted[k]) by {
        assert(sorted[k] == items[ranks[k] as int]);
    }
}

/// A listing holds no more items than are there, and none but those.
pub proof fn listed_items(
    list: Seq<ItemView>,
    items: Seq<ItemView>,
    key: SortKey,
    show_hidden: bool,
)
    requires
        is_listing(list, items, key, show_hidden),
    ensures
        list.len() <= items.len(),
        forall|k: int| 0 <= k < list.len() ==> items.contains(#[trigger] list[k]),
{
    let (dirs, others) = choose|dirs: Seq<ItemView>, others: Seq<ItemView>|
        lists(list, dirs, others, items, key, show_hidden);
    sorted_items(dirs, directories(items), key);
    sorted_items(others, other_items(items), key);
    broadcast use vstd::seq_lib::group_filter_ensures;
    partition_len(items);
    let all = dirs + others;
    if !show_hidden {
        all.lemma_filter_len(|i: ItemView| !i.is_hidden);
    }
    assert forall|k: int| 0 <= k < list.len() implies items.contains(#[trigger] list[k]) by {
        if !show_hidden {
            filter_subset(all, |i: ItemView| !i.is_hidden, list[k]);
        }
        assert(all.contains(list[k]));
        let j = choose|j: int| 0 <= j < all.len() && all[j] == list[k];
        if j < dirs.len() {
            assert(directories(items).contains(dirs[j]));
            filter_subset(items, |i: ItemView| i.file_type == FileType::Directory, dirs[j]);
        } else {
            assert(other_items(items).contains(others[j - dirs.len()]));
            filter_subset(
                items,
                |i: ItemView| i.file_type != FileType::Directory,
                others[j - dirs.len()],
            );
        }
    }
}

/// What a filter leaves stood in the sequence.
pub proof fn filter_subset<A>(s: Seq<A>, keep: spec_fn(A) -> bool, x: A)
    requires
        s.filter(keep).contains(x),
    ensures
        s.contains(x),
        keep(x),
    decreases s.len(),
{
    reveal(Seq::filter);
    if s.len() > 0 {
        let rest = s.drop_last();
        filter_push(rest, s.last(), keep);
        assert(s == rest.push(s.last()));
        if rest.filter(keep).contains(x) {
            filter_subset(rest, keep, x);
            let k = choose|k: int| 0 <= k < rest.len() && rest[k] == x;
            assert(s[k] == x);
        } else {
            let k = choose|k: int| 0 <= k < s.filter(keep).len() && s.filter(keep)[k] == x;
            if k < rest.filter(keep).len() {
                assert(rest.filter(keep)[k] == x);
            }
            assert(s[s.len() - 1] == x);
        }
    }
}

/// Every item is a directory or another item.
proof fn partition_len(items: Seq<ItemView>)
    ensures
        directories(items).len() + other_items(items).len() == items.len(),
    decreases items.len(),
{
    reveal(Seq::filter);
    if items.len() > 0 {
        partition_len(items.drop_last());
    }
}

} // verus!
