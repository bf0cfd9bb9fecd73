//! What holds of paths, their names and their order, and of what is opened with a program.

use crate::op::Operation;
use crate::open::{before_mark, behind_mark, command_for};
use crate::path::{beginning, path_order, FilePath, PathView};
use crate::route::{
    bytes_order, components, extension_of, last_dot, name_order, names_order, parent_is_prefix,
    parsed, pieces, slashed, RouteView,
};
use std::cmp::Ordering;
use vstd::hash_map::StringHashMap;
use vstd::prelude::*;
use vstd::std_specs::cmp::{PartialEqSpec, PartialOrdSpec};

verus! {

/// Names are put together with one slash between each two of them.
pub proof fn slashes_part_names(front: Seq<Seq<u8>>, name: Seq<u8>)
    ensures
        slashed(Seq::<Seq<u8>>::empty()) == Seq::<u8>::empty(),
        slashed(seq![name]) == name,
        front.len() > 0 ==> slashed(front.push(name)) == slashed(front) + seq![47u8] + name,
{
    assert(front.push(name).drop_last() == front);
    if front.len() > 0 {
        assert(slashed(front).push(47) + name =~= slashed(front) + seq![47u8] + name);
    }
}

/// Cutting a text at its slashes loses nothing: the pieces hold no slash, and with slashes
/// between them they are the text.
pub proof fn pieces_are_parted_by_slashes(text: Seq<u8>)
    ensures
        pieces(text).len() > 0,
        slashed(pieces(text)) == text,
        forall|i: int, k: int|
            0 <= i < pieces(text).len() && 0 <= k < pieces(text)[i].len()
                ==> #[trigger] pieces(text)[i][k] != 47,
    decreases text.len(),
{
    if text.len() > 0 {
        let before = pieces(text.drop_last());
        let front = before.drop_last();
        pieces_are_parted_by_slashes(text.drop_last());
        assert(before == front.push(before.last()));
        slashes_part_names(front, before.last());
        if text.last() == 47 {
            slashes_part_names(before, Seq::empty());
            assert(text == text.drop_last() + seq![47u8] + Seq::<u8>::empty());
        } else {
            let longer = before.last().push(text.last());
            slashes_part_names(front, longer);
            assert(pieces(text) == front.push(longer));
            assert(text == text.drop_last().push(text.last()));
            if front.len() > 0 {
                assert(slashed(front) + seq![47u8] + longer == (slashed(front) + seq![47u8]
                    + before.last()).push(text.last()));
            } else {
                assert(front.push(longer) == seq![longer]);
                assert(front.push(before.last()) == seq![before.last()]);
            }
        }
    }
}

/// A piece that names something wherever it stands.
pub open spec fn names_something(piece: Seq<u8>) -> bool {
    piece.len() > 0 && piece != seq![46u8]
}

/// The components of pieces behind the first are those that name something.
proof fn later_components(list: Seq<Seq<u8>>, rooted: bool)
    ensures
        rooted ==> components(list, rooted) == list.filter(|p: Seq<u8>| names_something(p)),
        list.len() > 0 ==> components(list, rooted) == components(list.take(1), rooted)
            + list.drop_first().filter(|p: Seq<u8>| names_something(p)),
    decreases list.len(),
{
    let named = |p: Seq<u8>| names_something(p);
    reveal(Seq::filter);
    if list.len() > 0 {
        later_components(list.drop_last(), rooted);
        if list.len() == 1 {
            assert(list.take(1) == list);
            assert(list.drop_first() == Seq::<Seq<u8>>::empty());
            assert(components(list, rooted) == components(list, rooted)
                + Seq::<Seq<u8>>::empty());
        } else {
            let front = list.drop_last();
            assert(front.take(1) == list.take(1));
            assert(list.drop_first().drop_last() == front.drop_first());
            assert(list.drop_first().last() == list.last());
            let head = components(list.take(1), rooted);
            let tail = front.drop_first().filter(named);
            assert((head + tail).push(list.last()) == head + tail.push(list.last()));
        }
    }
}

/// A path that begins with a slash is rooted, and its names are the pieces between slashes
/// but the empty ones and the single dots. The first piece of another path is a name of it
/// even if it is a dot.
pub proof fn path_names_its_pieces(text: Seq<u8>)
    ensures
        ({
            let route = parsed(text);
            let list = pieces(text);
            let named = |p: Seq<u8>| names_something(p);
            &&& route.rooted == (text.len() > 0 && text[0] == 47)
            &&& route.rooted ==> route.parts == list.filter(named)
            &&& !route.rooted && list[0].len() == 0 ==> route.parts == list.drop_first().filter(
                named,
            )
            &&& !route.rooted && list[0].len() > 0 ==> route.parts == seq![list[0]]
                + list.drop_first().filter(named)
        }),
{
    let route = parsed(text);
    let list = pieces(text);
    let named = |p: Seq<u8>| names_something(p);
    pieces_are_parted_by_slashes(text);
    later_components(list, route.rooted);
    if !route.rooted {
        let first = list.take(1);
        assert(first.drop_last() == Seq::<Seq<u8>>::empty());
        assert(components(first.drop_last(), false) == Seq::<Seq<u8>>::empty());
        assert(first.last() == list[0]);
        if list[0].len() == 0 {
            assert(components(first, false) == Seq::<Seq<u8>>::empty());
            assert(route.parts == list.drop_first().filter(named));
        } else {
            assert(components(first, false) == seq![list[0]]);
        }
    }
}

/// The text of a path is a slash if it is rooted, and its names with slashes between them.
pub proof fn text_of_names(parts: Seq<Seq<u8>>)
    ensures
        (RouteView { rooted: false, parts }).text() == slashed(parts),
        (RouteView { rooted: true, parts }).text() == seq![47u8] + slashed(parts),
{
}

/// A rooted path that is joined to another stands for itself. Any other is written behind
/// it, with a slash between the two unless the first is empty or ends in one.
pub proof fn joined_text(front: PathView, back: PathView)
    ensures
        ({
            let joined = front.join(back).text;
            let rooted = back.text.len() > 0 && back.text[0] == 47;
            &&& rooted ==> joined == back.text
            &&& !rooted && front.text.len() == 0 ==> joined == back.text
            &&& !rooted && front.text.len() > 0 && front.text.last() == 47 ==> joined == front.text
                + back.text
            &&& !rooted && front.text.len() > 0 && front.text.last() != 47 ==> joined == front.text
                + seq![47u8] + back.text
        }),
{
    if front.text.len() == 0 {
        assert(front.text + back.text == back.text);
    }
    assert(front.text.push(47) + back.text == front.text + seq![47u8] + back.text);
}

/// The beginning of a text with given components is the shortest one.
proof fn beginning_is_shortest(text: Seq<u8>, route: RouteView, from: int, shorter: int)
    requires
        0 <= from <= text.len(),
        exists|n: int| from <= n <= text.len() && parsed(#[trigger] text.take(n)) == route,
    ensures
        ({
            let found = beginning(text, route, from);
            &&& from <= found.len() <= text.len()
            &&& found == text.take(found.len() as int)
            &&& parsed(found) == route
            &&& from <= shorter < found.len() ==> parsed(text.take(shorter)) != route
        }),
    decreases text.len() - from,
{
    assert(text.take(text.len() as int) == text);
    if from < text.len() && parsed(text.take(from)) != route {
        beginning_is_shortest(text, route, from + 1, shorter);
    }
}

/// The parent of a path is the shortest text that it begins with and that names all but the
/// last of its names. A path without names has none.
pub proof fn parent_is_shortest_beginning(path: PathView, shorter: int)
    ensures
        path.route().parts.len() == 0 ==> path.parent() is None,
        path.route().parts.len() > 0 ==> {
            &&& path.parent() matches Some(parent)
            &&& parent.text.len() <= path.text.len()
            &&& parent.text == path.text.take(parent.text.len() as int)
            &&& parent.route().rooted == path.route().rooted
            &&& parent.route().parts == path.route().parts.drop_last()
            &&& 0 <= shorter < parent.text.len() ==> parsed(path.text.take(shorter))
                != parent.route()
        },
{
    if path.route().parts.len() > 0 {
        parent_is_prefix(path.text);
        beginning_is_shortest(path.text, path.route().parent()->0, 0, shorter);
    }
}

/// Of a path, components are taken from the front: the root first, if it has one.
pub proof fn components_are_taken_from_front(parts: Seq<Seq<u8>>, count: nat)
    requires
        0 < count <= parts.len(),
    ensures
        ({
            let relative = RouteView { rooted: false, parts };
            let rooted = RouteView { rooted: true, parts };
            &&& relative.count() == parts.len()
            &&& rooted.count() == parts.len() + 1
            &&& relative.skip(0) == relative
            &&& rooted.skip(0) == rooted
            &&& relative.skip(count) == (RouteView {
                rooted: false,
                parts: parts.skip(count as int),
            })
            &&& rooted.skip(count) == (RouteView {
                rooted: false,
                parts: parts.skip(count - 1),
            })
            &&& rooted.skip(rooted.count()).parts.len() == 0
        }),
{
    assert(parts.skip(parts.len() as int) == Seq::<Seq<u8>>::empty());
}

/// A last dot is where no dot follows it.
proof fn last_dot_is(stem: Seq<u8>, ext: Seq<u8>)
    requires
        forall|k: int| 0 <= k < ext.len() ==> ext[k] != 46,
    ensures
        last_dot(ext) == -1,
        last_dot(stem + seq![46u8] + ext) == stem.len(),
    decreases ext.len(),
{
    let name = stem + seq![46u8] + ext;
    if ext.len() > 0 {
        assert(ext.last() != 46);
        assert(name.drop_last() == stem + seq![46u8] + ext.drop_last());
        assert(name.last() == ext.last());
        last_dot_is(stem, ext.drop_last());
    }
}

/// The extension of a name is what follows its last dot. A name without a dot has none, and
/// neither has one whose only dot begins it.
pub proof fn extension_follows_last_dot(stem: Seq<u8>, ext: Seq<u8>)
    requires
        forall|k: int| 0 <= k < ext.len() ==> ext[k] != 46,
    ensures
        stem.len() > 0 ==> extension_of(stem + seq![46u8] + ext) == Some(ext),
        extension_of(seq![46u8] + ext) is None,
        extension_of(ext) is None,
{
    last_dot_is(stem, ext);
    last_dot_is(Seq::empty(), ext);
    assert(Seq::<u8>::empty() + seq![46u8] + ext == seq![46u8] + ext);
    assert((stem + seq![46u8] + ext).skip(stem.len() as int + 1) == ext);
}

/// The extension of a path is that of its last name; `.` and `..` have none.
pub proof fn extension_of_path(path: PathView)
    ensures
        ({
            let parts = path.route().parts;
            &&& parts.len() == 0 ==> path.extension() is None
            &&& parts.len() > 0 && (parts.last() == seq![46u8] || parts.last() == seq![
                46u8,
                46u8,
            ]) ==> path.extension() is None
            &&& parts.len() > 0 && parts.last() != seq![46u8] && parts.last() != seq![46u8, 46u8]
                ==> path.extension() == extension_of(parts.last())
        }),
{
}

/// The first byte in which two byte strings differ decides which comes first. If one begins
/// with the other, the shorter comes first.
pub proof fn first_byte_decides(left: Seq<u8>, right: Seq<u8>, i: int)
    requires
        0 <= i <= left.len(),
        i <= right.len(),
        left.take(i) == right.take(i),
    ensures
        i < left.len() && i < right.len() && left[i] < right[i] ==> bytes_order(left, right) == -1,
        i < left.len() && i < right.len() && left[i] > right[i] ==> bytes_order(left, right) == 1,
        i == left.len() && i < right.len() ==> bytes_order(left, right) == -1,
        i < left.len() && i == right.len() ==> bytes_order(left, right) == 1,
        i == left.len() && i == right.len() ==> bytes_order(left, right) == 0,
    decreases i,
{
    if i > 0 {
        assert(left.take(i)[0] == left[0]);
        assert(right.take(i)[0] == right[0]);
        let (l, r) = (left.drop_first(), right.drop_first());
        let (first, second) = (l.take(i - 1), r.take(i - 1));
        assert forall|k: int| 0 <= k < first.len() implies first[k] == second[k] by {
            assert(left.take(i)[k + 1] == left[k + 1]);
            assert(right.take(i)[k + 1] == right[k + 1]);
        }
        assert(first == second);
        first_byte_decides(l, r, i - 1);
    }
}

/// Of names, `.` comes first, then `..`, then all others in the order of their bytes.
pub proof fn dots_come_first(left: Seq<u8>, right: Seq<u8>)
    ensures
        ({
            let one = seq![46u8];
            let two = seq![46u8, 46u8];
            let plain = left != one && left != two;
            let other = right != one && right != two;
            &&& name_order(left, left) == 0
            &&& name_order(one, two) == -1 && name_order(two, one) == 1
            &&& plain ==> name_order(one, left) == -1 && name_order(left, one) == 1
            &&& plain ==> name_order(two, left) == -1 && name_order(left, two) == 1
            &&& plain && other ==> name_order(left, right) == bytes_order(left, right)
        }),
{
    assert(seq![46u8].len() == 1 && seq![46u8, 46u8].len() == 2);
    assert(left.take(left.len() as int) == left);
    first_byte_decides(left, left, left.len() as int);
}

/// The names with the same order are the same names.
proof fn same_order_same_name(left: Seq<u8>, right: Seq<u8>)
    requires
        bytes_order(left, right) == 0,
    ensures
        left == right,
    decreases left.len(),
{
    if left.len() > 0 && right.len() > 0 {
        same_order_same_name(left.drop_first(), right.drop_first());
        assert(left == seq![left.first()] + left.drop_first());
        assert(right == seq![right.first()] + right.drop_first());
    } else {
        assert(left == right);
    }
}

/// The first name in which two lists of names differ decides which comes first. If one
/// begins with the other, the shorter comes first.
pub proof fn first_name_decides(left: Seq<Seq<u8>>, right: Seq<Seq<u8>>, i: int)
    requires
        0 <= i <= left.len(),
        i <= right.len(),
        left.take(i) == right.take(i),
    ensures
        i < left.len() && i < right.len() && left[i] != right[i] ==> names_order(left, right)
            == name_order(left[i], right[i]) && names_order(left, right) != 0,
        i == left.len() && i < right.len() ==> names_order(left, right) == -1,
        i < left.len() && i == right.len() ==> names_order(left, right) == 1,
        i == left.len() && i == right.len() ==> names_order(left, right) == 0,
    decreases i,
{
    if i > 0 {
        assert(left.take(i)[0] == left[0]);
        assert(right.take(i)[0] == right[0]);
        dots_come_first(left[0], left[0]);
        let (l, r) = (left.drop_first(), right.drop_first());
        let (first, second) = (l.take(i - 1), r.take(i - 1));
        assert forall|k: int| 0 <= k < first.len() implies first[k] == second[k] by {
            assert(left.take(i)[k + 1] == left[k + 1]);
            assert(right.take(i)[k + 1] == right[k + 1]);
        }
        assert(first == second);
        first_name_decides(l, r, i - 1);
    } else if left.len() > 0 && right.len() > 0 && left[0] != right[0] {
        if name_order(left[0], right[0]) == 0 {
            same_order_same_name(left[0], right[0]);
        }
    }
}

/// Lists of names with the same order are the same.
proof fn same_order_same_names(left: Seq<Seq<u8>>, right: Seq<Seq<u8>>)
    requires
        names_order(left, right) == 0,
    ensures
        left == right,
    decreases left.len(),
{
    if left.len() > 0 && right.len() > 0 {
        same_order_same_name(left.first(), right.first());
        same_order_same_names(left.drop_first(), right.drop_first());
        assert(left == seq![left.first()] + left.drop_first());
        assert(right == seq![right.first()] + right.drop_first());
    } else {
        assert(left == right);
    }
}

/// A list of names comes where it comes.
proof fn names_come_where_they_are(names: Seq<Seq<u8>>)
    ensures
        names_order(names, names) == 0,
{
    first_name_decides(names, names, names.len() as int);
}

/// Two paths come at the same place exactly if they have the same components.
pub proof fn equal_paths_are_the_same(left: PathView, right: PathView)
    ensures
        path_order(left, right) == Ordering::Equal <==> left.same_as(right),
        left.same_as(right) <==> left.route().rooted == right.route().rooted
            && left.route().parts == right.route().parts,
{
    let (l, r) = (left.route(), right.route());
    if l.rooted == r.rooted {
        if names_order(l.parts, r.parts) == 0 {
            same_order_same_names(l.parts, r.parts);
        }
        if l.parts == r.parts {
            names_come_where_they_are(l.parts);
        }
    }
}

/// Two paths compare as their components do.
pub proof fn paths_compare_by_components(left: FilePath, right: FilePath)
    ensures
        left.eq_spec(&right) <==> left@.same_as(right@),
        left.partial_cmp_spec(&right) == Some(path_order(left@, right@)),
{
}

/// Two rooted paths, or two others, come in the order of their names. The root comes before
/// any name, and the path without components before the root.
pub proof fn paths_order_by_components(left: PathView, right: PathView)
    ensures
        ({
            let (l, r) = (left.route(), right.route());
            let names = names_order(l.parts, r.parts);
            let order = path_order(left, right);
            &&& l.rooted == r.rooted && names == -1 ==> order == Ordering::Less
            &&& l.rooted == r.rooted && names == 1 ==> order == Ordering::Greater
            &&& l.rooted && !r.rooted && r.parts.len() > 0 ==> order == Ordering::Less
            &&& l.rooted && !r.rooted && r.parts.len() == 0 ==> order == Ordering::Greater
            &&& !l.rooted && r.rooted && l.parts.len() > 0 ==> order == Ordering::Greater
            &&& !l.rooted && r.rooted && l.parts.len() == 0 ==> order == Ordering::Less
        }),
{
}

/// A text is parted at its first colon or semicolon; without one there is nothing behind it.
pub proof fn first_mark_parts_text(front: Seq<char>, mark: char, back: Seq<char>)
    requires
        mark == ':' || mark == ';',
        forall|k: int| 0 <= k < front.len() ==> front[k] != ':' && front[k] != ';',
    ensures
        before_mark(front) == front,
        behind_mark(front) is None,
        before_mark(front + seq![mark] + back) == front,
        behind_mark(front + seq![mark] + back) == Some(back),
    decreases front.len(),
{
    let text = front + seq![mark] + back;
    if front.len() == 0 {
        assert(text.first() == mark);
        assert(text.drop_first() == back);
    } else {
        first_mark_parts_text(front.drop_first(), mark, back);
        assert(front.first() == front[0]);
        assert(text.first() == front[0]);
        assert(text.drop_first() == front.drop_first() + seq![mark] + back);
        assert(seq![front.first()] + front.drop_first() == front);
    }
}

/// A command is found exactly where there are commands and one is given for the extension.
pub proof fn command_is_found(commands: StringHashMap<String>, ext: Seq<char>)
    ensures
        command_for(None, Some(ext)) is None,
        command_for(Some(commands), None) is None,
        commands@.contains_key(ext) ==> command_for(Some(commands), Some(ext)) == Some(
            commands@[ext]@,
        ),
        !commands@.contains_key(ext) ==> command_for(Some(commands), Some(ext)) is None,
{
}

/// The operations that are not undone are the first ones, all but the last that are undone.
pub proof fn undone_operations_are_last(operations: Operation, i: int)
    requires
        operations.well_formed(),
    ensures
        operations.done().len() + operations.pos == operations.op_list@.len(),
        0 <= i < operations.done().len() ==> operations.done()[i] == operations.op_list@[i],
{
}

} // verus!
