//! The components of Unix paths.
//!
//! A path is rooted or relative, and holds the names between its slashes. Empty
//! names and `.` are dropped, except for a `.` that a relative path begins with;
//! `..` is kept as a name.

use vstd::prelude::*;

verus! {

/// `/`
pub const SLASH: u8 = 47;

/// `.`
pub const DOT: u8 = 46;

/// The components of a path.
pub struct Route {
    pub rooted: bool,
    pub parts: Vec<Vec<u8>>,
}

/// What the components of a path are: whether it begins at the root, and its names.
#[verifier::ext_equal]
pub struct RouteView {
    pub rooted: bool,
    pub parts: Seq<Seq<u8>>,
}

/// The contents of a list of byte strings.
pub open spec fn byte_strings(parts: Seq<Vec<u8>>) -> Seq<Seq<u8>> {
    parts.map_values(|p: Vec<u8>| p@)
}

impl View for Route {
    type V = RouteView;

    open spec fn view(&self) -> RouteView {
        RouteView { rooted: self.rooted, parts: byte_strings(self.parts@) }
    }
}

/// The pieces of a text between the slashes.
pub open spec fn pieces(text: Seq<u8>) -> Seq<Seq<u8>>
    decreases text.len(),
{
    if text.len() == 0 {
        seq![Seq::empty()]
    } else {
        let before = pieces(text.drop_last());
        if text.last() == SLASH {
            before.push(Seq::empty())
        } else {
            before.update(before.len() - 1, before.last().push(text.last()))
        }
    }
}

/// A piece that is no component: the empty one, and `.` unless it leads.
pub open spec fn is_dropped(piece: Seq<u8>, leads: bool) -> bool {
    piece.len() == 0 || (piece == seq![DOT] && !leads)
}

/// The pieces that are components. Only the first piece of a relative path leads.
pub open spec fn components(pieces: Seq<Seq<u8>>, rooted: bool) -> Seq<Seq<u8>>
    decreases pieces.len(),
{
    if pieces.len() == 0 {
        Seq::empty()
    } else {
        let before = components(pieces.drop_last(), rooted);
        if is_dropped(pieces.last(), !rooted && pieces.len() == 1) {
            before
        } else {
            before.push(pieces.last())
        }
    }
}

/// The path that a text names.
pub open spec fn parsed(text: Seq<u8>) -> RouteView {
    let rooted = text.len() > 0 && text[0] == SLASH;
    RouteView { rooted, parts: components(pieces(text), rooted) }
}

/// The names with a slash in front of each but the first.
pub open spec fn slashed(parts: Seq<Seq<u8>>) -> Seq<u8>
    decreases parts.len(),
{
    if parts.len() == 0 {
        Seq::empty()
    } else if parts.len() == 1 {
        parts.last()
    } else {
        slashed(parts.drop_last()).push(SLASH) + parts.last()
    }
}

/// A name that can stand as a component.
pub open spec fn is_name(name: Seq<u8>) -> bool {
    name.len() > 0 && !name.contains(SLASH)
}

impl RouteView {
    /// The components are names, and `.` is none of them unless it leads a
    /// relative path.
    pub open spec fn well_formed(self) -> bool {
        forall|i: int|
            0 <= i < self.parts.len() ==> is_name(#[trigger] self.parts[i]) && !is_dropped(
                self.parts[i],
                !self.rooted && i == 0,
            )
    }

    /// The text of the path.
    pub open spec fn text(self) -> Seq<u8> {
        if self.rooted {
            seq![SLASH] + slashed(self.parts)
        } else {
            slashed(self.parts)
        }
    }

    /// `other` as seen from this path: a rooted path stands for itself, and the
    /// `.` that a relative one leads with is dropped behind another component.
    pub open spec fn join(self, other: RouteView) -> RouteView {
        if other.rooted {
            other
        } else if (self.rooted || self.parts.len() > 0) && other.parts.len() > 0
            && other.parts.first() == seq![DOT] {
            RouteView { rooted: self.rooted, parts: self.parts + other.parts.drop_first() }
        } else {
            RouteView { rooted: self.rooted, parts: self.parts + other.parts }
        }
    }

    /// The path without its last component.
    pub open spec fn parent(self) -> Option<RouteView> {
        if self.parts.len() == 0 {
            None
        } else {
            Some(RouteView { rooted: self.rooted, parts: self.parts.drop_last() })
        }
    }

    /// The number of components; the root is one.
    pub open spec fn count(self) -> nat {
        if self.rooted {
            self.parts.len() + 1
        } else {
            self.parts.len()
        }
    }

    /// What is left behind the first `count` components.
    pub open spec fn skip(self, count: nat) -> RouteView {
        if count == 0 {
            self
        } else {
            let names = if self.rooted {
                (count - 1) as nat
            } else {
                count
            };
            RouteView { rooted: false, parts: crate::text::suffix(self.parts, names) }
        }
    }

    /// What follows the last dot of the last name, unless that name begins with it.
    pub open spec fn extension(self) -> Option<Seq<u8>> {
        if self.parts.len() == 0 || self.parts.last() == seq![DOT] || self.parts.last() == seq![
            DOT,
            DOT,
        ] {
            None
        } else {
            extension_of(self.parts.last())
        }
    }
}

/// The position of the last dot, or -1.
pub open spec fn last_dot(name: Seq<u8>) -> int
    decreases name.len(),
{
    if name.len() == 0 {
        -1
    } else if name.last() == DOT {
        name.len() - 1
    } else {
        last_dot(name.drop_last())
    }
}

/// What follows the last dot of a name, unless the name begins with it.
pub open spec fn extension_of(name: Seq<u8>) -> Option<Seq<u8>> {
    let dot = last_dot(name);
    if dot <= 0 {
        None
    } else {
        Some(name.skip(dot + 1))
    }
}

/// What kind of component a name is: 1 for `.`, 2 for `..` and 3 for any other.
pub open spec fn name_kind(name: Seq<u8>) -> int {
    if name == seq![DOT] {
        1
    } else if name == seq![DOT, DOT] {
        2
    } else {
        3
    }
}

/// Which of two byte strings comes first: -1, 0 or 1 as the left one comes before, is or
/// comes behind the right one.
pub open spec fn bytes_order(left: Seq<u8>, right: Seq<u8>) -> int
    decreases left.len(),
{
    if left.len() == 0 {
        if right.len() == 0 {
            0
        } else {
            -1
        }
    } else if right.len() == 0 {
        1
    } else if left.first() < right.first() {
        -1
    } else if right.first() < left.first() {
        1
    } else {
        bytes_order(left.drop_first(), right.drop_first())
    }
}

/// Which of two names comes first: `.` before `..`, and that before any other.
pub open spec fn name_order(left: Seq<u8>, right: Seq<u8>) -> int {
    if name_kind(left) < name_kind(right) {
        -1
    } else if name_kind(right) < name_kind(left) {
        1
    } else {
        bytes_order(left, right)
    }
}

/// Which of two lists of names comes first, name by name.
pub open spec fn names_order(left: Seq<Seq<u8>>, right: Seq<Seq<u8>>) -> int
    decreases left.len(),
{
    if left.len() == 0 {
        if right.len() == 0 {
            0
        } else {
            -1
        }
    } else if right.len() == 0 {
        1
    } else if name_order(left.first(), right.first()) != 0 {
        name_order(left.first(), right.first())
    } else {
        names_order(left.drop_first(), right.drop_first())
    }
}

/// Which of two lists of components comes first, component by component: the root comes
/// before any name.
pub open spec fn route_order(left: RouteView, right: RouteView) -> int {
    if left.rooted == right.rooted {
        names_order(left.parts, right.parts)
    } else if left.rooted {
        if right.parts.len() == 0 {
            1
        } else {
            -1
        }
    } else {
        if left.parts.len() == 0 {
            -1
        } else {
            1
        }
    }
}

/// Compares two byte strings.
fn order_bytes(left: &Vec<u8>, right: &Vec<u8>) -> (order: i8)
    ensures
        order == bytes_order(left@, right@),
{
    let mut at: usize = 0;
    assert(left@.skip(0) == left@ && right@.skip(0) == right@);
    while at < left.len() && at < right.len()
        invariant
            at <= left@.len(),
            at <= right@.len(),
            bytes_order(left@.skip(at as int), right@.skip(at as int)) == bytes_order(left@, right@),
        decreases left@.len() - at,
    {
        if left[at] < right[at] {
            return -1;
        }
        if right[at] < left[at] {
            return 1;
        }
        assert(left@.skip(at as int).drop_first() == left@.skip(at + 1));
        assert(right@.skip(at as int).drop_first() == right@.skip(at + 1));
        at += 1;
    }
    if at < left.len() {
        1
    } else if at < right.len() {
        -1
    } else {
        0
    }
}

/// What kind of component a name is.
fn kind_of(name: &Vec<u8>) -> (kind: u8)
    ensures
        kind == name_kind(name@),
{
    if name.len() == 1 && name[0] == DOT {
        assert(name@ == seq![DOT]);
        1
    } else if name.len() == 2 && name[0] == DOT && name[1] == DOT {
        assert(name@ == seq![DOT, DOT]);
        2
    } else {
        3
    }
}

/// Compares two names.
fn order_names(left: &Vec<u8>, right: &Vec<u8>) -> (order: i8)
    ensures
        order == name_order(left@, right@),
{
    let l = kind_of(left);
    let r = kind_of(right);
    if l < r {
        -1
    } else if r < l {
        1
    } else {
        order_bytes(left, right)
    }
}

/// A copy of a byte string.
pub fn copy_bytes(bytes: &Vec<u8>) -> (copied: Vec<u8>)
    ensures
        copied@ == bytes@,
{
    let mut copied: Vec<u8> = Vec::new();
    let mut at: usize = 0;
    while at < bytes.len()
        invariant
            at <= bytes@.len(),
            copied@ == bytes@.take(at as int),
        decreases bytes@.len() - at,
    {
        copied.push(bytes[at]);
        at += 1;
        assert(bytes@.take(at as int) == bytes@.take(at - 1).push(bytes@[at - 1]));
    }
    assert(bytes@.take(bytes@.len() as int) == bytes@);
    copied
}

/// Compares two byte strings.
pub fn same_bytes(left: &Vec<u8>, right: &Vec<u8>) -> (same: bool)
    ensures
        same == (left@ == right@),
{
    if left.len() != right.len() {
        return false;
    }
    let mut at: usize = 0;
    while at < left.len()
        invariant
            at <= left@.len() == right@.len(),
            forall|i: int| 0 <= i < at ==> left@[i] == right@[i],
        decreases left@.len() - at,
    {
        if left[at] != right[at] {
            return false;
        }
        at += 1;
    }
    assert(left@ == right@);
    true
}

/// Copies of some of the names of a path, from one position up to another.
fn copy_parts(parts: &Vec<Vec<u8>>, from: usize, to: usize) -> (copied: Vec<Vec<u8>>)
    requires
        from <= to <= parts@.len(),
    ensures
        byte_strings(copied@) == byte_strings(parts@).subrange(from as int, to as int),
{
    let mut copied: Vec<Vec<u8>> = Vec::new();
    let mut at: usize = from;
    while at < to
        invariant
            from <= at <= to <= parts@.len(),
            byte_strings(copied@) == byte_strings(parts@).subrange(from as int, at as int),
        decreases to - at,
    {
        let ghost before = copied@;
        copied.push(copy_bytes(&parts[at]));
        at += 1;
        assert(byte_strings(copied@) == byte_strings(before).push(parts@[at - 1]@));
        assert(byte_strings(parts@).subrange(from as int, at as int) == byte_strings(
            parts@,
        ).subrange(from as int, at - 1).push(parts@[at - 1]@));
    }
    copied
}

impl Clone for Route {
    fn clone(&self) -> (copied: Self)
        ensures
            copied@ == self@,
    {
        let parts = copy_parts(&self.parts, 0, self.parts.len());
        assert(byte_strings(parts@) == byte_strings(self.parts@));
        Route { rooted: self.rooted, parts }
    }
}

impl Route {
    /// Whether two paths have the same components.
    pub fn same(&self, other: &Route) -> (same: bool)
        ensures
            same == (self@ == other@),
    {
        if self.rooted != other.rooted || self.parts.len() != other.parts.len() {
            assert(self@.parts.len() == self.parts@.len() && other@.parts.len()
                == other.parts@.len());
            return false;
        }
        let mut at: usize = 0;
        while at < self.parts.len()
            invariant
                at <= self.parts@.len() == other.parts@.len(),
                forall|i: int| 0 <= i < at ==> self.parts@[i]@ == #[trigger] other.parts@[i]@,
            decreases self.parts@.len() - at,
        {
            if !same_bytes(&self.parts[at], &other.parts[at]) {
                assert(self@.parts[at as int] != other@.parts[at as int]);
                return false;
            }
            at += 1;
        }
        assert(self@.parts == other@.parts);
        true
    }

    /// Compares two lists of components.
    pub fn order(&self, other: &Route) -> (order: i8)
        ensures
            order == route_order(self@, other@),
    {
        assert(self@.parts.len() == self.parts@.len() && other@.parts.len() == other.parts@.len());
        if self.rooted && !other.rooted {
            return if other.parts.len() == 0 {
                1
            } else {
                -1
            };
        }
        if !self.rooted && other.rooted {
            return if self.parts.len() == 0 {
                -1
            } else {
                1
            };
        }
        let ghost l = self@.parts;
        let ghost r = other@.parts;
        let mut at: usize = 0;
        assert(l.skip(0) == l && r.skip(0) == r);
        while at < self.parts.len() && at < other.parts.len()
            invariant
                l == self@.parts,
                r == other@.parts,
                l.len() == self.parts@.len(),
                r.len() == other.parts@.len(),
                at <= l.len(),
                at <= r.len(),
                names_order(l.skip(at as int), r.skip(at as int)) == names_order(l, r),
                self.rooted == other.rooted,
            decreases l.len() - at,
        {
            assert(l.skip(at as int).first() == self.parts@[at as int]@);
            assert(r.skip(at as int).first() == other.parts@[at as int]@);
            let order = order_names(&self.parts[at], &other.parts[at]);
            if order != 0 {
                return order;
            }
            assert(l.skip(at as int).drop_first() == l.skip(at + 1));
            assert(r.skip(at as int).drop_first() == r.skip(at + 1));
            at += 1;
        }
        if at < self.parts.len() {
            1
        } else if at < other.parts.len() {
            -1
        } else {
            0
        }
    }

    /// The path without its last component, if it has one.
    pub fn parent(&self) -> (parent: Option<Route>)
        ensures
            (match parent {
                Some(p) => Some(p@),
                None => None,
            }) == self@.parent(),
    {
        if self.parts.len() == 0 {
            None
        } else {
            let parts = copy_parts(&self.parts, 0, self.parts.len() - 1);
            assert(byte_strings(parts@) == self@.parts.drop_last());
            Some(Route { rooted: self.rooted, parts })
        }
    }

    /// The path that a text names.
    pub fn parse(text: &[u8]) -> (path: Route)
        ensures
            path@ == parsed(text@),
    {
        let rooted = text.len() > 0 && text[0] == SLASH;
        let mut parts: Vec<Vec<u8>> = Vec::new();
        let mut current: Vec<u8> = Vec::new();
        let mut leads = !rooted;
        let ghost mut done: Seq<Seq<u8>> = Seq::empty();
        let mut at: usize = 0;
        assert(text@.take(0) == Seq::<u8>::empty());
        assert(pieces(text@.take(0)) == done.push(current@));
        while at < text.len()
            invariant
                at <= text@.len(),
                pieces(text@.take(at as int)) == done.push(current@),
                components(done, rooted) == byte_strings(parts@),
                leads == (!rooted && done.len() == 0),
            decreases text@.len() - at,
        {
            let byte = text[at];
            at += 1;
            assert(text@.take(at as int).drop_last() == text@.take(at - 1));
            if byte == SLASH {
                let ghost piece = current@;
                Self::keep(&mut parts, current, leads);
                current = Vec::new();
                leads = false;
                proof {
                    assert(done.push(piece).drop_last() == done);
                    done = done.push(piece);
                }
            } else {
                let ghost piece = current@;
                current.push(byte);
                assert(done.push(piece).update(done.len() as int, current@) == done.push(current@));
            }
        }
        assert(text@.take(text@.len() as int) == text@);
        assert(done.push(current@).drop_last() == done);
        Self::keep(&mut parts, current, leads);
        Route { rooted, parts }
    }

    /// Appends a piece unless it is no component.
    fn keep(parts: &mut Vec<Vec<u8>>, piece: Vec<u8>, leads: bool)
        ensures
            byte_strings(final(parts)@) == if is_dropped(piece@, leads) {
                byte_strings(old(parts)@)
            } else {
                byte_strings(old(parts)@).push(piece@)
            },
    {
        let is_dot = piece.len() == 1 && piece[0] == DOT;
        assert(is_dot ==> piece@ =~= seq![DOT]);
        if piece.len() > 0 && (leads || !is_dot) {
            let ghost before = parts@;
            let ghost bytes = piece@;
            parts.push(piece);
            assert(byte_strings(parts@) == byte_strings(before).push(bytes));
        }
    }

    /// The text of the path.
    pub fn to_bytes(&self) -> (text: Vec<u8>)
        ensures
            text@ == self@.text(),
    {
        let mut text: Vec<u8> = Vec::new();
        if self.rooted {
            text.push(SLASH);
        }
        let ghost front = text@;
        let mut at: usize = 0;
        assert(self@.parts.take(0) == Seq::<Seq<u8>>::empty());
        assert(text@ == front + slashed(self@.parts.take(0)));
        while at < self.parts.len()
            invariant
                at <= self.parts@.len(),
                text@ == front + slashed(self@.parts.take(at as int)),
            decreases self.parts@.len() - at,
        {
            let ghost before = text@;
            if at > 0 {
                text.push(SLASH);
            }
            let mut part = copy_bytes(&self.parts[at]);
            text.append(&mut part);
            at += 1;
            let ghost names = self@.parts.take(at as int);
            assert(names.drop_last() == self@.parts.take(at - 1));
            assert(names.last() == self.parts@[at - 1]@);
            if at == 1 {
                assert(text@ == front + slashed(names));
            } else {
                assert(text@ == before.push(SLASH) + names.last());
                assert(text@ == front + slashed(names));
            }
        }
        assert(self@.parts.take(self.parts@.len() as int) == self@.parts);
        assert(text@ == self@.text());
        text
    }

    /// What is left of this path behind as many components as `root` has.
    pub fn behind(&self, root: &Route) -> (rest: Route)
        ensures
            rest@ == self@.skip(root@.count()),
    {
        if !root.rooted && root.parts.len() == 0 {
            return self.clone();
        }
        let skipped: usize = if self.rooted == root.rooted {
            root.parts.len()
        } else if self.rooted {
            root.parts.len() - 1
        } else if root.parts.len() < self.parts.len() {
            root.parts.len() + 1
        } else {
            self.parts.len()
        };
        let from: usize = if skipped < self.parts.len() {
            skipped
        } else {
            self.parts.len()
        };
        let rest = Route { rooted: false, parts: copy_parts(&self.parts, from, self.parts.len()) };
        assert(rest@.parts == crate::text::suffix(self@.parts, skipped as nat));
        rest
    }

    /// What follows the last dot of the last name, unless that name begins with it.
    pub fn extension(&self) -> (ext: Option<Vec<u8>>)
        ensures
            (match ext {
                Some(e) => Some(e@),
                None => None,
            }) == self@.extension(),
    {
        if self.parts.len() == 0 {
            return None;
        }
        let name = &self.parts[self.parts.len() - 1];
        assert(name@ == self@.parts.last());
        if name.len() == 1 && name[0] == DOT {
            assert(name@ == seq![DOT]);
            return None;
        }
        if name.len() == 2 && name[0] == DOT && name[1] == DOT {
            assert(name@ == seq![DOT, DOT]);
            return None;
        }
        let mut end: usize = name.len();
        assert(name@.take(end as int) == name@);
        while end > 0 && name[end - 1] != DOT
            invariant
                end <= name@.len(),
                last_dot(name@.take(end as int)) == last_dot(name@),
            decreases end,
        {
            assert(name@.take(end as int).drop_last() == name@.take(end - 1));
            end -= 1;
        }
        if end <= 1 {
            return None;
        }
        let mut ext: Vec<u8> = Vec::new();
        let mut at: usize = end;
        while at < name.len()
            invariant
                end <= at <= name@.len(),
                ext@ == name@.subrange(end as int, at as int),
            decreases name@.len() - at,
        {
            ext.push(name[at]);
            at += 1;
            assert(name@.subrange(end as int, at as int) == name@.subrange(
                end as int,
                at - 1,
            ).push(name@[at - 1]));
        }
        assert(name@.subrange(end as int, name@.len() as int) == name@.skip(end as int));
        Some(ext)
    }
}

/// A text without slashes is one piece.
proof fn one_piece(text: Seq<u8>)
    requires
        !text.contains(SLASH),
    ensures
        pieces(text) == seq![text],
    decreases text.len(),
{
    if text.len() > 0 {
        let rest = text.drop_last();
        assert(!rest.contains(SLASH)) by {
            if rest.contains(SLASH) {
                let k = choose|k: int| 0 <= k < rest.len() && rest[k] == SLASH;
                assert(text[k] == SLASH);
            }
        }
        one_piece(rest);
        assert(text[text.len() - 1] != SLASH);
        assert(rest.push(text.last()) == text);
        assert(seq![rest].update(0, text) == seq![text]);
    } else {
        assert(text == Seq::<u8>::empty());
    }
}

/// What follows the last slash is the last piece.
proof fn last_piece(front: Seq<u8>, back: Seq<u8>)
    requires
        !back.contains(SLASH),
    ensures
        pieces(front.push(SLASH) + back) == pieces(front).push(back),
    decreases back.len(),
{
    let text = front.push(SLASH) + back;
    if back.len() == 0 {
        assert(text.drop_last() == front);
        assert(back == Seq::<u8>::empty());
    } else {
        let rest = back.drop_last();
        assert(!rest.contains(SLASH)) by {
            if rest.contains(SLASH) {
                let k = choose|k: int| 0 <= k < rest.len() && rest[k] == SLASH;
                assert(back[k] == SLASH);
            }
        }
        last_piece(front, rest);
        assert(text.drop_last() == front.push(SLASH) + rest);
        assert(back[back.len() - 1] != SLASH);
        assert(rest.push(back.last()) == back);
        assert(pieces(front).push(rest).update(pieces(front).len() as int, back) == pieces(
            front,
        ).push(back));
    }
}

/// The pieces of names with slashes between them are those names.
proof fn pieces_of_names(parts: Seq<Seq<u8>>)
    requires
        parts.len() > 0,
        forall|i: int| 0 <= i < parts.len() ==> is_name(#[trigger] parts[i]),
    ensures
        pieces(slashed(parts)) == parts,
        pieces(seq![SLASH] + slashed(parts)) == seq![Seq::<u8>::empty()] + parts,
    decreases parts.len(),
{
    let last = parts.last();
    assert(is_name(parts[parts.len() - 1]));
    if parts.len() == 1 {
        one_piece(last);
        assert(parts == seq![last]);
        let nothing = Seq::<u8>::empty();
        last_piece(nothing, last);
        assert(nothing.push(SLASH) + last == seq![SLASH] + last);
        assert(pieces(nothing) == seq![nothing]);
        assert(seq![nothing].push(last) == seq![nothing] + parts);
    } else {
        let front = parts.drop_last();
        pieces_of_names(front);
        last_piece(slashed(front), last);
        assert(front.push(last) == parts);
        last_piece(seq![SLASH] + slashed(front), last);
        assert((seq![SLASH] + slashed(front)).push(SLASH) + last == seq![SLASH] + slashed(parts));
        assert((seq![Seq::<u8>::empty()] + front).push(last) == seq![Seq::<u8>::empty()] + parts);
    }
}

/// All names of a well-formed path are components.
proof fn components_of_names(parts: Seq<Seq<u8>>, rooted: bool)
    requires
        (RouteView { rooted, parts }).well_formed(),
    ensures
        !rooted ==> components(parts, rooted) == parts,
        rooted ==> components(seq![Seq::<u8>::empty()] + parts, rooted) == parts,
    decreases parts.len(),
{
    let nothing = Seq::<u8>::empty();
    let path = RouteView { rooted, parts };
    if parts.len() > 0 {
        let front = parts.drop_last();
        let shorter = RouteView { rooted, parts: front };
        assert forall|i: int| 0 <= i < shorter.parts.len() implies is_name(
            #[trigger] shorter.parts[i],
        ) && !is_dropped(shorter.parts[i], !rooted && i == 0) by {
            assert(shorter.parts[i] == path.parts[i]);
        }
        components_of_names(front, rooted);
        assert(front.push(parts.last()) == parts);
        assert((seq![nothing] + parts).drop_last() == seq![nothing] + front);
        assert((seq![nothing] + parts).last() == parts.last());
        assert(is_name(path.parts[parts.len() - 1]));
    } else {
        assert(components(Seq::<Seq<u8>>::empty(), rooted) == Seq::<Seq<u8>>::empty());
        assert(parts == Seq::<Seq<u8>>::empty());
        assert((seq![nothing] + parts).drop_last() == Seq::<Seq<u8>>::empty());
    }
}

/// A path is what its text names: parsing undoes writing.
pub proof fn text_names_path(path: RouteView)
    requires
        path.well_formed(),
    ensures
        parsed(path.text()) == path,
{
    let parts = path.parts;
    components_of_names(parts, path.rooted);
    if parts.len() > 0 {
        assert forall|i: int| 0 <= i < parts.len() implies is_name(#[trigger] parts[i]) by {}
        pieces_of_names(parts);
        if !path.rooted {
            starts_without_slash(parts);
        }
    } else {
        assert(path.text() == if path.rooted {
            seq![SLASH]
        } else {
            Seq::empty()
        });
        assert(seq![SLASH].drop_last() == Seq::<u8>::empty());
        assert(seq![Seq::<u8>::empty()].drop_last() == Seq::<Seq<u8>>::empty());
        assert(seq![Seq::<u8>::empty(), Seq::<u8>::empty()].drop_last() == seq![Seq::<u8>::empty()]);
        assert(pieces(Seq::<u8>::empty()) == seq![Seq::<u8>::empty()]);
        if path.rooted {
            assert(pieces(path.text()) == seq![Seq::<u8>::empty(), Seq::<u8>::empty()]);
            assert(components(seq![Seq::<u8>::empty()], true) == Seq::<Seq<u8>>::empty());
        } else {
            assert(pieces(path.text()) == seq![Seq::<u8>::empty()]);
        }
    }
    assert(parsed(path.text()).parts == path.parts);
}

/// Names with slashes between them do not begin with a slash.
proof fn starts_without_slash(parts: Seq<Seq<u8>>)
    requires
        parts.len() > 0,
        forall|i: int| 0 <= i < parts.len() ==> is_name(#[trigger] parts[i]),
    ensures
        slashed(parts).len() > 0,
        slashed(parts)[0] != SLASH,
    decreases parts.len(),
{
    if parts.len() == 1 {
        let name = parts.last();
        assert(is_name(parts[0]));
        assert(name.contains(name[0]));
    } else {
        let front = parts.drop_last();
        starts_without_slash(front);
    }
}

/// No piece of a text holds a slash.
proof fn pieces_hold_no_slash(text: Seq<u8>)
    ensures
        pieces(text).len() > 0,
        forall|i: int| 0 <= i < pieces(text).len() ==> !(#[trigger] pieces(text)[i]).contains(SLASH),
    decreases text.len(),
{
    if text.len() > 0 {
        pieces_hold_no_slash(text.drop_last());
        let before = pieces(text.drop_last());
        if text.last() != SLASH {
            let last = before.last();
            assert(!before[before.len() - 1].contains(SLASH));
            assert(!last.push(text.last()).contains(SLASH)) by {
                if last.push(text.last()).contains(SLASH) {
                    let k = choose|k: int|
                        0 <= k < last.len() + 1 && last.push(text.last())[k] == SLASH;
                    assert(last[k] == SLASH);
                }
            }
        }
    }
}

/// The components among pieces without slashes form a path.
proof fn components_form_path(pieces: Seq<Seq<u8>>, rooted: bool)
    requires
        forall|i: int| 0 <= i < pieces.len() ==> !(#[trigger] pieces[i]).contains(SLASH),
    ensures
        (RouteView { rooted, parts: components(pieces, rooted) }).well_formed(),
        components(pieces, rooted).len() <= pieces.len(),
    decreases pieces.len(),
{
    let path = RouteView { rooted, parts: components(pieces, rooted) };
    if pieces.len() > 0 {
        let rest = pieces.drop_last();
        assert forall|i: int| 0 <= i < rest.len() implies !(#[trigger] rest[i]).contains(SLASH) by {
            assert(rest[i] == pieces[i]);
        }
        components_form_path(rest, rooted);
        let before = RouteView { rooted, parts: components(rest, rooted) };
        assert(!pieces[pieces.len() - 1].contains(SLASH));
        assert forall|i: int| 0 <= i < path.parts.len() implies is_name(#[trigger] path.parts[i])
            && !is_dropped(path.parts[i], !rooted && i == 0) by {
            if i < before.parts.len() {
                assert(path.parts[i] == before.parts[i]);
            }
        }
    }
}

/// A text always names a well-formed path.
pub proof fn parsed_is_well_formed(text: Seq<u8>)
    ensures
        parsed(text).well_formed(),
{
    pieces_hold_no_slash(text);
    components_form_path(pieces(text), text.len() > 0 && text[0] == SLASH);
}

/// The pieces of two texts with a slash between them are those of both.
proof fn pieces_of_both(front: Seq<u8>, back: Seq<u8>)
    ensures
        pieces(front.push(SLASH) + back) == pieces(front) + pieces(back),
        pieces(back).len() > 0,
    decreases back.len(),
{
    let text = front.push(SLASH) + back;
    if back.len() == 0 {
        assert(text.drop_last() == front);
        assert(pieces(front) + pieces(back) == pieces(front).push(Seq::empty()));
    } else {
        let rest = back.drop_last();
        pieces_of_both(front, rest);
        assert(text.drop_last() == front.push(SLASH) + rest);
        let p = pieces(front);
        let q = pieces(rest);
        if back.last() == SLASH {
            assert((p + q).push(Seq::empty()) == p + q.push(Seq::empty()));
        } else {
            let last = q.last().push(back.last());
            assert((p + q).last() == q.last());
            assert((p + q).update((p + q).len() - 1, last) == p + q.update(q.len() - 1, last));
        }
    }
}

/// The pieces that are components where none of them leads.
spec fn inner_components(pieces: Seq<Seq<u8>>) -> Seq<Seq<u8>>
    decreases pieces.len(),
{
    if pieces.len() == 0 {
        Seq::empty()
    } else {
        let before = inner_components(pieces.drop_last());
        if is_dropped(pieces.last(), false) {
            before
        } else {
            before.push(pieces.last())
        }
    }
}

/// The components of pieces are those of the first ones and then of the others.
proof fn components_of_both(first: Seq<Seq<u8>>, rest: Seq<Seq<u8>>, rooted: bool)
    requires
        first.len() > 0,
    ensures
        components(first + rest, rooted) == components(first, rooted) + inner_components(rest),
    decreases rest.len(),
{
    if rest.len() == 0 {
        assert(first + rest == first);
        assert(components(first, rooted) + inner_components(rest) == components(first, rooted));
    } else {
        components_of_both(first, rest.drop_last(), rooted);
        assert((first + rest).drop_last() == first + rest.drop_last());
        assert((first + rest).last() == rest.last());
        let c = components(first, rooted);
        let d = inner_components(rest.drop_last());
        assert((c + d).push(rest.last()) == c + d.push(rest.last()));
    }
}

/// The components of a relative path are a `.` if it begins with that, and those that it
/// has where none leads. None of the latter is a `.`.
proof fn leading_component(pieces: Seq<Seq<u8>>)
    requires
        pieces.len() > 0,
    ensures
        components(pieces, false) == (if pieces[0] == seq![DOT] {
            seq![seq![DOT]]
        } else {
            Seq::empty()
        }) + inner_components(pieces),
        !inner_components(pieces).contains(seq![DOT]),
    decreases pieces.len(),
{
    let before = pieces.drop_last();
    if pieces.len() == 1 {
        assert(before == Seq::<Seq<u8>>::empty());
        assert(components(before, false) == Seq::<Seq<u8>>::empty());
        assert(inner_components(before) == Seq::<Seq<u8>>::empty());
        if pieces[0] == seq![DOT] {
            assert(components(pieces, false) == seq![seq![DOT]]);
            assert(inner_components(pieces) == Seq::<Seq<u8>>::empty());
        }
    } else {
        leading_component(before);
        assert(before[0] == pieces[0]);
        let lead = if pieces[0] == seq![DOT] {
            seq![seq![DOT]]
        } else {
            Seq::empty()
        };
        let inner = inner_components(before);
        assert((lead + inner).push(pieces.last()) == lead + inner.push(pieces.last()));
        if inner.push(pieces.last()).contains(seq![DOT]) && pieces.last() != seq![DOT] {
            let k = choose|k: int|
                0 <= k < inner.push(pieces.last()).len() && inner.push(pieces.last())[k] == seq![
                    DOT,
                ];
            assert(inner[k] == seq![DOT]);
        }
    }
}

/// A relative path behind another and a slash leads on from there.
pub proof fn parsed_join(front: Seq<u8>, back: Seq<u8>)
    requires
        front.len() > 0,
        back.len() == 0 || back[0] != SLASH,
    ensures
        parsed(front.push(SLASH) + back) == parsed(front).join(parsed(back)),
        front.last() == SLASH ==> parsed(front + back) == parsed(front).join(parsed(back)),
{
    let rooted = front[0] == SLASH;
    let p = pieces(front);
    let q = pieces(back);
    pieces_hold_no_slash(front);
    pieces_of_both(front, back);
    components_of_both(p, q, rooted);
    leading_component(q);
    first_piece(front);
    let route = parsed(front);
    let other = parsed(back);
    if !rooted {
        leading_component(p);
        if p[0] == seq![DOT] {
            assert(route.parts[0] == seq![DOT]);
        } else {
            inner_holds(p);
        }
    }
    assert(route.rooted || route.parts.len() > 0);
    let inner = inner_components(q);
    if q[0] == seq![DOT] {
        assert(other.parts.first() == seq![DOT]);
        assert(other.parts.drop_first() == inner);
    } else {
        assert(other.parts == inner);
        if inner.len() > 0 {
            assert(inner.contains(inner[0]));
        }
    }
    assert((front.push(SLASH) + back)[0] == front[0]);
    assert(parsed(front.push(SLASH) + back) == route.join(other));
    if front.last() == SLASH {
        let shorter = front.drop_last();
        assert(front == shorter.push(SLASH));
        pieces_of_both(shorter, back);
        pieces_of_both(shorter, Seq::empty());
        assert(front + back == shorter.push(SLASH) + back);
        assert(shorter.push(SLASH) + Seq::<u8>::empty() == front);
        pieces_hold_no_slash(shorter);
        components_of_both(pieces(shorter), q, rooted);
        assert(pieces(Seq::<u8>::empty()) == seq![Seq::<u8>::empty()]);
        assert(p == pieces(shorter).push(Seq::empty()));
        assert(p.drop_last() == pieces(shorter));
        assert(components(p, rooted) == components(pieces(shorter), rooted));
        assert((front + back)[0] == front[0]);
        assert(parsed(front + back) == route.join(other));
    }
}

/// The first piece of a text that does not begin with a slash is not empty.
proof fn first_piece(text: Seq<u8>)
    requires
        text.len() > 0,
    ensures
        pieces(text).len() > 0,
        text[0] != SLASH ==> pieces(text)[0].len() > 0,
    decreases text.len(),
{
    let before = text.drop_last();
    if text.len() == 1 {
        assert(before == Seq::<u8>::empty());
        assert(pieces(before) == seq![Seq::<u8>::empty()]);
    } else {
        first_piece(before);
        assert(before[0] == text[0]);
    }
}

/// Among pieces of which the first is a component, there is one.
proof fn inner_holds(pieces: Seq<Seq<u8>>)
    requires
        pieces.len() > 0,
        !is_dropped(pieces[0], false),
    ensures
        inner_components(pieces).len() > 0,
    decreases pieces.len(),
{
    if pieces.len() > 1 {
        assert(pieces.drop_last()[0] == pieces[0]);
        inner_holds(pieces.drop_last());
    }
}

/// What is left of a well-formed list of components behind some of them is well formed.
pub proof fn rest_is_well_formed(route: RouteView, count: nat)
    requires
        route.well_formed(),
    ensures
        route.skip(count).well_formed(),
{
    let rest = route.skip(count);
    assert forall|i: int| 0 <= i < rest.parts.len() implies is_name(#[trigger] rest.parts[i])
        && !is_dropped(rest.parts[i], !rest.rooted && i == 0) by {
        let from = route.parts.len() - rest.parts.len();
        assert(rest.parts[i] == route.parts[i + from]);
    }
}

/// A text of one name is one component.
pub proof fn parsed_name(name: Seq<u8>)
    requires
        is_name(name),
    ensures
        parsed(name) == (RouteView { rooted: false, parts: seq![name] }),
{
    one_piece(name);
    assert(name.contains(name[0]));
    assert(seq![name].drop_last() == Seq::<Seq<u8>>::empty());
    assert(components(Seq::<Seq<u8>>::empty(), false) == Seq::<Seq<u8>>::empty());
    assert(components(seq![name], false) == seq![name]);
}

/// The components but for the last one are those of a beginning of the text.
pub proof fn parent_is_prefix(text: Seq<u8>)
    requires
        parsed(text).parts.len() > 0,
    ensures
        exists|n: int|
            0 <= n <= text.len() && parsed(#[trigger] text.take(n)) == parsed(text).parent()->0,
    decreases text.len(),
{
    let nothing = Seq::<Seq<u8>>::empty();
    if text.len() == 0 {
        assert(pieces(text) == seq![Seq::<u8>::empty()]);
        assert(seq![Seq::<u8>::empty()].drop_last() == nothing);
        assert(components(nothing, false) == nothing);
    } else {
        let shorter = text.drop_last();
        let goal = parsed(text).parent()->0;
        let rooted = text[0] == SLASH;
        let p = pieces(shorter);
        let q = pieces(text);
        pieces_hold_no_slash(shorter);
        assert(text.take(shorter.len() as int) == shorter);
        if shorter.len() == 0 {
            assert(p == seq![Seq::<u8>::empty()]);
            assert(p.drop_last() == nothing);
            assert(components(nothing, rooted) == nothing);
            if text.last() == SLASH {
                assert(q == seq![Seq::<u8>::empty(), Seq::<u8>::empty()]);
                assert(q.drop_last() == p);
                assert(components(p, rooted) == nothing);
            } else {
                assert(q.len() == 1);
                assert(q.drop_last() == nothing);
                assert(components(q, rooted).drop_last() == nothing);
                assert(components(p, false) == nothing);
            }
            assert(parsed(text.take(0)) == goal);
        } else {
            assert(shorter[0] == text[0]);
            if text.last() == SLASH {
                assert(q.drop_last() == p);
            } else {
                assert(q.drop_last() == p.drop_last());
            }
            if components(q, rooted) == components(p, rooted) {
                parent_is_prefix(shorter);
                let n = choose|n: int|
                    0 <= n <= shorter.len() && parsed(#[trigger] shorter.take(n)) == parsed(
                        shorter,
                    ).parent()->0;
                assert(text.take(n) == shorter.take(n));
            } else {
                let base = components(p.drop_last(), rooted);
                assert(components(q, rooted) == base.push(q.last()));
                assert(components(q, rooted).drop_last() == base);
                if is_dropped(p.last(), !rooted && p.len() == 1) {
                    assert(parsed(text.take(shorter.len() as int)) == goal);
                } else {
                    assert(components(p, rooted) == base.push(p.last()));
                    assert(components(p, rooted).drop_last() == base);
                    parent_is_prefix(shorter);
                    let n = choose|n: int|
                        0 <= n <= shorter.len() && parsed(#[trigger] shorter.take(n)) == parsed(
                            shorter,
                        ).parent()->0;
                    assert(text.take(n) == shorter.take(n));
                }
            }
        }
    }
}

} // verus!
