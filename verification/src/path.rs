//! Unix paths.
//!
//! A path is the text that names it. Two paths are the same when they have the same
//! components, and they are ordered by them.

use crate::route::{
    copy_bytes, is_name, parsed, parsed_is_well_formed, parsed_join, parsed_name, parent_is_prefix,
    rest_is_well_formed, route_order, text_names_path, Route, RouteView, DOT, SLASH,
};
use std::cmp::Ordering;
use vstd::prelude::*;
use vstd::std_specs::cmp::{PartialEqSpecImpl, PartialOrdSpecImpl};
use vstd::string::*;
use vstd::utf8::{
    encode_scalar, encode_utf8, encode_utf8_decode_utf8, is_ascii_chars, is_ascii_chars_encode_utf8,
};

verus! {

/// A path to a file or a directory.
#[derive(Debug)]
pub struct FilePath {
    pub text: Vec<u8>,
}

/// What a path is: the text that names it.
#[verifier::ext_equal]
pub struct PathView {
    pub text: Seq<u8>,
}

impl View for FilePath {
    type V = PathView;

    open spec fn view(&self) -> PathView {
        PathView { text: self.text@ }
    }
}

/// The views of a list of paths.
pub open spec fn path_views(paths: Seq<FilePath>) -> Seq<PathView> {
    paths.map_values(|p: FilePath| p@)
}

/// The view of a path that may be missing.
pub open spec fn optional_path(path: Option<FilePath>) -> Option<PathView> {
    match path {
        Some(p) => Some(p@),
        None => None,
    }
}

/// The components of a list of paths.
pub open spec fn routes(paths: Seq<PathView>) -> Seq<RouteView> {
    paths.map_values(|p: PathView| p.route())
}

/// The path without any text.
pub open spec fn empty_path() -> PathView {
    PathView { text: Seq::empty() }
}

/// The shortest beginning of a text, of `from` bytes or more, that has the given components.
pub open spec fn beginning(text: Seq<u8>, route: RouteView, from: int) -> Seq<u8>
    decreases text.len() - from,
{
    if from >= text.len() {
        text
    } else if parsed(text.take(from)) == route {
        text.take(from)
    } else {
        beginning(text, route, from + 1)
    }
}

impl PathView {
    /// The components of the path.
    pub open spec fn route(self) -> RouteView {
        parsed(self.text)
    }

    /// Two paths have the same components.
    pub open spec fn same_as(self, other: PathView) -> bool {
        self.route() == other.route()
    }

    /// The path begins at the root.
    pub open spec fn is_rooted(self) -> bool {
        self.text.len() > 0 && self.text[0] == SLASH
    }

    /// `other` as seen from this path: a rooted path stands for itself, and another one
    /// follows behind a slash.
    pub open spec fn join(self, other: PathView) -> PathView {
        if other.is_rooted() {
            other
        } else if self.text.len() > 0 && self.text.last() != SLASH {
            PathView { text: self.text.push(SLASH) + other.text }
        } else {
            PathView { text: self.text + other.text }
        }
    }

    /// The path that a name leads to from here.
    pub open spec fn join_name(self, name: Seq<char>) -> PathView {
        self.join(PathView { text: encode_utf8(name) })
    }

    /// The path without its last component: what the text begins with.
    pub open spec fn parent(self) -> Option<PathView> {
        match self.route().parent() {
            Some(route) => Some(PathView { text: beginning(self.text, route, 0) }),
            None => None,
        }
    }

    /// What is left behind as many components as `root` has.
    pub open spec fn behind(self, root: PathView) -> PathView {
        PathView { text: self.route().skip(root.route().count()).text() }
    }

    /// What follows the last dot of the last name, unless that name begins with it.
    pub open spec fn extension(self) -> Option<Seq<u8>> {
        self.route().extension()
    }
}

impl Clone for FilePath {
    fn clone(&self) -> (copied: Self)
        ensures
            copied@ == self@,
    {
        FilePath { text: copy_bytes(&self.text) }
    }
}

impl PartialEq for FilePath {
    fn eq(&self, other: &FilePath) -> (same: bool) {
        self.same(other)
    }
}

impl PartialEqSpecImpl for FilePath {
    open spec fn obeys_eq_spec() -> bool {
        true
    }

    open spec fn eq_spec(&self, other: &FilePath) -> bool {
        self@.same_as(other@)
    }
}

impl Eq for FilePath {

}

/// The order of two paths, by their components.
pub open spec fn path_order(left: PathView, right: PathView) -> Ordering {
    let order = route_order(left.route(), right.route());
    if order < 0 {
        Ordering::Less
    } else if order > 0 {
        Ordering::Greater
    } else {
        Ordering::Equal
    }
}

impl PartialOrd for FilePath {
    fn partial_cmp(&self, other: &FilePath) -> (order: Option<Ordering>) {
        let order = Route::parse(self.text.as_slice()).order(&Route::parse(other.text.as_slice()));
        if order < 0 {
            Some(Ordering::Less)
        } else if order > 0 {
            Some(Ordering::Greater)
        } else {
            Some(Ordering::Equal)
        }
    }
}

impl PartialOrdSpecImpl for FilePath {
    open spec fn obeys_partial_cmp_spec() -> bool {
        true
    }

    open spec fn partial_cmp_spec(&self, other: &FilePath) -> Option<Ordering> {
        Some(path_order(self@, other@))
    }
}

/// The first bytes of a text.
fn copy_first(text: &Vec<u8>, count: usize) -> (copied: Vec<u8>)
    requires
        count <= text@.len(),
    ensures
        copied@ == text@.take(count as int),
{
    let mut copied: Vec<u8> = Vec::new();
    let mut at: usize = 0;
    while at < count
        invariant
            at <= count <= text@.len(),
            copied@ == text@.take(at as int),
        decreases count - at,
    {
        copied.push(text[at]);
        at += 1;
        assert(text@.take(at as int) == text@.take(at - 1).push(text@[at - 1]));
    }
    copied
}

impl FilePath {
    /// The path without any text.
    pub fn new() -> (path: FilePath)
        ensures
            path@ == empty_path(),
    {
        let path = FilePath { text: Vec::new() };
        assert(path@ == empty_path());
        path
    }

    /// The path that a text names.
    pub fn from_bytes(text: &[u8]) -> (path: FilePath)
        ensures
            path@.text == text@,
    {
        let mut copied: Vec<u8> = Vec::new();
        let mut at: usize = 0;
        while at < text.len()
            invariant
                at <= text@.len(),
                copied@ == text@.take(at as int),
            decreases text@.len() - at,
        {
            copied.push(text[at]);
            at += 1;
            assert(text@.take(at as int) == text@.take(at - 1).push(text@[at - 1]));
        }
        assert(text@.take(text@.len() as int) == text@);
        FilePath { text: copied }
    }

    /// The text of the path.
    pub fn to_bytes(&self) -> (text: Vec<u8>)
        ensures
            text@ == self@.text,
    {
        copy_bytes(&self.text)
    }

    /// Whether two paths have the same components.
    pub fn same(&self, other: &FilePath) -> (same: bool)
        ensures
            same == self@.same_as(other@),
    {
        Route::parse(self.text.as_slice()).same(&Route::parse(other.text.as_slice()))
    }

    /// `other` as seen from this path.
    pub fn join(&self, other: &FilePath) -> (joined: FilePath)
        ensures
            joined@ == self@.join(other@),
    {
        if other.text.len() > 0 && other.text[0] == SLASH {
            return other.clone();
        }
        let mut text = copy_bytes(&self.text);
        if text.len() > 0 && text[text.len() - 1] != SLASH {
            text.push(SLASH);
        }
        let mut more = copy_bytes(&other.text);
        text.append(&mut more);
        FilePath { text }
    }

    /// The path that a name leads to from here.
    pub fn join_name(&self, name: &str) -> (joined: FilePath)
        ensures
            joined@ == self@.join_name(name@),
    {
        self.join(&FilePath::from_bytes(name.as_bytes()))
    }

    /// The path without its last component, if it has one.
    pub fn parent(&self) -> (parent: Option<FilePath>)
        ensures
            optional_path(parent) == self@.parent(),
    {
        match Route::parse(self.text.as_slice()).parent() {
            None => None,
            Some(route) => {
                let mut at: usize = 0;
                while at < self.text.len()
                    invariant
                        at <= self.text@.len(),
                        beginning(self.text@, route@, 0) == beginning(
                            self.text@,
                            route@,
                            at as int,
                        ),
                        self@.parent() == Some(
                            PathView { text: beginning(self.text@, route@, 0) },
                        ),
                    decreases self.text@.len() - at,
                {
                    let text = copy_first(&self.text, at);
                    if Route::parse(text.as_slice()).same(&route) {
                        return Some(FilePath { text });
                    }
                    at += 1;
                }
                Some(self.clone())
            },
        }
    }

    /// What is left of this path behind as many components as `root` has.
    pub fn behind(&self, root: &FilePath) -> (rest: FilePath)
        ensures
            rest@ == self@.behind(root@),
    {
        let rest = Route::parse(self.text.as_slice()).behind(&Route::parse(root.text.as_slice()));
        FilePath { text: rest.to_bytes() }
    }

    /// What follows the last dot of the last name, unless that name begins with it.
    pub fn extension(&self) -> (ext: Option<Vec<u8>>)
        ensures
            (match ext {
                Some(e) => Some(e@),
                None => None,
            }) == self@.extension(),
    {
        Route::parse(self.text.as_slice()).extension()
    }
}

/// Joining paths joins their components.
pub proof fn join_leads_on(path: PathView, other: PathView)
    ensures
        path.join(other).route() == path.route().join(other.route()),
{
    if !other.is_rooted() {
        if path.text.len() > 0 {
            parsed_join(path.text, other.text);
        } else {
            assert(path.text + other.text == other.text);
            assert(path.text == empty_path().text);
            nothing_parsed();
            let joined = path.route().join(other.route());
            assert(joined == other.route());
        }
    }
}

/// An empty text has no components.
proof fn nothing_parsed()
    ensures
        empty_path().route() == (RouteView { rooted: false, parts: Seq::empty() }),
{
    text_names_path(RouteView { rooted: false, parts: Seq::empty() });
}

/// A beginning with the given components has them, if there is one.
proof fn beginning_has_route(text: Seq<u8>, route: RouteView, from: int, n: int)
    requires
        0 <= from <= n <= text.len(),
        parsed(text.take(n)) == route,
    ensures
        parsed(beginning(text, route, from)) == route,
    decreases n - from,
{
    if from >= text.len() {
        assert(text.take(n) == text);
    } else if parsed(text.take(from)) != route {
        beginning_has_route(text, route, from + 1, n);
    }
}

/// The parent of a path has its components but for the last one.
pub proof fn parent_drops_last(path: PathView)
    ensures
        path.parent() is Some <==> path.route().parts.len() > 0,
        path.parent() matches Some(parent) ==> path.route().parent() == Some(parent.route()),
{
    if path.route().parts.len() > 0 {
        parent_is_prefix(path.text);
        let route = path.route().parent()->0;
        let n = choose|n: int| 0 <= n <= path.text.len() && parsed(#[trigger] path.text.take(n))
            == route;
        beginning_has_route(path.text, route, 0, n);
    }
}

/// What is left of a path behind a root has the components that are left.
pub proof fn behind_drops_first(path: PathView, root: PathView)
    ensures
        path.behind(root).route() == path.route().skip(root.route().count()),
{
    parsed_is_well_formed(path.text);
    rest_is_well_formed(path.route(), root.route().count());
    text_names_path(path.route().skip(root.route().count()));
}

/// A name that leads from a directory to an entry of it, or to its parent.
pub open spec fn is_plain_name(name: Seq<char>) -> bool {
    name.len() > 0 && !name.contains('/') && name != seq!['.']
}

/// Only a slash is encoded with the byte of a slash.
proof fn encoded_slash(c: char)
    requires
        c != '/',
    ensures
        !encode_scalar(c as u32).contains(SLASH),
{
    let v = c as u32;
    assert(v <= 0x7f && v != 47 ==> (v & 0x7f) as u8 != 47) by (bit_vector);
    assert(0xC0 | ((v >> 6) & 0x1F) as u8 != 47) by (bit_vector);
    assert(0xE0 | ((v >> 12) & 0x0F) as u8 != 47) by (bit_vector);
    assert(0xF0 | ((v >> 18) & 0x7) as u8 != 47) by (bit_vector);
    assert(0x80 | (v & 0x3F) as u8 != 47) by (bit_vector);
    assert(0x80 | ((v >> 6) & 0x3F) as u8 != 47) by (bit_vector);
    assert(0x80 | ((v >> 12) & 0x3F) as u8 != 47) by (bit_vector);
}

/// A text without slashes is encoded without bytes of slashes.
proof fn encoded_slashes(name: Seq<char>)
    requires
        !name.contains('/'),
    ensures
        !encode_utf8(name).contains(SLASH),
    decreases name.len(),
{
    if name.len() > 0 {
        let rest = name.drop_first();
        assert(!rest.contains('/')) by {
            if rest.contains('/') {
                let k = choose|k: int| 0 <= k < rest.len() && rest[k] == '/';
                assert(name[k + 1] == '/');
            }
        }
        assert(name[0] != '/');
        encoded_slash(name[0]);
        encoded_slashes(rest);
        let front = encode_scalar(name[0] as u32);
        let back = encode_utf8(rest);
        assert forall|k: int| 0 <= k < (front + back).len() implies (front + back)[k] != SLASH by {
            if k < front.len() {
                assert(front.contains(front[k]));
            } else {
                assert(back.contains(back[k - front.len()]));
            }
        }
    }
}

/// The bytes of a plain name are a component.
proof fn plain_name_is_name(name: Seq<char>)
    requires
        is_plain_name(name),
    ensures
        is_name(encode_utf8(name)),
        encode_utf8(name) != seq![DOT],
{
    let bytes = encode_utf8(name);
    encoded_slashes(name);
    encode_utf8_decode_utf8(name);
    if bytes.len() == 0 {
        assert(bytes == encode_utf8(Seq::<char>::empty()));
        encode_utf8_decode_utf8(Seq::<char>::empty());
        assert(name == Seq::<char>::empty());
    }
    if bytes == seq![DOT] {
        let dot = seq!['.'];
        assert(is_ascii_chars(dot));
        is_ascii_chars_encode_utf8(dot);
        assert(encode_utf8(dot) == seq![DOT]);
        encode_utf8_decode_utf8(dot);
        assert(name == dot);
    }
}

/// A plain name leads one component further.
pub proof fn plain_name_leads(dir: PathView, name: Seq<char>)
    requires
        is_plain_name(name),
    ensures
        dir.join_name(name).route() == (RouteView {
            rooted: dir.route().rooted,
            parts: dir.route().parts.push(encode_utf8(name)),
        }),
{
    let bytes = encode_utf8(name);
    plain_name_is_name(name);
    parsed_name(bytes);
    join_leads_on(dir, PathView { text: bytes });
    assert(dir.route().parts + seq![bytes] == dir.route().parts.push(bytes));
}

/// The parent of an entry is the directory that it is an entry of.
pub proof fn parent_of_entry(dir: PathView, name: Seq<char>)
    requires
        is_plain_name(name),
    ensures
        dir.join_name(name).parent() matches Some(parent) && parent.same_as(dir),
{
    plain_name_leads(dir, name);
    parent_drops_last(dir.join_name(name));
    assert(dir.route().parts.push(encode_utf8(name)).drop_last() == dir.route().parts);
}

/// Different plain names lead to different paths.
pub proof fn different_names_differ(dir: PathView, left: Seq<char>, right: Seq<char>)
    requires
        is_plain_name(left),
        is_plain_name(right),
        dir.join_name(left).same_as(dir.join_name(right)),
    ensures
        left == right,
{
    plain_name_leads(dir, left);
    plain_name_leads(dir, right);
    let parts = dir.route().parts;
    assert(parts.push(encode_utf8(left)).last() == parts.push(encode_utf8(right)).last());
    encode_utf8_decode_utf8(left);
    encode_utf8_decode_utf8(right);
}

/// Copies of a list of paths.
pub fn copy_paths(paths: &Vec<FilePath>) -> (copied: Vec<FilePath>)
    ensures
        path_views(copied@) == path_views(paths@),
{
    let mut copied: Vec<FilePath> = Vec::new();
    let mut at: usize = 0;
    while at < paths.len()
        invariant
            at <= paths@.len(),
            path_views(copied@) == path_views(paths@.take(at as int)),
        decreases paths@.len() - at,
    {
        let ghost before = copied@;
        copied.push(paths[at].clone());
        at += 1;
        assert(path_views(copied@) == path_views(before).push(paths@[at - 1]@));
        assert(path_views(paths@.take(at as int)) == path_views(paths@.take(at - 1)).push(
            paths@[at - 1]@,
        ));
    }
    assert(paths@.take(paths@.len() as int) == paths@);
    copied
}

} // verus!
