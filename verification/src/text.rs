//! Text as sequences of characters: decimal numbers, prefixes and suffixes in
//! characters, trimming, searching, and the order of strings.

use vstd::prelude::*;
use vstd::string::*;
use vstd::utf8::{decode_utf8, valid_utf8};

verus! {

/// `String::push` of std: it appends the character to the end of the string.
pub assume_specification[ String::push ](text: &mut String, c: char)
    ensures
        final(text)@ == old(text)@.push(c),
;

/// The bytes as text, if they are UTF-8.
///
/// Calls `str::from_utf8` of std. The contract claims that it succeeds exactly on
/// valid UTF-8, and that the text is then what the bytes encode.
#[verifier::external_body]
pub(crate) fn utf8_text(bytes: &[u8]) -> (text: Option<String>)
    ensures
        text is Some <==> valid_utf8(bytes@),
        text matches Some(t) ==> t@ == decode_utf8(bytes@),
{
    match std::str::from_utf8(bytes) {
        Ok(text) => Some(text.to_string()),
        Err(_) => None,
    }
}

/// The character of a decimal digit.
pub open spec fn digit_char(digit: nat) -> char {
    (('0' as nat) + digit) as char
}

/// A natural number in decimal, without leading zeros.
pub open spec fn decimal(n: nat) -> Seq<char>
    decreases n,
{
    if n < 10 {
        seq![digit_char(n)]
    } else {
        decimal(n / 10).push(digit_char(n % 10))
    }
}

/// An integer in decimal, with a minus sign where it is negative.
pub open spec fn signed_decimal(n: int) -> Seq<char> {
    if n < 0 {
        seq!['-'] + decimal((-n) as nat)
    } else {
        decimal(n as nat)
    }
}

/// The number in decimal.
pub fn decimal_text(n: u64) -> (text: String)
    ensures
        text@ == decimal(n as nat),
    decreases n,
{
    let digit: u8 = (n % 10) as u8;
    let mut text = if n < 10 {
        String::new()
    } else {
        decimal_text(n / 10)
    };
    text.push((48 + digit) as char);
    text
}

/// The signed number in decimal.
pub fn signed_decimal_text(n: i64) -> (text: String)
    ensures
        text@ == signed_decimal(n as int),
{
    if n < 0 {
        let mut text = String::new();
        text.push('-');
        let digits = decimal_text((-(n + 1)) as u64 + 1);
        text.append(digits.as_str());
        text
    } else {
        decimal_text(n as u64)
    }
}

/// The characters of a string.
pub fn chars_of(text: &str) -> (chars: Vec<char>)
    ensures
        chars@ == text@,
{
    let mut chars: Vec<char> = Vec::new();
    for c in it: text.chars()
        invariant
            it.seq() == text@,
            chars@ == text@.take(it.index()),
    {
        chars.push(c);
        assert(text@.take(it.index() + 1) == text@.take(it.index()).push(c));
    }
    assert(text@.take(text@.len() as int) == text@);
    chars
}

/// The characters from one position up to another, as a string.
pub fn text_between(chars: &Vec<char>, from: usize, to: usize) -> (text: String)
    requires
        from <= to <= chars@.len(),
    ensures
        text@ == chars@.subrange(from as int, to as int),
{
    let mut text = String::new();
    let mut at: usize = from;
    while at < to
        invariant
            from <= at <= to <= chars@.len(),
            text@ == chars@.subrange(from as int, at as int),
        decreases to - at,
    {
        text.push(chars[at]);
        at += 1;
        assert(chars@.subrange(from as int, at as int) == chars@.subrange(
            from as int,
            at - 1,
        ).push(chars@[at - 1]));
    }
    text
}

/// The first `count` elements, or all of them where there are fewer.
pub open spec fn prefix<T>(s: Seq<T>, count: nat) -> Seq<T> {
    if count < s.len() {
        s.take(count as int)
    } else {
        s
    }
}

/// What is left behind the first `count` elements.
pub open spec fn suffix<T>(s: Seq<T>, count: nat) -> Seq<T> {
    if count < s.len() {
        s.skip(count as int)
    } else {
        Seq::empty()
    }
}

/// The first `count` characters of a string.
pub fn take_chars(text: &str, count: usize) -> (taken: String)
    ensures
        taken@ == prefix(text@, count as nat),
{
    let chars = chars_of(text);
    let end: usize = if count < chars.len() {
        count
    } else {
        chars.len()
    };
    text_between(&chars, 0, end)
}

/// A string without its first `count` characters.
pub fn skip_chars(text: &str, count: usize) -> (rest: String)
    ensures
        rest@ == suffix(text@, count as nat),
{
    let chars = chars_of(text);
    let start: usize = if count < chars.len() {
        count
    } else {
        chars.len()
    };
    text_between(&chars, start, chars.len())
}

/// A character of the Unicode property `White_Space`.
pub open spec fn is_white_space(c: char) -> bool {
    ||| '\u{9}' <= c <= '\u{d}'
    ||| c == ' '
    ||| c == '\u{85}'
    ||| c == '\u{a0}'
    ||| c == '\u{1680}'
    ||| '\u{2000}' <= c <= '\u{200a}'
    ||| c == '\u{2028}'
    ||| c == '\u{2029}'
    ||| c == '\u{202f}'
    ||| c == '\u{205f}'
    ||| c == '\u{3000}'
}

/// Tells white space from other characters.
pub fn white_space(c: char) -> (white: bool)
    ensures
        white == is_white_space(c),
{
    ('\u{9}' <= c && c <= '\u{d}') || c == ' ' || c == '\u{85}' || c == '\u{a0}' || c == '\u{1680}'
        || ('\u{2000}' <= c && c <= '\u{200a}') || c == '\u{2028}' || c == '\u{2029}' || c
        == '\u{202f}' || c == '\u{205f}' || c == '\u{3000}'
}

/// The text without the white space that it begins with.
pub open spec fn trimmed_start(text: Seq<char>) -> Seq<char>
    decreases text.len(),
{
    if text.len() > 0 && is_white_space(text.first()) {
        trimmed_start(text.drop_first())
    } else {
        text
    }
}

/// The text without the white space that it ends with.
pub open spec fn trimmed_end(text: Seq<char>) -> Seq<char>
    decreases text.len(),
{
    if text.len() > 0 && is_white_space(text.last()) {
        trimmed_end(text.drop_last())
    } else {
        text
    }
}

/// The text without white space at either end.
pub open spec fn trimmed(text: Seq<char>) -> Seq<char> {
    trimmed_end(trimmed_start(text))
}

/// Removes the white space at both ends.
pub fn trim(text: &str) -> (rest: String)
    ensures
        rest@ == trimmed(text@),
{
    let chars = chars_of(text);
    let mut start: usize = 0;
    assert(chars@.skip(0) == chars@);
    while start < chars.len() && white_space(chars[start])
        invariant
            start <= chars@.len(),
            chars@ == text@,
            trimmed_start(chars@.skip(start as int)) == trimmed_start(text@),
        decreases chars@.len() - start,
    {
        assert(chars@.skip(start as int).drop_first() == chars@.skip(start + 1));
        start += 1;
    }
    let mut end: usize = chars.len();
    let ghost rest = chars@.skip(start as int);
    assert(rest == trimmed_start(text@));
    assert(chars@.subrange(start as int, end as int) == rest);
    while start < end && white_space(chars[end - 1])
        invariant
            start <= end <= chars@.len(),
            trimmed_end(chars@.subrange(start as int, end as int)) == trimmed_end(rest),
        decreases end,
    {
        assert(chars@.subrange(start as int, end as int).drop_last() == chars@.subrange(
            start as int,
            end - 1,
        ));
        end -= 1;
    }
    text_between(&chars, start, end)
}

/// A letter of `A` to `Z` in lower case; any other character as it is.
pub open spec fn ascii_lower_char(c: char) -> char {
    if 'A' <= c <= 'Z' {
        ((c as nat) + 32) as char
    } else {
        c
    }
}

/// The text with the letters `A` to `Z` in lower case.
pub open spec fn ascii_lower(text: Seq<char>) -> Seq<char> {
    text.map_values(|c: char| ascii_lower_char(c))
}

/// Writes the letters `A` to `Z` in lower case.
pub fn ascii_lower_text(text: &str) -> (lower: String)
    ensures
        lower@ == ascii_lower(text@),
{
    let chars = chars_of(text);
    let mut lower = String::new();
    let mut at: usize = 0;
    while at < chars.len()
        invariant
            at <= chars@.len(),
            lower@ == ascii_lower(chars@.take(at as int)),
        decreases chars@.len() - at,
    {
        let c = chars[at];
        if 'A' <= c && c <= 'Z' {
            lower.push((c as u8 + 32) as char);
        } else {
            lower.push(c);
        }
        at += 1;
        assert(chars@.take(at as int) == chars@.take(at - 1).push(chars@[at - 1]));
    }
    assert(chars@.take(chars@.len() as int) == chars@);
    lower
}

/// `pattern` stands in `text` from the position `at` on.
pub open spec fn occurs_at(text: Seq<char>, pattern: Seq<char>, at: int) -> bool {
    &&& 0 <= at
    &&& at + pattern.len() <= text.len()
    &&& text.subrange(at, at + pattern.len()) == pattern
}

/// `pattern` stands somewhere in `text`.
pub open spec fn occurs_in(text: Seq<char>, pattern: Seq<char>) -> bool {
    exists|at: int| occurs_at(text, pattern, at)
}

/// Searches a text for another.
pub fn contains_text(text: &str, pattern: &str) -> (found: bool)
    ensures
        found == occurs_in(text@, pattern@),
{
    let chars = chars_of(text);
    let wanted = chars_of(pattern);
    if wanted.len() > chars.len() {
        return false;
    }
    let last: usize = chars.len() - wanted.len();
    let mut at: usize = 0;
    loop
        invariant
            chars@ == text@,
            wanted@ == pattern@,
            last + wanted@.len() == chars@.len() <= usize::MAX,
            at <= last,
            forall|k: int| 0 <= k < at ==> !occurs_at(text@, pattern@, k),
        decreases last - at,
    {
        let mut same: usize = 0;
        while same < wanted.len() && chars[at + same] == wanted[same]
            invariant
                same <= wanted@.len(),
                at <= last,
                last + wanted@.len() == chars@.len() <= usize::MAX,
                forall|k: int| 0 <= k < same ==> chars@[at + k] == wanted@[k],
            decreases wanted@.len() - same,
        {
            same += 1;
        }
        if same == wanted.len() {
            assert(text@.subrange(at as int, at + pattern@.len()) == pattern@);
            assert(occurs_at(text@, pattern@, at as int));
            return true;
        }
        assert(!occurs_at(text@, pattern@, at as int)) by {
            assert(text@.subrange(at as int, at + pattern@.len())[same as int] == chars@[at + same]);
        }
        if at == last {
            return false;
        }
        at += 1;
    }
}

/// `count` blanks.
pub open spec fn blanks(count: nat) -> Seq<char> {
    Seq::new(count, |i: int| ' ')
}

/// A string of `count` blanks.
pub fn blank_text(count: u16) -> (text: String)
    ensures
        text@ == blanks(count as nat),
{
    let mut text = String::new();
    let mut done: u16 = 0;
    while done < count
        invariant
            done <= count,
            text@ == blanks(done as nat),
        decreases count - done,
    {
        text.push(' ');
        done += 1;
        assert(blanks(done as nat) == blanks((done - 1) as nat).push(' '));
    }
    text
}

/// Which of two texts comes first, character by character: negative, zero or
/// positive as the left one is less than, equal to or greater than the right one.
pub open spec fn text_order(left: Seq<char>, right: Seq<char>) -> int
    decreases left.len(),
{
    if left.len() == 0 {
        if right.len() == 0 {
            0
        } else {
            -1
        }
    } else if right.len() == 0 {
        1
    } else if left.first() < right.first() {
        -1
    } else if right.first() < left.first() {
        1
    } else {
        text_order(left.drop_first(), right.drop_first())
    }
}

/// The order of texts where one may be missing: a missing text comes first.
pub open spec fn optional_text_order(left: Option<Seq<char>>, right: Option<Seq<char>>) -> int {
    match (left, right) {
        (None, None) => 0,
        (None, Some(_)) => -1,
        (Some(_), None) => 1,
        (Some(l), Some(r)) => text_order(l, r),
    }
}

/// Compares two texts.
pub fn order_texts(left: &str, right: &str) -> (order: i8)
    ensures
        order == text_order(left@, right@),
{
    let l = chars_of(left);
    let r = chars_of(right);
    let mut at: usize = 0;
    assert(l@.skip(0) == l@ && r@.skip(0) == r@);
    while at < l.len() && at < r.len()
        invariant
            l@ == left@,
            r@ == right@,
            at <= l@.len(),
            at <= r@.len(),
            text_order(l@.skip(at as int), r@.skip(at as int)) == text_order(left@, right@),
        decreases l@.len() - at,
    {
        if l[at] < r[at] {
            return -1;
        }
        if r[at] < l[at] {
            return 1;
        }
        assert(l@.skip(at as int).drop_first() == l@.skip(at + 1));
        assert(r@.skip(at as int).drop_first() == r@.skip(at + 1));
        at += 1;
    }
    if at < l.len() {
        1
    } else if at < r.len() {
        -1
    } else {
        0
    }
}

/// The order of texts turns its sign when the two are exchanged.
pub proof fn text_order_antisymmetric(left: Seq<char>, right: Seq<char>)
    ensures
        text_order(right, left) == -text_order(left, right),
        -1 <= text_order(left, right) <= 1,
    decreases left.len(),
{
    if left.len() > 0 && right.len() > 0 {
        text_order_antisymmetric(left.drop_first(), right.drop_first());
    }
}

/// The order of texts is transitive, and strict where one of its steps is.
pub proof fn text_order_transitive(a: Seq<char>, b: Seq<char>, c: Seq<char>)
    requires
        text_order(a, b) <= 0,
        text_order(b, c) <= 0,
    ensures
        text_order(a, c) <= 0,
        text_order(a, b) < 0 || text_order(b, c) < 0 ==> text_order(a, c) < 0,
    decreases a.len(),
{
    if a.len() > 0 && b.len() > 0 && c.len() > 0 && a.first() == b.first() && b.first()
        == c.first() {
        text_order_transitive(a.drop_first(), b.drop_first(), c.drop_first());
    }
}

} // verus!
