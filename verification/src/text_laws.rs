//! What holds of text: numbers, parts of texts, searching and the order of texts.

use crate::text::{
    ascii_lower, blanks, decimal, is_white_space, occurs_at, occurs_in, optional_text_order, prefix,
    signed_decimal, suffix, text_order, trimmed, trimmed_end, trimmed_start,
};
use vstd::prelude::*;

verus! {

/// The number that decimal digits read as.
pub open spec fn value_of(digits: Seq<char>) -> int
    decreases digits.len(),
{
    if digits.len() == 0 {
        0
    } else {
        10 * value_of(digits.drop_last()) + (digits.last() as int - '0' as int)
    }
}

/// A number in decimal is made of digits, reads as the number, and does not begin with a
/// zero unless it is zero.
pub proof fn decimal_reads_back(n: nat)
    ensures
        decimal(n).len() > 0,
        forall|i: int| 0 <= i < decimal(n).len() ==> '0' <= #[trigger] decimal(n)[i] <= '9',
        value_of(decimal(n)) == n,
        n > 0 ==> decimal(n)[0] != '0',
        n < 10 ==> decimal(n).len() == 1,
    decreases n,
{
    reveal_with_fuel(value_of, 2);
    if n >= 10 {
        decimal_reads_back(n / 10);
        let before = decimal(n / 10);
        assert(decimal(n).drop_last() == before);
        assert(decimal(n)[0] == before[0]);
    } else {
        assert(decimal(n).drop_last() == Seq::<char>::empty());
    }
}

/// A signed number reads as the number: a negative one has a minus sign in front.
pub proof fn signed_decimal_reads_back(n: int)
    ensures
        n >= 0 ==> value_of(signed_decimal(n)) == n && '0' <= signed_decimal(n)[0] <= '9',
        n < 0 ==> signed_decimal(n)[0] == '-' && value_of(signed_decimal(n).drop_first()) == -n,
{
    if n < 0 {
        decimal_reads_back((-n) as nat);
        assert(signed_decimal(n).drop_first() == decimal((-n) as nat));
    } else {
        decimal_reads_back(n as nat);
    }
}

/// The first elements and what is left behind them make up the whole. The first ones are as
/// many as wanted, or all.
pub proof fn prefix_and_suffix<T>(s: Seq<T>, count: nat)
    ensures
        prefix(s, count) + suffix(s, count) == s,
        prefix(s, count).len() == if count < s.len() {
            count
        } else {
            s.len()
        },
{
    assert(prefix(s, count) + suffix(s, count) =~= s);
}

/// From `from` to `to` stands what a text holds without the white space at either end.
pub open spec fn is_trimmed(text: Seq<char>, from: int, to: int) -> bool {
    &&& 0 <= from <= to <= text.len()
    &&& forall|i: int| 0 <= i < from ==> is_white_space(#[trigger] text[i])
    &&& forall|i: int| to <= i < text.len() ==> is_white_space(#[trigger] text[i])
    &&& from < to ==> !is_white_space(text[from]) && !is_white_space(text[to - 1])
}

/// What is left of a text at its start is behind white space, and does not begin with it.
proof fn start_is_trimmed(text: Seq<char>) -> (from: int)
    ensures
        0 <= from <= text.len(),
        trimmed_start(text) == text.skip(from),
        forall|i: int| 0 <= i < from ==> is_white_space(#[trigger] text[i]),
        from < text.len() ==> !is_white_space(text[from]),
    decreases text.len(),
{
    if text.len() > 0 && is_white_space(text.first()) {
        let rest = text.drop_first();
        let behind = start_is_trimmed(rest);
        assert(rest.skip(behind) == text.skip(behind + 1));
        assert forall|i: int| 0 <= i < behind + 1 implies is_white_space(#[trigger] text[i]) by {
            if i > 0 {
                assert(rest[i - 1] == text[i]);
            }
        }
        if behind < rest.len() {
            assert(rest[behind] == text[behind + 1]);
        }
        behind + 1
    } else {
        assert(text.skip(0) == text);
        0
    }
}

/// What is left of a text at its end is before white space, and does not end with it.
proof fn end_is_trimmed(text: Seq<char>) -> (to: int)
    ensures
        0 <= to <= text.len(),
        trimmed_end(text) == text.take(to),
        forall|i: int| to <= i < text.len() ==> is_white_space(#[trigger] text[i]),
        0 < to ==> !is_white_space(text[to - 1]),
    decreases text.len(),
{
    if text.len() > 0 && is_white_space(text.last()) {
        let rest = text.drop_last();
        let to = end_is_trimmed(rest);
        assert(rest.take(to) == text.take(to));
        assert forall|i: int| to <= i < text.len() implies is_white_space(#[trigger] text[i]) by {
            if i < rest.len() {
                assert(rest[i] == text[i]);
            }
        }
        if 0 < to {
            assert(rest[to - 1] == text[to - 1]);
        }
        to
    } else {
        assert(text.take(text.len() as int) == text);
        text.len() as int
    }
}

/// The blank, the tab and the ends of lines and pages are white space, and so are the other
/// spaces of Unicode. What can be seen is none, and neither is any other control character.
pub proof fn spaces_are_white(c: char)
    ensures
        c == ' ' || c == '\t' || c == '\n' || c == '\r' ==> is_white_space(c),
        (c as int) < 256 ==> (is_white_space(c) <==> 9 <= c as int <= 13 || c as int == 32 || c as int
            == 133 || c as int == 160),
        (c as int) >= 256 ==> (is_white_space(c) <==> c as int == 5760 || 8192 <= c as int <= 8202
            || c as int == 8232 || c as int == 8233 || c as int == 8239 || c as int == 8287
            || c as int == 12288),
{
}

/// Trimming takes white space from both ends, all of it, and nothing else.
pub proof fn trimming_takes_white_space(text: Seq<char>)
    ensures
        exists|from: int, to: int| #[trigger]
            is_trimmed(text, from, to) && trimmed(text) == text.subrange(from, to),
{
    let from = start_is_trimmed(text);
    let rest = text.skip(from);
    let end = end_is_trimmed(rest);
    let to = from + end;
    assert(rest.take(end) == text.subrange(from, to));
    assert forall|i: int| to <= i < text.len() implies is_white_space(#[trigger] text[i]) by {
        assert(rest[i - from] == text[i]);
    }
    if from < to {
        assert(rest[end - 1] == text[to - 1]);
    }
    assert(is_trimmed(text, from, to));
}

/// Lower case keeps every character but the letters `A` to `Z`, and gives these the letters
/// `a` to `z`.
pub proof fn lower_case_of_letters(text: Seq<char>, i: int)
    requires
        0 <= i < text.len(),
    ensures
        ascii_lower(text).len() == text.len(),
        'A' <= text[i] <= 'Z' ==> ascii_lower(text)[i] as int - 'a' as int == text[i] as int
            - 'A' as int,
        !('A' <= text[i] <= 'Z') ==> ascii_lower(text)[i] == text[i],
{
}

/// A text holds another exactly if it is that one with something before and behind it.
pub proof fn occurrence_is_a_part(text: Seq<char>, pattern: Seq<char>, front: Seq<char>, back: Seq<
    char,
>)
    ensures
        occurs_in(front + pattern + back, pattern),
        occurs_in(text, pattern) ==> exists|f: Seq<char>, b: Seq<char>|
            text == #[trigger] (f + pattern + b),
{
    let whole = front + pattern + back;
    assert(whole.subrange(front.len() as int, (front.len() + pattern.len()) as int) == pattern);
    assert(occurs_at(whole, pattern, front.len() as int));
    if occurs_in(text, pattern) {
        let at = choose|at: int| occurs_at(text, pattern, at);
        let f = text.take(at);
        let b = text.skip(at + pattern.len());
        assert(text == f + text.subrange(at, at + pattern.len()) + b);
        assert(text == f + pattern + b);
    }
}

/// Blanks are so many blanks.
pub proof fn blanks_are_blank(count: nat)
    ensures
        blanks(count).len() == count,
        forall|i: int| 0 <= i < count ==> #[trigger] blanks(count)[i] == ' ',
{
}

/// The order of two texts is that of the first characters that differ; where there is none,
/// the longer text comes behind. `i` characters are the same in both.
pub proof fn first_difference_orders(left: Seq<char>, right: Seq<char>, i: int)
    requires
        0 <= i <= left.len(),
        i <= right.len(),
        left.take(i) == right.take(i),
    ensures
        i < left.len() && i < right.len() && left[i] < right[i] ==> text_order(left, right) < 0,
        i < left.len() && i < right.len() && left[i] > right[i] ==> text_order(left, right) > 0,
        i == left.len() && i < right.len() ==> text_order(left, right) < 0,
        i < left.len() && i == right.len() ==> text_order(left, right) > 0,
        i == left.len() && i == right.len() ==> text_order(left, right) == 0,
    decreases i,
{
    if i > 0 {
        assert(left.take(i)[0] == right.take(i)[0]);
        assert(left.take(i)[0] == left[0] && right.take(i)[0] == right[0]);
        let l = left.drop_first();
        let r = right.drop_first();
        assert(l.take(i - 1) == left.take(i).drop_first());
        assert(r.take(i - 1) == right.take(i).drop_first());
        first_difference_orders(l, r, i - 1);
        if i < left.len() {
            assert(l[i - 1] == left[i]);
        }
        if i < right.len() {
            assert(r[i - 1] == right[i]);
        }
    }
}

/// The order of texts tells any two different texts apart.
pub proof fn different_texts_differ(left: Seq<char>, right: Seq<char>)
    ensures
        text_order(left, right) == 0 <==> left == right,
        optional_text_order(Some(left), Some(right)) == 0 <==> left == right,
    decreases left.len(),
{
    if left.len() > 0 && right.len() > 0 {
        different_texts_differ(left.drop_first(), right.drop_first());
        assert(left == seq![left.first()] + left.drop_first());
        assert(right == seq![right.first()] + right.drop_first());
    } else if left.len() == 0 && right.len() == 0 {
        assert(left == right);
    }
}

} // verus!
