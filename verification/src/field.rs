//! The text of a record's fields: blanks around it, words and ids.

use vstd::prelude::*;
use vstd::string::*;
use crate::numeral::{
    all_digits, digit_of, digits_value, is_digit, lemma_digits_value_prefix, text_digits,
    text_value,
};

verus! {

/// A blank: a space, a tab, a line feed, a form feed or a carriage return.
pub open spec fn is_space(c: char) -> bool {
    c == ' ' || c == '\t' || c == '\n' || c == '\x0C' || c == '\r'
}

/// The text without the blanks that it starts with.
pub open spec fn trim_front(text: Seq<char>) -> Seq<char>
    decreases text.len(),
{
    if text.len() > 0 && is_space(text[0]) {
        trim_front(text.drop_first())
    } else {
        text
    }
}

/// The text without the blanks that it ends with.
pub open spec fn trim_back(text: Seq<char>) -> Seq<char>
    decreases text.len(),
{
    if text.len() > 0 && is_space(text.last()) {
        trim_back(text.drop_last())
    } else {
        text
    }
}

/// The text without the blanks around it.
pub open spec fn trimmed(text: Seq<char>) -> Seq<char> {
    trim_back(trim_front(text))
}

/// The number that an id's text denotes: the text is one or more digits, and
/// the number is at most `max`.
pub open spec fn id_value(text: Seq<char>, max: nat) -> Option<nat> {
    if text.len() > 0 && all_digits(text) && text_value(text) <= max {
        Some(text_value(text))
    } else {
        None
    }
}

/// The characters of a text.
pub(crate) fn chars_of(text: &str) -> (chars: Vec<char>)
    ensures
        chars@ == text@,
{
    let mut chars: Vec<char> = Vec::new();
    for c in it: text.chars()
        invariant
            it.seq() == text@,
            chars@ == text@.take(it.index() as int),
    {
        chars.push(c);
        assert(chars@ =~= text@.take(it.index() + 1));
    }
    assert(chars@ =~= text@);
    chars
}

/// Where the text without the blanks around it starts and ends.
pub(crate) fn trim(chars: &Vec<char>) -> (bounds: (usize, usize))
    ensures
        bounds.0 <= bounds.1 <= chars.len(),
        chars@.subrange(bounds.0 as int, bounds.1 as int) == trimmed(chars@),
{
    let n: usize = chars.len();
    let mut start: usize = 0;
    assert(chars@.skip(0) =~= chars@);
    while start < n && is_blank(chars[start])
        invariant
            start <= n == chars.len(),
            trim_front(chars@) == trim_front(chars@.skip(start as int)),
        decreases n - start,
    {
        assert(chars@.skip(start as int).drop_first() =~= chars@.skip(start + 1));
        start = start + 1;
    }
    let ghost rest = chars@.skip(start as int);
    assert(trim_front(chars@) == rest);
    let mut end: usize = n;
    assert(rest.take(n - start) =~= rest);
    while end > start && is_blank(chars[end - 1])
        invariant
            start <= end <= n == chars.len(),
            rest == chars@.skip(start as int),
            trim_back(rest) == trim_back(rest.take(end - start)),
        decreases end,
    {
        assert(rest.take(end - start).drop_last() =~= rest.take(end - 1 - start));
        end = end - 1;
    }
    assert(rest.take(end - start) =~= chars@.subrange(start as int, end as int));
    (start, end)
}

/// Whether the character is a blank.
pub(crate) fn is_blank(c: char) -> (r: bool)
    ensures
        r == is_space(c),
{
    c == ' ' || c == '\t' || c == '\n' || c == '\x0C' || c == '\r'
}

/// Whether the characters from `start` to `end` spell `word`.
pub(crate) fn spells(chars: &Vec<char>, start: usize, end: usize, word: &str) -> (r: bool)
    requires
        start <= end <= chars.len(),
    ensures
        r == (chars@.subrange(start as int, end as int) == word@),
{
    let len: usize = word.unicode_len();
    if end - start != len {
        return false;
    }
    let ghost piece = chars@.subrange(start as int, end as int);
    let mut i: usize = 0;
    while i < len
        invariant
            i <= len == word@.len(),
            start + len == end <= chars.len(),
            piece == chars@.subrange(start as int, end as int),
            piece.take(i as int) == word@.take(i as int),
        decreases len - i,
    {
        if chars[start + i] != word.get_char(i) {
            assert(piece[i as int] != word@[i as int]);
            return false;
        }
        assert(piece.take(i + 1) =~= piece.take(i as int).push(piece[i as int]));
        assert(word@.take(i + 1) =~= word@.take(i as int).push(word@[i as int]));
        i = i + 1;
    }
    assert(piece.take(len as int) =~= piece);
    assert(word@.take(len as int) =~= word@);
    true
}

/// The number that the characters from `start` to `end` denote as an id.
pub(crate) fn read_id(chars: &Vec<char>, start: usize, end: usize, max: u32) -> (r: Option<u32>)
    requires
        start <= end <= chars.len(),
    ensures
        match r {
            Some(v) => id_value(chars@.subrange(start as int, end as int), max as nat) == Some(
                v as nat,
            ),
            None => id_value(chars@.subrange(start as int, end as int), max as nat).is_none(),
        },
{
    if start == end {
        return None;
    }
    let ghost piece = chars@.subrange(start as int, end as int);
    let ghost digits = text_digits(piece);
    let mut acc: u64 = 0;
    let mut i: usize = start;
    assert(digits.take(0) =~= Seq::<u8>::empty());
    while i < end
        invariant
            start <= i <= end <= chars.len(),
            piece == chars@.subrange(start as int, end as int),
            digits == text_digits(piece),
            forall|k: int| start <= k < i ==> is_digit(#[trigger] chars@[k]),
            acc == digits_value(digits.take(i - start)),
            acc <= max,
        decreases end - i,
    {
        let c: char = chars[i];
        assert(piece[i - start] == c);
        if !('0' <= c && c <= '9') {
            return None;
        }
        let d: u64 = (c as u32 - '0' as u32) as u64;
        proof {
            assert(digits.take(i + 1 - start).drop_last() =~= digits.take(i - start));
            assert(digits.take(i + 1 - start).last() == digit_of(c));
            lemma_digits_value_prefix(digits, i + 1 - start, end - start);
            assert(digits.take(end - start) =~= digits);
        }
        acc = acc * 10 + d;
        if acc > max as u64 {
            return None;
        }
        i = i + 1;
    }
    proof {
        assert(digits.take(end - start) =~= digits);
        assert forall|k: int| 0 <= k < piece.len() implies is_digit(piece[k]) by {
            assert(piece[k] == chars@[start + k]);
        }
    }
    Some(acc as u32)
}

} // verus!
