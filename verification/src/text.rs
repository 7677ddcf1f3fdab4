//! Strings as sequences of characters: conversion in both directions, and
//! the search and splitting primitives that the parsers are stated with.

use crate::number::is_digit;
use vstd::prelude::*;
use vstd::slice::slice_subrange;

verus! {

/// Whether `pat` occurs in `s` at index `i`.
pub open spec fn occurs_at(s: Seq<char>, pat: Seq<char>, i: int) -> bool {
    0 <= i && i + pat.len() <= s.len() && s.subrange(i, i + pat.len()) == pat
}

/// The least index at or after `from` where `pat` occurs in `s`.
pub open spec fn find_from(s: Seq<char>, pat: Seq<char>, from: int) -> Option<int>
    decreases s.len() + 1 - from,
{
    if from < 0 || from + pat.len() > s.len() {
        None
    } else if occurs_at(s, pat, from) {
        Some(from)
    } else {
        find_from(s, pat, from + 1)
    }
}

/// The index of the first occurrence of `pat` in `s`.
pub open spec fn find(s: Seq<char>, pat: Seq<char>) -> Option<int> {
    find_from(s, pat, 0)
}

/// `s` cut at the first occurrence of `sep`: what stands before it, and what
/// stands after it. Without an occurrence the first part is all of `s` and
/// there is no second part.
pub open spec fn cut(s: Seq<char>, sep: Seq<char>) -> (Seq<char>, Option<Seq<char>>) {
    match find(s, sep) {
        Some(i) => (s.take(i), Some(s.skip(i + sep.len()))),
        None => (s, None),
    }
}

/// `s` without its leading run of the character `c`.
pub open spec fn trim_start(s: Seq<char>, c: char) -> Seq<char>
    decreases s.len(),
{
    if s.len() > 0 && s[0] == c {
        trim_start(s.skip(1), c)
    } else {
        s
    }
}

/// The test that a character passes if it is not `c`.
pub open spec fn is_not(c: char) -> spec_fn(char) -> bool {
    |x: char| x != c
}

/// `s` without any occurrence of the character `c`.
pub open spec fn without(s: Seq<char>, c: char) -> Seq<char> {
    s.filter(is_not(c))
}

/// What the standard library's `char::is_alphanumeric` answers for `c`:
/// whether Unicode counts it as a letter or as a number.
pub uninterp spec fn unicode_alphanumeric(c: char) -> bool;

/// Whether `c` is a letter or a number.
pub open spec fn is_alphanumeric(c: char) -> bool {
    is_digit(c) || unicode_alphanumeric(c)
}

/// Whether `s` holds a letter or a number.
pub open spec fn has_alphanumeric(s: Seq<char>) -> bool {
    exists|i: int| 0 <= i < s.len() && is_alphanumeric(#[trigger] s[i])
}

/// The pieces of `s` between the occurrences of `sep`, found from left to
/// right without overlap. There is always at least one piece.
pub open spec fn split(s: Seq<char>, sep: Seq<char>) -> Seq<Seq<char>>
    recommends
        sep.len() > 0,
    decreases s.len(),
{
    match find(s, sep) {
        Some(i) => if sep.len() > 0 {
            proof {
                lemma_find(s, sep);
            }
            seq![s.take(i)] + split(s.skip(i + sep.len()), sep)
        } else {
            seq![s]
        },
        None => seq![s],
    }
}

/// The pieces of `s` as `split` gives them, without the last one if it is
/// empty.
pub open spec fn split_terminator(s: Seq<char>, sep: Seq<char>) -> Seq<Seq<char>> {
    let pieces = split(s, sep);
    if pieces.last().len() == 0 {
        pieces.drop_last()
    } else {
        pieces
    }
}

/// `find_from` returns the least matching index at or after `from`.
pub proof fn lemma_find_from(s: Seq<char>, pat: Seq<char>, from: int)
    requires
        0 <= from,
    ensures
        match find_from(s, pat, from) {
            Some(i) => from <= i && occurs_at(s, pat, i) && forall|j: int|
                from <= j < i ==> !occurs_at(s, pat, j),
            None => forall|j: int| from <= j ==> !occurs_at(s, pat, j),
        },
    decreases s.len() + 1 - from,
{
    if from + pat.len() > s.len() {
    } else if occurs_at(s, pat, from) {
    } else {
        lemma_find_from(s, pat, from + 1);
    }
}

/// `find` returns the least matching index.
pub proof fn lemma_find(s: Seq<char>, pat: Seq<char>)
    ensures
        match find(s, pat) {
            Some(i) => occurs_at(s, pat, i) && forall|j: int| 0 <= j < i ==> !occurs_at(s, pat, j),
            None => forall|j: int| !occurs_at(s, pat, j),
        },
{
    lemma_find_from(s, pat, 0);
}

/// An index where `pat` occurs, with no occurrence before it, is what `find`
/// returns.
pub proof fn lemma_find_is(s: Seq<char>, pat: Seq<char>, i: int)
    requires
        occurs_at(s, pat, i),
        forall|j: int| 0 <= j < i ==> !occurs_at(s, pat, j),
    ensures
        find(s, pat) == Some(i),
{
    lemma_find(s, pat);
}

/// Without an occurrence `find` returns nothing.
pub proof fn lemma_find_none(s: Seq<char>, pat: Seq<char>)
    requires
        forall|j: int| 0 <= j ==> !occurs_at(s, pat, j),
    ensures
        find(s, pat) is None,
{
    lemma_find(s, pat);
}

/// A separator that first occurs right after `head` cuts the text into
/// `head` and what follows the separator.
pub proof fn lemma_cut(head: Seq<char>, sep: Seq<char>, tail: Seq<char>)
    requires
        forall|j: int| 0 <= j < head.len() ==> !occurs_at(head + sep + tail, sep, j),
    ensures
        cut(head + sep + tail, sep) == (head, Some(tail)),
{
    let s = head + sep + tail;
    let i = head.len() as int;
    assert(s.subrange(i, i + sep.len()) =~= sep);
    lemma_find_is(s, sep, i);
    assert(s.take(i) =~= head);
    assert(s.skip(i + sep.len()) =~= tail);
}

/// A head without the separator's first character holds no start of the
/// separator, so the text is cut right after it.
pub proof fn lemma_cut_after(head: Seq<char>, sep: Seq<char>, tail: Seq<char>)
    requires
        sep.len() > 0,
        !head.contains(sep[0]),
    ensures
        cut(head + sep + tail, sep) == (head, Some(tail)),
{
    let s = head + sep + tail;
    assert forall|j: int| 0 <= j < head.len() implies !occurs_at(s, sep, j) by {
        if occurs_at(s, sep, j) {
            assert(s.subrange(j, j + sep.len())[0] == sep[0]);
            assert(head[j] == sep[0]);
        }
    }
    lemma_cut(head, sep, tail);
}

/// A text without the separator's first character is not cut.
pub proof fn lemma_cut_nowhere(s: Seq<char>, sep: Seq<char>)
    requires
        sep.len() > 0,
        !s.contains(sep[0]),
    ensures
        cut(s, sep) == (s, None::<Seq<char>>),
{
    assert forall|j: int| 0 <= j implies !occurs_at(s, sep, j) by {
        if occurs_at(s, sep, j) {
            assert(s.subrange(j, j + sep.len())[0] == sep[0]);
            assert(s[j] == sep[0]);
        }
    }
    lemma_find_none(s, sep);
}

/// A text that does not begin with `c` has nothing trimmed.
pub proof fn lemma_trim_start_keeps(s: Seq<char>, c: char)
    requires
        s.len() == 0 || s[0] != c,
    ensures
        trim_start(s, c) == s,
{
}

/// The number of characters that `trim_start` drops.
pub open spec fn leading(s: Seq<char>, c: char) -> nat
    decreases s.len(),
{
    if s.len() > 0 && s[0] == c {
        1 + leading(s.skip(1), c)
    } else {
        0
    }
}

/// What `trim_start` leaves is the text from the first character on that is
/// not `c`.
pub proof fn lemma_trim_start(s: Seq<char>, c: char)
    ensures
        leading(s, c) <= s.len(),
        trim_start(s, c) == s.skip(leading(s, c) as int),
        forall|j: int| 0 <= j < leading(s, c) ==> s[j] == c,
        leading(s, c) < s.len() ==> s[leading(s, c) as int] != c,
    decreases s.len(),
{
    if s.len() > 0 && s[0] == c {
        lemma_trim_start(s.skip(1), c);
        let k = leading(s.skip(1), c) as int;
        assert(s.skip(1).skip(k) =~= s.skip(k + 1));
        assert forall|j: int| 0 <= j < leading(s, c) implies s[j] == c by {
            if j > 0 {
                assert(s.skip(1)[j - 1] == c);
            }
        }
        if leading(s, c) < s.len() {
            assert(s.skip(1)[k] == s[k + 1]);
        }
    } else {
        assert(s.skip(0) =~= s);
    }
}

/// A text without the character `c` is left as it is by `without`.
pub proof fn lemma_without_keeps(s: Seq<char>, c: char)
    requires
        !s.contains(c),
    ensures
        without(s, c) == s,
    decreases s.len(),
{
    reveal(Seq::filter);
    if s.len() > 0 {
        assert forall|x: char| s.drop_last().contains(x) implies s.contains(x) by {
            let i = choose|i: int| 0 <= i < s.drop_last().len() && s.drop_last()[i] == x;
            assert(s[i] == x);
        }
        lemma_without_keeps(s.drop_last(), c);
        assert(s.last() != c) by {
            assert(s[s.len() - 1] == s.last());
        }
        assert(s.drop_last().push(s.last()) =~= s);
    }
}

/// What `without` leaves holds the character `c` nowhere.
pub proof fn lemma_without_holds_none(s: Seq<char>, c: char)
    ensures
        !without(s, c).contains(c),
{
    let w = without(s, c);
    if w.contains(c) {
        let i = choose|i: int| 0 <= i < w.len() && w[i] == c;
        s.lemma_filter_pred(is_not(c), i);
    }
}

/// A separator of two characters occurs where the two stand side by side.
pub proof fn lemma_occurs_at_pair(s: Seq<char>, a: char, b: char, j: int)
    ensures
        occurs_at(s, seq![a, b], j) <==> 0 <= j && j + 2 <= s.len() && s[j] == a && s[j + 1] == b,
{
    let pat = seq![a, b];
    assert(pat.len() == 2 && pat[0] == a && pat[1] == b);
    if 0 <= j && j + 2 <= s.len() {
        let sub = s.subrange(j, j + 2);
        assert(sub[0] == s[j] && sub[1] == s[j + 1]);
        if s[j] == a && s[j + 1] == b {
            assert(sub =~= pat);
        }
    }
}

/// Whether `c` is a letter or a number.
///
/// Calls `char::is_alphanumeric`. Its answer depends on the character alone
/// and is named `unicode_alphanumeric`; that it is `true` for the ten
/// decimal digits, which the standard library's documentation shows by
/// example, is stated outright.
#[verifier::external_body]
pub(crate) fn char_is_alphanumeric(c: char) -> (b: bool)
    ensures
        b == (is_digit(c) || unicode_alphanumeric(c)),
{
    c.is_alphanumeric()
}

/// Appends one character to a string.
///
/// Calls `String::push`, which the standard library documents as appending
/// the given character to the end of the string.
#[verifier::external_body]
pub(crate) fn push_char(s: &mut String, c: char)
    ensures
        final(s)@ == old(s)@.push(c),
{
    s.push(c)
}

/// The characters of `s`, in order.
pub fn chars_of(s: &str) -> (v: Vec<char>)
    ensures
        v@ == s@,
{
    let mut v: Vec<char> = Vec::new();
    for c in it: s.chars()
        invariant
            v@ == it.seq().take(it.index() as int),
            it.seq() == s@,
    {
        v.push(c);
    }
    v
}

/// Appends the characters of `chars` to `out`.
pub fn push_chars(out: &mut String, chars: &[char])
    ensures
        final(out)@ == old(out)@ + chars@,
{
    let mut i: usize = 0;
    while i < chars.len()
        invariant
            i <= chars.len(),
            out@ == old(out)@ + chars@.take(i as int),
        decreases chars.len() - i,
    {
        push_char(out, chars[i]);
        i += 1;
        assert(out@ =~= old(out)@ + chars@.take(i as int));
    }
    assert(chars@.take(i as int) =~= chars@);
}

/// The string made of the characters of `chars`.
pub fn string_of(chars: &[char]) -> (s: String)
    ensures
        s@ == chars@,
{
    let mut s = String::new();
    push_chars(&mut s, chars);
    assert(s@ =~= chars@);
    s
}

/// Drops the leading run of the character `c` from `s`.
pub fn skip_leading(s: &[char], c: char) -> (r: &[char])
    ensures
        r@ == trim_start(s@, c),
{
    let mut i: usize = 0;
    assert(s@.skip(0) =~= s@);
    while i < s.len() && s[i] == c
        invariant
            i <= s.len(),
            trim_start(s@, c) == trim_start(s@.skip(i as int), c),
        decreases s.len() - i,
    {
        assert(s@.skip(i as int).skip(1) =~= s@.skip(i + 1));
        i += 1;
    }
    slice_subrange(s, i, s.len())
}

/// The characters of `s` that are not `c`.
pub fn remove_char(s: &[char], c: char) -> (v: Vec<char>)
    ensures
        v@ == without(s@, c),
{
    let mut v: Vec<char> = Vec::new();
    let mut i: usize = 0;
    assert(s@.take(0).filter(is_not(c)) =~= Seq::<char>::empty()) by {
        reveal(Seq::filter);
    }
    while i < s.len()
        invariant
            i <= s.len(),
            v@ == without(s@.take(i as int), c),
        decreases s.len() - i,
    {
        proof {
            s@.take(i as int).lemma_filter_push(s@[i as int], is_not(c));
            assert(s@.take(i as int).push(s@[i as int]) =~= s@.take(i + 1));
        }
        if s[i] != c {
            v.push(s[i]);
        }
        i += 1;
    }
    assert(s@.take(i as int) =~= s@);
    v
}

/// Whether `s` holds a letter or a number.
pub fn holds_alphanumeric(s: &[char]) -> (b: bool)
    ensures
        b == has_alphanumeric(s@),
{
    let mut i: usize = 0;
    while i < s.len()
        invariant
            i <= s.len(),
            forall|j: int| 0 <= j < i ==> !is_alphanumeric(#[trigger] s@[j]),
        decreases s.len() - i,
    {
        if char_is_alphanumeric(s[i]) {
            return true;
        }
        i += 1;
    }
    false
}

/// Whether `pat` stands in `s` at index `i`.
fn matches_at(s: &[char], pat: &[char], i: usize) -> (b: bool)
    requires
        i + pat.len() <= s.len(),
    ensures
        b == occurs_at(s@, pat@, i as int),
{
    let mut k: usize = 0;
    while k < pat.len()
        invariant
            k <= pat.len(),
            i + pat.len() <= s.len(),
            forall|j: int| 0 <= j < k ==> s@[i + j] == pat@[j],
        decreases pat.len() - k,
    {
        if s[i + k] != pat[k] {
            assert(s@.subrange(i as int, i + pat.len())[k as int] != pat@[k as int]);
            return false;
        }
        k += 1;
    }
    assert(s@.subrange(i as int, i + pat.len()) =~= pat@);
    true
}

/// Finds the first occurrence of `pat` in `s`.
pub fn find_first(s: &[char], pat: &[char]) -> (r: Option<usize>)
    ensures
        match r {
            Some(i) => find(s@, pat@) == Some(i as int) && i + pat@.len() <= s@.len(),
            None => find(s@, pat@) is None,
        },
{
    if pat.len() > s.len() {
        return None;
    }
    let last: usize = s.len() - pat.len();
    let mut i: usize = 0;
    loop
        invariant
            i <= last,
            last == s.len() - pat.len(),
            find(s@, pat@) == find_from(s@, pat@, i as int),
        decreases last - i,
    {
        if matches_at(s, pat, i) {
            return Some(i);
        }
        if i == last {
            return None;
        }
        i += 1;
    }
}

/// Cuts `s` at the first occurrence of `sep`.
pub fn cut_at<'a>(s: &'a [char], sep: &[char]) -> (r: (&'a [char], Option<&'a [char]>))
    ensures
        r.0@ == cut(s@, sep@).0,
        match r.1 {
            Some(rest) => cut(s@, sep@).1 == Some(rest@),
            None => cut(s@, sep@).1 is None,
        },
{
    assert(sep@.len() == sep.len() && s@.len() == s.len());
    match find_first(s, sep) {
        Some(i) => (slice_subrange(s, 0, i), Some(slice_subrange(s, i + sep.len(), s.len()))),
        None => (s, None),
    }
}

} // verus!
