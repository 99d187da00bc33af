//! Character sequences: conversion, search, splitting and replacement.
//!
//! Strings are handled here by their characters, so that every position is a
//! character position and no byte offset has to be kept on a boundary.

use vstd::prelude::*;

verus! {

/// `String::push` appends one character at the end.
pub assume_specification[ String::push ](s: &mut String, c: char)
    ensures
        final(s)@ == old(s)@.push(c),
;

/// Whether `c` has the Unicode property White_Space: the controls from tab
/// to carriage return, the space, next line, the no-break spaces, the Ogham
/// space mark, the spaces from en quad to hair space, the line and the
/// paragraph separator, the medium mathematical space and the ideographic
/// space.
pub open spec fn white_space(c: char) -> bool {
    let code = c as u32;
    ||| 0x09 <= code <= 0x0d
    ||| code == 0x20
    ||| code == 0x85
    ||| code == 0xa0
    ||| code == 0x1680
    ||| 0x2000 <= code <= 0x200a
    ||| code == 0x2028
    ||| code == 0x2029
    ||| code == 0x202f
    ||| code == 0x205f
    ||| code == 0x3000
}

/// `char::is_whitespace`, which is true of the characters with the property
/// White_Space and of no others.
#[verifier::external_body]
pub(crate) fn is_whitespace(c: char) -> (b: bool)
    ensures
        b == white_space(c),
{
    c.is_whitespace()
}

/// `pat` stands in `s` at position `i`.
pub open spec fn occurs_at(s: Seq<char>, pat: Seq<char>, i: int) -> bool {
    &&& 0 <= i
    &&& i + pat.len() <= s.len()
    &&& s.subrange(i, i + pat.len()) == pat
}

/// `s` with every match of `from` replaced by `to`, matches being taken from
/// the left and never overlapping. An empty `from` matches before every
/// character and at the end.
pub open spec fn replaced(s: Seq<char>, from: Seq<char>, to: Seq<char>) -> Seq<char>
    decreases s.len(),
{
    if s.len() == 0 {
        if from.len() == 0 {
            to
        } else {
            s
        }
    } else if from.len() == 0 {
        to + seq![s[0]] + replaced(s.skip(1), from, to)
    } else if occurs_at(s, from, 0) {
        to + replaced(s.skip(from.len() as int), from, to)
    } else {
        seq![s[0]] + replaced(s.skip(1), from, to)
    }
}

/// The position of the first `c` in `s`, or the length of `s` where there is none.
pub open spec fn first_index(s: Seq<char>, c: char) -> int
    decreases s.len(),
{
    if s.len() == 0 {
        0
    } else if s[0] == c {
        0
    } else {
        1 + first_index(s.skip(1), c)
    }
}

/// The pieces of `s` between the occurrences of `sep`: one more piece than
/// there are separators, empty pieces included.
pub open spec fn split_on(s: Seq<char>, sep: char) -> Seq<Seq<char>>
    decreases s.len(),
{
    let i = first_index(s, sep);
    if 0 <= i < s.len() {
        seq![s.take(i)] + split_on(s.skip(i + 1), sep)
    } else {
        seq![s]
    }
}

/// `s` ends with `suffix`.
pub open spec fn has_suffix(s: Seq<char>, suffix: Seq<char>) -> bool {
    suffix.len() <= s.len() && s.skip(s.len() - suffix.len()) == suffix
}

/// `s` without a trailing `suffix`, where it has one.
pub open spec fn without_suffix(s: Seq<char>, suffix: Seq<char>) -> Option<Seq<char>> {
    if has_suffix(s, suffix) {
        Some(s.take(s.len() - suffix.len()))
    } else {
        None
    }
}

/// Every character of `line` is white space: nothing is left after trimming.
pub open spec fn blank(line: Seq<char>) -> bool {
    forall|i: int| 0 <= i < line.len() ==> white_space(#[trigger] line[i])
}

/// `first_index` points at the first occurrence and nowhere before it.
pub proof fn lemma_first_index(s: Seq<char>, c: char)
    ensures
        0 <= first_index(s, c) <= s.len(),
        first_index(s, c) < s.len() ==> s[first_index(s, c)] == c,
        forall|j: int| 0 <= j < first_index(s, c) ==> s[j] != c,
    decreases s.len(),
{
    if s.len() > 0 && s[0] != c {
        let rest = s.skip(1);
        lemma_first_index(rest, c);
        assert forall|j: int| 0 <= j < first_index(s, c) implies s[j] != c by {
            if j > 0 {
                assert(rest[j - 1] == s[j]);
            }
        }
    }
}

/// A position holding `c` with no `c` before it is the first index.
pub proof fn lemma_first_index_is(s: Seq<char>, c: char, i: int)
    requires
        0 <= i <= s.len(),
        i < s.len() ==> s[i] == c,
        forall|j: int| 0 <= j < i ==> s[j] != c,
    ensures
        first_index(s, c) == i,
{
    lemma_first_index(s, c);
    let k = first_index(s, c);
    if k < i {
        assert(s[k] != c);
    }
}

/// An occurrence in all but the first character is an occurrence one
/// position further in the whole.
proof fn lemma_occurs_shift(s: Seq<char>, pat: Seq<char>, by: int, i: int)
    requires
        0 <= by <= s.len(),
    ensures
        occurs_at(s.skip(by), pat, i) <==> (i >= 0 && occurs_at(s, pat, i + by)),
{
    if 0 <= i && i + pat.len() <= s.len() - by {
        assert(s.skip(by).subrange(i, i + pat.len()) == s.subrange(i + by, i + by + pat.len()));
    }
}

/// Where `from` stands nowhere in `s`, replacing leaves `s` as it is.
pub proof fn lemma_replaced_absent(s: Seq<char>, from: Seq<char>, to: Seq<char>)
    requires
        from.len() > 0,
        forall|i: int| !occurs_at(s, from, i),
    ensures
        replaced(s, from, to) == s,
    decreases s.len(),
{
    if s.len() > 0 {
        let rest = s.skip(1);
        assert forall|i: int| !occurs_at(rest, from, i) by {
            lemma_occurs_shift(s, from, 1, i);
        }
        lemma_replaced_absent(rest, from, to);
        assert(seq![s[0]] + rest == s);
    }
}

/// Where `from` stands in `s` at one position only, replacing changes that
/// occurrence and nothing else: what is before it and what is behind it stay.
pub proof fn lemma_replaced_once(s: Seq<char>, from: Seq<char>, to: Seq<char>, at: int)
    requires
        from.len() > 0,
        occurs_at(s, from, at),
        forall|i: int| occurs_at(s, from, i) ==> i == at,
    ensures
        replaced(s, from, to) == s.take(at) + to + s.skip(at + from.len()),
    decreases s.len(),
{
    if at == 0 {
        let rest = s.skip(from.len() as int);
        assert forall|i: int| !occurs_at(rest, from, i) by {
            lemma_occurs_shift(s, from, from.len() as int, i);
        }
        lemma_replaced_absent(rest, from, to);
        assert(s.take(0) + to + rest == to + rest);
    } else {
        let rest = s.skip(1);
        assert(!occurs_at(s, from, 0));
        assert forall|i: int| occurs_at(rest, from, i) implies i == at - 1 by {
            lemma_occurs_shift(s, from, 1, i);
        }
        lemma_occurs_shift(s, from, 1, at - 1);
        lemma_replaced_once(rest, from, to, at - 1);
        assert(rest.skip(at - 1 + from.len()) == s.skip(at + from.len()));
        assert(seq![s[0]] + rest.take(at - 1) == s.take(at));
        assert(seq![s[0]] + (rest.take(at - 1) + to + s.skip(at + from.len())) == s.take(at) + to
            + s.skip(at + from.len()));
    }
}

/// The characters of `s`, in order.
pub fn chars_of(s: &str) -> (v: Vec<char>)
    ensures
        v@ == s@,
{
    let mut v: Vec<char> = Vec::new();
    for c in it: s.chars()
        invariant
            v@ == it.seq().take(it.index() as int),
            it.seq() == s@,
    {
        v.push(c);
    }
    v
}

/// The string made of the characters of `v`, in order.
pub fn string_of(v: &Vec<char>) -> (s: String)
    ensures
        s@ == v@,
{
    let mut s = String::new();
    let mut i: usize = 0;
    while i < v.len()
        invariant
            i <= v.len(),
            s@ == v@.take(i as int),
        decreases v.len() - i,
    {
        s.push(v[i]);
        i = i + 1;
    }
    s
}

/// The characters `v[from..to]` as a string.
pub fn string_between(v: &Vec<char>, from: usize, to: usize) -> (s: String)
    requires
        from <= to <= v.len(),
    ensures
        s@ == v@.subrange(from as int, to as int),
{
    let mut s = String::new();
    let mut i: usize = from;
    while i < to
        invariant
            from <= i <= to <= v.len(),
            s@ == v@.subrange(from as int, i as int),
        decreases to - i,
    {
        s.push(v[i]);
        i = i + 1;
    }
    s
}

/// Appends the characters of `more` to `out`.
pub fn push_all(out: &mut Vec<char>, more: &Vec<char>)
    ensures
        final(out)@ == old(out)@ + more@,
{
    let mut i: usize = 0;
    while i < more.len()
        invariant
            i <= more.len(),
            out@ == old(out)@ + more@.take(i as int),
        decreases more.len() - i,
    {
        out.push(more[i]);
        i = i + 1;
    }
}

/// Whether `pat` stands in `s` at position `i`.
pub fn matches_at(s: &Vec<char>, pat: &Vec<char>, i: usize) -> (b: bool)
    ensures
        b == occurs_at(s@, pat@, i as int),
{
    if pat.len() > s.len() || i > s.len() - pat.len() {
        return false;
    }
    let mut k: usize = 0;
    while k < pat.len()
        invariant
            k <= pat.len(),
            i + pat.len() <= s.len(),
            forall|j: int| 0 <= j < k ==> s@[i + j] == pat@[j],
        decreases pat.len() - k,
    {
        if s[i + k] != pat[k] {
            proof {
                let window = s@.subrange(i as int, i + pat.len());
                assert(window[k as int] == s@[i + k]);
            }
            return false;
        }
        k = k + 1;
    }
    assert(s@.subrange(i as int, i + pat.len()) =~= pat@);
    true
}

/// Replaces every match of `from` in `s` by `to`.
pub fn replace_chars(s: &Vec<char>, from: &Vec<char>, to: &Vec<char>) -> (out: Vec<char>)
    ensures
        out@ == replaced(s@, from@, to@),
{
    let mut out: Vec<char> = Vec::new();
    let mut i: usize = 0;
    assert(s@.skip(0) == s@);
    assert(out@ + replaced(s@, from@, to@) == replaced(s@, from@, to@));
    while i < s.len()
        invariant
            i <= s.len(),
            out@ + replaced(s@.skip(i as int), from@, to@) == replaced(s@, from@, to@),
        decreases s.len() - i,
    {
        let ghost rest = s@.skip(i as int);
        assert(rest.len() > 0 && rest[0] == s@[i as int]);
        if from.len() == 0 {
            assert(rest.skip(1) == s@.skip(i + 1));
            push_all(&mut out, to);
            out.push(s[i]);
            i = i + 1;
        } else if matches_at(s, from, i) {
            assert(rest.subrange(0, from@.len() as int) == s@.subrange(i as int, i + from@.len()));
            assert(rest.skip(from@.len() as int) == s@.skip(i + from@.len()));
            push_all(&mut out, to);
            i = i + from.len();
        } else {
            assert(i + from@.len() <= s@.len() ==> rest.subrange(0, from@.len() as int)
                == s@.subrange(i as int, i + from@.len()));
            assert(rest.skip(1) == s@.skip(i + 1));
            out.push(s[i]);
            i = i + 1;
        }
    }
    assert(s@.skip(i as int).len() == 0);
    if from.len() == 0 {
        push_all(&mut out, to);
    }
    out
}

/// Replaces every match of `from` in `s` by `to`, as `str::replace` does.
pub fn replace_all(s: &str, from: &str, to: &str) -> (out: String)
    ensures
        out@ == replaced(s@, from@, to@),
{
    let text = chars_of(s);
    let pat = chars_of(from);
    let with = chars_of(to);
    let done = replace_chars(&text, &pat, &with);
    string_of(&done)
}

/// Splits `s` at every `sep`.
pub fn split(s: &str, sep: char) -> (pieces: Vec<String>)
    ensures
        pieces@.len() == split_on(s@, sep).len(),
        forall|k: int| 0 <= k < pieces@.len() ==> (#[trigger] pieces@[k])@ == split_on(s@, sep)[k],
{
    let text = chars_of(s);
    let mut pieces: Vec<String> = Vec::new();
    let mut start: usize = 0;
    let mut i: usize = 0;
    assert(text@.skip(0) == text@);
    while i < text.len()
        invariant
            start <= i <= text.len(),
            text@ == s@,
            forall|j: int| start <= j < i ==> text@[j] != sep,
            split_on(s@, sep).len() == pieces@.len() + split_on(text@.skip(start as int), sep).len(),
            forall|k: int| 0 <= k < pieces@.len() ==> (#[trigger] pieces@[k])@ == split_on(s@, sep)[k],
            forall|k: int| 0 <= k < split_on(text@.skip(start as int), sep).len() ==>
                split_on(s@, sep)[pieces@.len() + k] == #[trigger] split_on(text@.skip(start as int), sep)[k],
        decreases text.len() - i,
    {
        if text[i] == sep {
            let ghost rest = text@.skip(start as int);
            let ghost tail = split_on(rest, sep);
            proof {
                assert forall|j: int| 0 <= j < i - start implies rest[j] != sep by {
                    assert(rest[j] == text@[start + j]);
                }
                lemma_first_index_is(rest, sep, i - start);
                assert(rest.take(i - start) == text@.subrange(start as int, i as int));
                assert(rest.skip(i - start + 1) == text@.skip(i + 1));
                assert(tail == seq![rest.take(i - start)] + split_on(text@.skip(i + 1), sep));
                assert(tail[0] == rest.take(i - start));
                assert forall|k: int| 0 <= k < split_on(text@.skip(i + 1), sep).len() implies
                    split_on(s@, sep)[pieces@.len() + 1 + k] == #[trigger] split_on(
                    text@.skip(i + 1),
                    sep,
                )[k] by {
                    assert(tail[k + 1] == split_on(text@.skip(i + 1), sep)[k]);
                }
            }
            let piece = string_between(&text, start, i);
            pieces.push(piece);
            start = i + 1;
        }
        i = i + 1;
    }
    proof {
        let rest = text@.skip(start as int);
        assert forall|j: int| 0 <= j < rest.len() implies rest[j] != sep by {
            assert(rest[j] == text@[start + j]);
        }
        lemma_first_index_is(rest, sep, rest.len() as int);
        assert(split_on(rest, sep) == seq![rest]);
        assert(split_on(rest, sep)[0] == rest);
        assert(rest == text@.subrange(start as int, text@.len() as int));
    }
    let piece = string_between(&text, start, text.len());
    pieces.push(piece);
    pieces
}

/// Whether `s` ends with `suffix`; if so, what stands before it.
pub fn strip_suffix(s: &str, suffix: &str) -> (r: Option<String>)
    ensures
        match r {
            Some(stem) => without_suffix(s@, suffix@) == Some(stem@),
            None => without_suffix(s@, suffix@) is None,
        },
{
    let text = chars_of(s);
    let tail = chars_of(suffix);
    if tail.len() > text.len() {
        return None;
    }
    let at: usize = text.len() - tail.len();
    if matches_at(&text, &tail, at) {
        assert(text@.skip(at as int) == text@.subrange(at as int, at + tail@.len()));
        assert(text@.take(at as int) == text@.subrange(0, at as int));
        Some(string_between(&text, 0, at))
    } else {
        assert(text@.skip(at as int) == text@.subrange(at as int, at + tail@.len()));
        None
    }
}

/// Whether `a` and `b` hold the same characters.
pub fn same_text(a: &str, b: &str) -> (same: bool)
    ensures
        same == (a@ == b@),
{
    let x = chars_of(a);
    let y = chars_of(b);
    if x.len() != y.len() {
        return false;
    }
    let mut i: usize = 0;
    while i < x.len()
        invariant
            i <= x.len(),
            x.len() == y.len(),
            x@ == a@,
            y@ == b@,
            forall|j: int| 0 <= j < i ==> x@[j] == y@[j],
        decreases x.len() - i,
    {
        if x[i] != y[i] {
            return false;
        }
        i = i + 1;
    }
    assert(x@ =~= y@);
    true
}

/// Whether nothing of `line` is left after trimming white space.
pub fn is_blank(line: &str) -> (b: bool)
    ensures
        b == blank(line@),
{
    let text = chars_of(line);
    let mut i: usize = 0;
    while i < text.len()
        invariant
            i <= text.len(),
            text@ == line@,
            forall|j: int| 0 <= j < i ==> white_space(#[trigger] text@[j]),
        decreases text.len() - i,
    {
        if !is_whitespace(text[i]) {
            return false;
        }
        i = i + 1;
    }
    true
}

} // verus!
