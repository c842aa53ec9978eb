//! Removing characters from the ends of a text.

use crate::chars::{is_whitespace, spec_is_whitespace};
use vstd::prelude::*;

verus! {

/// `s` without its leading white space.
pub open spec fn spec_trim_start(s: Seq<char>) -> Seq<char>
    decreases s.len(),
{
    if s.len() > 0 && spec_is_whitespace(s.first()) {
        spec_trim_start(s.drop_first())
    } else {
        s
    }
}

/// `s` without its trailing white space.
pub open spec fn spec_trim_end(s: Seq<char>) -> Seq<char>
    decreases s.len(),
{
    if s.len() > 0 && spec_is_whitespace(s.last()) {
        spec_trim_end(s.drop_last())
    } else {
        s
    }
}

/// `s` without its leading and trailing white space.
pub open spec fn spec_trim(s: Seq<char>) -> Seq<char> {
    spec_trim_end(spec_trim_start(s))
}

/// `s` without the run of `c` that it starts with.
pub open spec fn spec_trim_start_matches(s: Seq<char>, c: char) -> Seq<char>
    decreases s.len(),
{
    if s.len() > 0 && s.first() == c {
        spec_trim_start_matches(s.drop_first(), c)
    } else {
        s
    }
}

/// The number of characters of `s` before its first white space.
pub open spec fn spec_word_len(s: Seq<char>) -> nat
    decreases s.len(),
{
    if s.len() > 0 && !spec_is_whitespace(s.first()) {
        1 + spec_word_len(s.drop_first())
    } else {
        0
    }
}

/// The first run of characters of `s` that are not white space; empty if `s`
/// holds nothing but white space.
pub open spec fn spec_first_word(s: Seq<char>) -> Seq<char> {
    let t = spec_trim_start(s);
    t.take(spec_word_len(t) as int)
}

/// What `spec_trim_start` leaves is the end of the text from its first
/// character that is no white space.
pub proof fn lemma_trim_start(s: Seq<char>)
    ensures
        spec_trim_start(s).len() <= s.len(),
        spec_trim_start(s) == s.skip(s.len() - spec_trim_start(s).len()),
        forall|i: int| 0 <= i < s.len() - spec_trim_start(s).len() ==> spec_is_whitespace(s[i]),
        spec_trim_start(s).len() > 0 ==> !spec_is_whitespace(spec_trim_start(s).first()),
    decreases s.len(),
{
    if s.len() > 0 && spec_is_whitespace(s.first()) {
        let rest = s.drop_first();
        lemma_trim_start(rest);
        let n = s.len() - spec_trim_start(s).len();
        assert(rest.skip(n - 1) =~= s.skip(n));
        assert forall|i: int| 0 <= i < n implies spec_is_whitespace(s[i]) by {
            if i > 0 {
                assert(s[i] == rest[i - 1]);
            }
        }
    } else {
        assert(s.skip(0) =~= s);
    }
}

/// What `spec_trim_end` leaves is the start of the text up to its last
/// character that is no white space.
pub proof fn lemma_trim_end(s: Seq<char>)
    ensures
        spec_trim_end(s).len() <= s.len(),
        spec_trim_end(s) == s.take(spec_trim_end(s).len() as int),
        forall|i: int| spec_trim_end(s).len() <= i < s.len() ==> spec_is_whitespace(s[i]),
        spec_trim_end(s).len() > 0 ==> !spec_is_whitespace(spec_trim_end(s).last()),
    decreases s.len(),
{
    if s.len() > 0 && spec_is_whitespace(s.last()) {
        let rest = s.drop_last();
        lemma_trim_end(rest);
        let n = spec_trim_end(s).len() as int;
        assert(rest.take(n) =~= s.take(n));
        assert forall|i: int| n <= i < s.len() implies spec_is_whitespace(s[i]) by {
            if i < s.len() - 1 {
                assert(s[i] == rest[i]);
            }
        }
    } else {
        assert(s.take(s.len() as int) =~= s);
    }
}

/// A trimmed text is a part of the text with nothing but white space before
/// and after it, and neither begins nor ends with white space.
pub proof fn lemma_trim(s: Seq<char>)
    ensures
        ({
            let from = s.len() - spec_trim_start(s).len();
            let to = from + spec_trim(s).len();
            &&& 0 <= from <= to <= s.len()
            &&& spec_trim(s) == s.subrange(from, to)
            &&& forall|i: int| 0 <= i < from || to <= i < s.len() ==> spec_is_whitespace(s[i])
            &&& spec_trim(s).len() > 0 ==> !spec_is_whitespace(spec_trim(s).first())
                && !spec_is_whitespace(spec_trim(s).last())
        }),
{
    let t = spec_trim_start(s);
    let from = s.len() - t.len();
    let to = from + spec_trim(s).len();
    lemma_trim_start(s);
    lemma_trim_end(t);
    assert(spec_trim(s) =~= s.subrange(from, to));
    assert forall|i: int| to <= i < s.len() implies spec_is_whitespace(s[i]) by {
        assert(s[i] == t[i - from]);
    }
    if spec_trim(s).len() > 0 {
        assert(spec_trim(s).first() == t.first());
    }
}

/// The first word of a text holds no white space, and is empty only if the
/// text holds nothing else.
pub proof fn lemma_first_word(s: Seq<char>)
    ensures
        forall|i: int|
            0 <= i < spec_first_word(s).len() ==> !spec_is_whitespace(
                #[trigger] spec_first_word(s)[i],
            ),
        spec_first_word(s).len() == 0 <==> forall|i: int|
            0 <= i < s.len() ==> spec_is_whitespace(s[i]),
{
    let t = spec_trim_start(s);
    lemma_trim_start(s);
    lemma_word_len(t);
    if t.len() > 0 {
        assert(t.first() == s[s.len() - t.len()]);
    }
}

/// `spec_word_len` counts the characters before the first white space.
proof fn lemma_word_len(s: Seq<char>)
    ensures
        spec_word_len(s) <= s.len(),
        forall|i: int| 0 <= i < spec_word_len(s) ==> !spec_is_whitespace(s[i]),
        spec_word_len(s) < s.len() ==> spec_is_whitespace(s[spec_word_len(s) as int]),
    decreases s.len(),
{
    if s.len() > 0 && !spec_is_whitespace(s.first()) {
        let rest = s.drop_first();
        lemma_word_len(rest);
        assert forall|i: int| 0 <= i < spec_word_len(s) implies !spec_is_whitespace(s[i]) by {
            if i > 0 {
                assert(s[i] == rest[i - 1]);
            }
        }
        if spec_word_len(s) < s.len() {
            assert(s[spec_word_len(s) as int] == rest[spec_word_len(rest) as int]);
        }
    }
}

/// Removes leading white space.
pub fn trim_start<'a>(s: &'a [char]) -> (t: &'a [char])
    ensures
        t@ == spec_trim_start(s@),
{
    let mut i: usize = 0;
    assert(s@.skip(0) =~= s@);
    while i < s.len() && is_whitespace(s[i])
        invariant
            i <= s.len(),
            spec_trim_start(s@) == spec_trim_start(s@.skip(i as int)),
        decreases s.len() - i,
    {
        assert(s@.skip(i as int).drop_first() =~= s@.skip(i + 1));
        i += 1;
    }
    &s[i..s.len()]
}

/// Removes trailing white space.
pub fn trim_end<'a>(s: &'a [char]) -> (t: &'a [char])
    ensures
        t@ == spec_trim_end(s@),
{
    let mut n: usize = s.len();
    assert(s@.take(s.len() as int) =~= s@);
    while n > 0 && is_whitespace(s[n - 1])
        invariant
            n <= s.len(),
            spec_trim_end(s@) == spec_trim_end(s@.take(n as int)),
        decreases n,
    {
        assert(s@.take(n as int).drop_last() =~= s@.take(n - 1));
        n -= 1;
    }
    &s[0..n]
}

/// Removes leading and trailing white space.
pub fn trim<'a>(s: &'a [char]) -> (t: &'a [char])
    ensures
        t@ == spec_trim(s@),
{
    trim_end(trim_start(s))
}

/// Removes every `c` that `s` starts with.
pub fn trim_start_matches<'a>(s: &'a [char], c: char) -> (t: &'a [char])
    ensures
        t@ == spec_trim_start_matches(s@, c),
{
    let mut i: usize = 0;
    assert(s@.skip(0) =~= s@);
    while i < s.len() && s[i] == c
        invariant
            i <= s.len(),
            spec_trim_start_matches(s@, c) == spec_trim_start_matches(s@.skip(i as int), c),
        decreases s.len() - i,
    {
        assert(s@.skip(i as int).drop_first() =~= s@.skip(i + 1));
        i += 1;
    }
    &s[i..s.len()]
}

/// The first word of `s`: what `s` holds between its leading white space and
/// the next white space after it.
pub fn first_word<'a>(s: &'a [char]) -> (word: &'a [char])
    ensures
        word@ == spec_first_word(s@),
{
    let t = trim_start(s);
    let mut n: usize = 0;
    assert(t@.skip(0) =~= t@);
    while n < t.len() && !is_whitespace(t[n])
        invariant
            n <= t.len(),
            spec_word_len(t@) == n + spec_word_len(t@.skip(n as int)),
        decreases t.len() - n,
    {
        assert(t@.skip(n as int).drop_first() =~= t@.skip(n + 1));
        n += 1;
    }
    &t[0..n]
}

} // verus!
