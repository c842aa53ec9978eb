//! Searching a text for a pattern, splitting it at the occurrences, and joining
//! pieces again.

use vstd::prelude::*;
use vstd::slice::slice_to_vec;

verus! {

/// Whether `pat` occurs in `s` at index `i`.
pub open spec fn matches_at(s: Seq<char>, pat: Seq<char>, i: int) -> bool {
    &&& 0 <= i
    &&& i + pat.len() <= s.len()
    &&& s.subrange(i, i + pat.len()) =~= pat
}

/// The index of the first occurrence of `pat` in `s`, if there is one.
pub open spec fn spec_find(s: Seq<char>, pat: Seq<char>) -> Option<int>
    decreases s.len(),
{
    if pat.is_prefix_of(s) {
        Some(0)
    } else if s.len() == 0 {
        None
    } else {
        match spec_find(s.drop_first(), pat) {
            Some(i) => Some(i + 1),
            None => None,
        }
    }
}

/// `spec_find` gives the least index at which the pattern occurs, and `None`
/// exactly if it occurs nowhere.
pub proof fn lemma_find(s: Seq<char>, pat: Seq<char>)
    ensures
        match spec_find(s, pat) {
            Some(i) => matches_at(s, pat, i) && forall|j: int| 0 <= j < i ==> !matches_at(s, pat, j),
            None => forall|j: int| !matches_at(s, pat, j),
        },
    decreases s.len(),
{
    if pat.is_prefix_of(s) {
        assert(s.subrange(0, pat.len() as int) =~= pat);
    } else if s.len() == 0 {
        assert forall|j: int| !matches_at(s, pat, j) by {
            if matches_at(s, pat, j) {
                assert(pat =~= Seq::<char>::empty());
            }
        }
    } else {
        let t = s.drop_first();
        lemma_find(t, pat);
        assert forall|j: int| matches_at(s, pat, j + 1) <==> matches_at(t, pat, j) by {
            if 0 <= j && j + 1 + pat.len() <= s.len() {
                assert(s.subrange(j + 1, j + 1 + pat.len()) =~= t.subrange(j, j + pat.len()));
            }
        }
        assert(!matches_at(s, pat, 0)) by {
            if matches_at(s, pat, 0) {
                assert(s.subrange(0, pat.len() as int) =~= pat);
                assert(pat.is_prefix_of(s));
            }
        }
        match spec_find(t, pat) {
            Some(i) => {
                assert(matches_at(s, pat, i + 1));
                assert forall|j: int| 0 <= j < i + 1 implies !matches_at(s, pat, j) by {
                    if j > 0 {
                        assert(matches_at(s, pat, (j - 1) + 1) <==> matches_at(t, pat, j - 1));
                    }
                }
            },
            None => {
                assert forall|j: int| !matches_at(s, pat, j) by {
                    if j != 0 {
                        assert(matches_at(s, pat, (j - 1) + 1) <==> matches_at(t, pat, j - 1));
                    }
                }
            },
        }
    }
}

/// An occurrence with none before it is the one that `spec_find` gives.
pub proof fn lemma_find_first(s: Seq<char>, pat: Seq<char>, i: int)
    requires
        matches_at(s, pat, i),
        forall|j: int| 0 <= j < i ==> !matches_at(s, pat, j),
    ensures
        spec_find(s, pat) == Some(i),
{
    lemma_find(s, pat);
}

/// Where the pattern occurs nowhere, `spec_find` gives `None`.
pub proof fn lemma_find_none(s: Seq<char>, pat: Seq<char>)
    requires
        forall|j: int| 0 <= j <= s.len() - pat.len() ==> !matches_at(s, pat, j),
    ensures
        spec_find(s, pat) is None,
{
    lemma_find(s, pat);
}

/// Tells whether `pat` occurs in `s` at index `i`.
pub fn occurs_at(s: &[char], pat: &[char], i: usize) -> (b: bool)
    ensures
        b == matches_at(s@, pat@, i as int),
{
    if pat.len() > s.len() || i > s.len() - pat.len() {
        return false;
    }
    let mut k: usize = 0;
    while k < pat.len()
        invariant
            k <= pat.len(),
            i + pat.len() <= s.len(),
            forall|j: int| 0 <= j < k ==> s@[i + j] == pat@[j],
        decreases pat.len() - k,
    {
        if s[i + k] != pat[k] {
            assert(s@.subrange(i as int, i + pat@.len())[k as int] != pat@[k as int]);
            return false;
        }
        k += 1;
    }
    true
}

/// Tells whether `s` begins with `prefix`.
pub fn starts_with(s: &[char], prefix: &[char]) -> (b: bool)
    ensures
        b == prefix@.is_prefix_of(s@),
{
    occurs_at(s, prefix, 0)
}

/// The index of the first occurrence of `pat` in `s`, if there is one.
pub fn find(s: &[char], pat: &[char]) -> (at: Option<usize>)
    ensures
        match at {
            Some(i) => spec_find(s@, pat@) == Some(i as int),
            None => spec_find(s@, pat@) is None,
        },
{
    if pat.len() > s.len() {
        proof {
            lemma_find_none(s@, pat@);
        }
        return None;
    }
    let last: usize = s.len() - pat.len();
    let mut i: usize = 0;
    while i <= last
        invariant
            last == s.len() - pat.len(),
            i <= last + 1,
            forall|j: int| 0 <= j < i ==> !matches_at(s@, pat@, j),
        decreases last + 1 - i,
    {
        if occurs_at(s, pat, i) {
            proof {
                lemma_find_first(s@, pat@, i as int);
            }
            return Some(i);
        }
        i += 1;
    }
    proof {
        lemma_find_none(s@, pat@);
    }
    None
}

/// The least index at which `c` stands in `s`, if it occurs there.
pub open spec fn spec_position(s: Seq<char>, c: char) -> Option<int> {
    spec_find(s, seq![c])
}

/// `spec_position` gives the first place of the character, and `None` exactly
/// if the text does not contain it.
pub proof fn lemma_position(s: Seq<char>, c: char)
    ensures
        match spec_position(s, c) {
            Some(i) => 0 <= i < s.len() && s[i] == c && forall|j: int| 0 <= j < i ==> s[j] != c,
            None => !s.contains(c),
        },
{
    let pat = seq![c];
    lemma_find(s, pat);
    assert forall|j: int| 0 <= j < s.len() implies (matches_at(s, pat, j) <==> s[j] == c) by {
        if s[j] == c {
            assert(s.subrange(j, j + 1) =~= pat);
        } else {
            assert(s.subrange(j, j + 1)[0] != pat[0]);
        }
    }
}

/// The index of the first `c` in `s`, if there is one.
pub fn position(s: &[char], c: char) -> (at: Option<usize>)
    ensures
        match at {
            Some(i) => spec_position(s@, c) == Some(i as int),
            None => spec_position(s@, c) is None,
        },
{
    let mut i: usize = 0;
    while i < s.len()
        invariant
            i <= s.len(),
            forall|j: int| 0 <= j < i ==> s@[j] != c,
        decreases s.len() - i,
    {
        if s[i] == c {
            proof {
                lemma_position(s@, c);
                assert(s@.contains(c));
            }
            return Some(i);
        }
        i += 1;
    }
    proof {
        lemma_position(s@, c);
    }
    None
}

/// The texts that a sequence of character vectors holds.
pub open spec fn texts(v: Seq<Vec<char>>) -> Seq<Seq<char>> {
    v.map_values(|t: Vec<char>| t@)
}

/// The pieces of `s` between the occurrences of `pat`, taken from the left and
/// without overlap. There is always at least one piece; an empty pattern
/// splits nothing.
pub open spec fn spec_split(s: Seq<char>, pat: Seq<char>) -> Seq<Seq<char>>
    decreases s.len(),
    via split_decreases
{
    if pat.len() > 0 && spec_find(s, pat) is Some {
        let i = spec_find(s, pat)->0;
        seq![s.take(i)] + spec_split(s.skip(i + pat.len()), pat)
    } else {
        seq![s]
    }
}

#[via_fn]
proof fn split_decreases(s: Seq<char>, pat: Seq<char>) {
    lemma_find(s, pat);
}

/// A split text has at least one piece.
pub proof fn lemma_split_nonempty(s: Seq<char>, pat: Seq<char>)
    ensures
        spec_split(s, pat).len() >= 1,
{
}

/// The pieces of `parts` in order, with `sep` between each two neighbours.
pub open spec fn spec_join(parts: Seq<Seq<char>>, sep: Seq<char>) -> Seq<char>
    decreases parts.len(),
{
    if parts.len() == 0 {
        Seq::empty()
    } else if parts.len() == 1 {
        parts[0]
    } else {
        parts[0] + sep + spec_join(parts.drop_first(), sep)
    }
}

/// `s` with every occurrence of `from`, taken from the left and without
/// overlap, replaced by `to`.
pub open spec fn spec_replace(s: Seq<char>, from: Seq<char>, to: Seq<char>) -> Seq<char> {
    spec_join(spec_split(s, from), to)
}

/// Joining one more piece puts the separator and the piece at the end.
pub proof fn lemma_join_push(parts: Seq<Seq<char>>, last: Seq<char>, sep: Seq<char>)
    ensures
        spec_join(parts.push(last), sep) == if parts.len() == 0 {
            last
        } else {
            spec_join(parts, sep) + sep + last
        },
    decreases parts.len(),
{
    if parts.len() > 0 {
        let rest = parts.drop_first();
        assert(parts.push(last).drop_first() =~= rest.push(last));
        lemma_join_push(rest, last, sep);
        if parts.len() == 1 {
            assert(spec_join(parts.push(last), sep) =~= parts[0] + sep + last);
        } else {
            assert(parts[0] + sep + (spec_join(rest, sep) + sep + last) =~= (parts[0] + sep
                + spec_join(rest, sep)) + sep + last);
        }
    }
}

/// Joining the pieces of a split text with the pattern gives the text back.
pub proof fn lemma_join_split(s: Seq<char>, pat: Seq<char>)
    ensures
        spec_join(spec_split(s, pat), pat) == s,
    decreases s.len(),
{
    if pat.len() > 0 && spec_find(s, pat) is Some {
        let i = spec_find(s, pat)->0;
        lemma_find(s, pat);
        let rest = s.skip(i + pat.len());
        lemma_join_split(rest, pat);
        lemma_split_nonempty(rest, pat);
        let parts = spec_split(s, pat);
        assert(parts.drop_first() =~= spec_split(rest, pat));
        assert(s.take(i) + pat + rest =~= s) by {
            assert(s.subrange(i, i + pat.len()) =~= pat);
        }
    }
}

/// The pattern occurs in no piece of a split text.
pub proof fn lemma_split_apart(s: Seq<char>, pat: Seq<char>)
    requires
        pat.len() > 0,
    ensures
        forall|k: int|
            0 <= k < spec_split(s, pat).len() ==> spec_find(#[trigger] spec_split(s, pat)[k], pat)
                is None,
    decreases s.len(),
{
    let parts = spec_split(s, pat);
    lemma_find(s, pat);
    if spec_find(s, pat) is Some {
        let i = spec_find(s, pat)->0;
        let first = s.take(i);
        let rest = s.skip(i + pat.len());
        lemma_split_apart(rest, pat);
        assert forall|j: int| 0 <= j <= first.len() - pat.len() implies !matches_at(
            first,
            pat,
            j,
        ) by {
            if matches_at(first, pat, j) {
                assert(first.subrange(j, j + pat.len()) =~= s.subrange(j, j + pat.len()));
                assert(matches_at(s, pat, j));
            }
        }
        lemma_find_none(first, pat);
        assert forall|k: int| 0 <= k < parts.len() implies spec_find(#[trigger] parts[k], pat)
            is None by {
            if k > 0 {
                assert(parts[k] == spec_split(rest, pat)[k - 1]);
            }
        }
    }
}

/// What holds of every character of a text holds of every character of each
/// of its pieces.
pub proof fn lemma_split_keeps(s: Seq<char>, pat: Seq<char>, holds: spec_fn(char) -> bool)
    requires
        forall|i: int| 0 <= i < s.len() ==> holds(#[trigger] s[i]),
    ensures
        forall|k: int, i: int|
            0 <= k < spec_split(s, pat).len() && 0 <= i < spec_split(s, pat)[k].len() ==> holds(
                #[trigger] spec_split(s, pat)[k][i],
            ),
    decreases s.len(),
{
    let parts = spec_split(s, pat);
    if pat.len() > 0 && spec_find(s, pat) is Some {
        let at = spec_find(s, pat)->0;
        lemma_find(s, pat);
        let rest = s.skip(at + pat.len());
        assert forall|i: int| 0 <= i < rest.len() implies holds(#[trigger] rest[i]) by {
            assert(rest[i] == s[at + pat.len() + i]);
        }
        lemma_split_keeps(rest, pat, holds);
        assert forall|k: int, i: int| 0 <= k < parts.len() && 0 <= i < parts[k].len() implies holds(
            #[trigger] parts[k][i],
        ) by {
            if k == 0 {
                assert(parts[0][i] == s[i]);
            } else {
                assert(parts[k] == spec_split(rest, pat)[k - 1]);
            }
        }
    }
}

/// A character that occurs neither in a piece nor in the separator does not
/// occur in the joined text.
pub proof fn lemma_join_lacks(parts: Seq<Seq<char>>, sep: Seq<char>, c: char)
    requires
        !sep.contains(c),
        forall|k: int| 0 <= k < parts.len() ==> !(#[trigger] parts[k]).contains(c),
    ensures
        !spec_join(parts, sep).contains(c),
    decreases parts.len(),
{
    if parts.len() >= 2 {
        let rest = parts.drop_first();
        assert forall|k: int| 0 <= k < rest.len() implies !(#[trigger] rest[k]).contains(c) by {
            assert(rest[k] == parts[k + 1]);
        }
        lemma_join_lacks(rest, sep, c);
        let joined = spec_join(parts, sep);
        let tail = spec_join(rest, sep);
        assert forall|i: int| 0 <= i < joined.len() implies joined[i] != c by {
            if i < parts[0].len() {
                assert(parts[0].contains(parts[0][i]));
            } else if i < parts[0].len() + sep.len() {
                assert(sep.contains(sep[i - parts[0].len()]));
            } else {
                assert(tail.contains(tail[i - parts[0].len() - sep.len()]));
            }
        }
    }
}

/// Whether no end of `pat` is also a beginning of it, but `pat` itself. Two
/// occurrences of such a pattern do not overlap.
pub open spec fn border_free(pat: Seq<char>) -> bool {
    forall|k: int| 0 < k < pat.len() ==> !(#[trigger] pat.take(k) =~= pat.skip(pat.len() - k))
}

/// Splitting undoes joining: pieces in which the separator does not occur,
/// joined by a separator that is not empty and is free of borders, are what
/// the joined text splits into.
pub proof fn lemma_split_join(parts: Seq<Seq<char>>, sep: Seq<char>)
    requires
        parts.len() >= 1,
        sep.len() > 0,
        border_free(sep),
        forall|k: int| 0 <= k < parts.len() ==> spec_find(#[trigger] parts[k], sep) is None,
    ensures
        spec_split(spec_join(parts, sep), sep) == parts,
    decreases parts.len(),
{
    let s = spec_join(parts, sep);
    let first = parts[0];
    if parts.len() == 1 {
        assert(spec_split(s, sep) =~= parts);
    } else {
        let rest = parts.drop_first();
        let tail = spec_join(rest, sep);
        let n = first.len() as int;
        let m = sep.len() as int;
        assert forall|k: int| 0 <= k < rest.len() implies spec_find(#[trigger] rest[k], sep)
            is None by {
            assert(rest[k] == parts[k + 1]);
        }
        lemma_split_join(rest, sep);
        assert(matches_at(s, sep, n)) by {
            assert(s.subrange(n, n + m) =~= sep);
        }
        assert forall|j: int| 0 <= j < n implies !matches_at(s, sep, j) by {
            if matches_at(s, sep, j) {
                if j + m <= n {
                    lemma_find(first, sep);
                    assert(first.subrange(j, j + m) =~= s.subrange(j, j + m));
                    assert(matches_at(first, sep, j));
                } else {
                    let k = j + m - n;
                    assert forall|i: int| 0 <= i < k implies sep.take(k)[i] == sep.skip(m - k)[i] by {
                        assert(s.subrange(j, j + m)[m - k + i] == s[n + i]);
                        assert(s.subrange(n, n + m)[i] == s[n + i]);
                    }
                    assert(sep.take(k) =~= sep.skip(m - k));
                }
            }
        }
        lemma_find_first(s, sep, n);
        assert(s.take(n) =~= first);
        assert(s.skip(n + m) =~= tail);
        assert(spec_split(s, sep) =~= parts);
    }
}

/// Splits `s` at the occurrences of `pat`.
pub fn split(s: &[char], pat: &[char]) -> (parts: Vec<Vec<char>>)
    ensures
        texts(parts@) == spec_split(s@, pat@),
        parts@.len() >= 1,
{
    let mut parts: Vec<Vec<char>> = Vec::new();
    let mut start: usize = 0;
    assert(s@.skip(0) =~= s@);
    assert(texts(parts@) + spec_split(s@, pat@) =~= spec_split(s@, pat@));
    if pat.len() > 0 {
        loop
            invariant
                pat.len() > 0,
                start <= s.len(),
                spec_split(s@, pat@) == texts(parts@) + spec_split(s@.skip(start as int), pat@),
            ensures
                spec_find(s@.skip(start as int), pat@) is None,
            decreases s.len() - start,
        {
            let rest = &s[start..s.len()];
            assert(rest@ =~= s@.skip(start as int));
            match find(rest, pat) {
                Some(i) => {
                    proof {
                        lemma_find(rest@, pat@);
                    }
                    let ghost before = texts(parts@);
                    parts.push(slice_to_vec(&rest[0..i]));
                    assert(texts(parts@) =~= before + seq![rest@.take(i as int)]);
                    assert(rest@.skip(i + pat.len()) =~= s@.skip(start + i + pat.len()));
                    start = start + i + pat.len();
                },
                None => {
                    break ;
                },
            }
        }
    }
    let ghost before = texts(parts@);
    parts.push(slice_to_vec(&s[start..s.len()]));
    assert(texts(parts@) =~= before + seq![s@.skip(start as int)]);
    parts
}

/// Joins `parts` with `sep` between them.
pub fn join(parts: &[Vec<char>], sep: &[char]) -> (joined: Vec<char>)
    ensures
        joined@ == spec_join(texts(parts@), sep@),
{
    let mut joined: Vec<char> = Vec::new();
    let mut k: usize = 0;
    while k < parts.len()
        invariant
            k <= parts.len(),
            joined@ == spec_join(texts(parts@).take(k as int), sep@),
        decreases parts.len() - k,
    {
        proof {
            let done = texts(parts@).take(k as int);
            assert(texts(parts@).take(k + 1) =~= done.push(parts@[k as int]@));
            lemma_join_push(done, parts@[k as int]@, sep@);
        }
        if k > 0 {
            joined.extend_from_slice(sep);
        }
        joined.extend_from_slice(parts[k].as_slice());
        k += 1;
    }
    assert(texts(parts@).take(k as int) =~= texts(parts@));
    joined
}

/// Replaces every occurrence of `from` in `s` by `to`.
pub fn replace(s: &[char], from: &[char], to: &[char]) -> (replaced: Vec<char>)
    ensures
        replaced@ == spec_replace(s@, from@, to@),
{
    let parts = split(s, from);
    join(parts.as_slice(), to)
}

} // verus!
