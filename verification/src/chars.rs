//! Classes and conversions of single characters.

use vstd::prelude::*;

verus! {

/// Whether `c` has the Unicode property `White_Space`.
pub open spec fn spec_is_whitespace(c: char) -> bool {
    let n = c as u32;
    ||| 0x09 <= n <= 0x0D
    ||| n == 0x20
    ||| n == 0x85
    ||| n == 0xA0
    ||| n == 0x1680
    ||| 0x2000 <= n <= 0x200A
    ||| n == 0x2028
    ||| n == 0x2029
    ||| n == 0x202F
    ||| n == 0x205F
    ||| n == 0x3000
}

/// Tells whether `c` is a white space character.
#[verifier::when_used_as_spec(spec_is_whitespace)]
pub fn is_whitespace(c: char) -> (b: bool)
    ensures
        b == spec_is_whitespace(c),
{
    let n: u32 = c as u32;
    (0x09 <= n && n <= 0x0D) || n == 0x20 || n == 0x85 || n == 0xA0 || n == 0x1680 || (0x2000 <= n
        && n <= 0x200A) || n == 0x2028 || n == 0x2029 || n == 0x202F || n == 0x205F || n == 0x3000
}

/// The lower case form of an ASCII capital letter; any other character itself.
pub open spec fn spec_to_ascii_lowercase(c: char) -> char {
    if 'A' <= c <= 'Z' {
        ((c as u8) + 32) as char
    } else {
        c
    }
}

/// Maps `A` to `Z` to `a` to `z` and leaves every other character as it is.
#[verifier::when_used_as_spec(spec_to_ascii_lowercase)]
pub fn to_ascii_lowercase(c: char) -> (lower: char)
    ensures
        lower == spec_to_ascii_lowercase(c),
{
    if 'A' <= c && c <= 'Z' {
        ((c as u8) + 32) as char
    } else {
        c
    }
}

/// `s` with every ASCII capital letter made a small letter.
pub open spec fn spec_ascii_lowercase(s: Seq<char>) -> Seq<char> {
    Seq::new(s.len(), |i: int| spec_to_ascii_lowercase(s[i]))
}

/// Lower-cases the ASCII capital letters of `s`.
pub fn ascii_lowercase(s: &[char]) -> (lower: Vec<char>)
    ensures
        lower@ == spec_ascii_lowercase(s@),
{
    let mut lower: Vec<char> = Vec::new();
    let mut i: usize = 0;
    while i < s.len()
        invariant
            i <= s.len(),
            lower@ == spec_ascii_lowercase(s@.take(i as int)),
        decreases s.len() - i,
    {
        lower.push(to_ascii_lowercase(s[i]));
        i += 1;
        assert(lower@ =~= spec_ascii_lowercase(s@.take(i as int)));
    }
    assert(s@.take(s.len() as int) =~= s@);
    lower
}

/// Lower-casing a text made of two parts lower-cases each part.
pub proof fn lemma_lowercase_add(a: Seq<char>, b: Seq<char>)
    ensures
        spec_ascii_lowercase(a + b) == spec_ascii_lowercase(a) + spec_ascii_lowercase(b),
{
    assert(spec_ascii_lowercase(a + b) =~= spec_ascii_lowercase(a) + spec_ascii_lowercase(b));
}

} // verus!
