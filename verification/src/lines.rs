//! The lines of a text.

use crate::pattern::{spec_split, split, texts};
use vstd::prelude::*;
use vstd::slice::slice_to_vec;

verus! {

/// `line` without the carriage return that it ends with, if it ends with one.
pub open spec fn spec_strip_cr(line: Seq<char>) -> Seq<char> {
    if line.len() > 0 && line.last() == '\r' {
        line.drop_last()
    } else {
        line
    }
}

/// The lines of `s`. A line ends with a line feed, or with a carriage return
/// and a line feed, neither of which belongs to the line. What follows the
/// last line feed is a line too, unless it is empty; a carriage return at its
/// end belongs to it.
pub open spec fn spec_lines(s: Seq<char>) -> Seq<Seq<char>> {
    let parts = spec_split(s, seq!['\n']);
    let ended = parts.drop_last().map_values(|line: Seq<char>| spec_strip_cr(line));
    if parts.last().len() == 0 {
        ended
    } else {
        ended.push(parts.last())
    }
}

/// Splits `s` into its lines.
pub fn lines(s: &[char]) -> (ls: Vec<Vec<char>>)
    ensures
        texts(ls@) == spec_lines(s@),
{
    let mut line_feed: Vec<char> = Vec::new();
    line_feed.push('\n');
    assert(line_feed@ =~= seq!['\n']);
    let mut parts = split(s, line_feed.as_slice());
    let ghost all = texts(parts@);
    let ended: usize = parts.len() - 1;
    let mut ls: Vec<Vec<char>> = Vec::new();
    let mut i: usize = 0;
    while i < ended
        invariant
            i <= ended,
            ended + 1 == parts.len(),
            all == texts(parts@),
            texts(ls@) == all.take(i as int).map_values(|line: Seq<char>| spec_strip_cr(line)),
        decreases ended - i,
    {
        let line = parts[i].as_slice();
        let n: usize = line.len();
        let ghost before = texts(ls@);
        if n > 0 && line[n - 1] == '\r' {
            ls.push(slice_to_vec(&line[0..n - 1]));
        } else {
            ls.push(slice_to_vec(line));
        }
        assert(texts(ls@) =~= before.push(spec_strip_cr(all[i as int])));
        i += 1;
        assert(texts(ls@) =~= all.take(i as int).map_values(
            |line: Seq<char>| spec_strip_cr(line),
        ));
    }
    assert(all.take(ended as int) =~= all.drop_last());
    let last = parts.pop().unwrap();
    if last.len() > 0 {
        let ghost before = texts(ls@);
        ls.push(last);
        assert(texts(ls@) =~= before.push(all.last()));
    }
    ls
}

} // verus!
