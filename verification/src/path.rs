//! Placeholder paths and brace-depth-aware splitting.
//!
//! A path is split on a separator only where the brace depth is zero, so a
//! segment that is itself a placeholder is not split on its internal dots.

use vstd::prelude::*;

verus! {

/// One step of brace depth: `{` opens, `}` closes, every other character
/// leaves the depth unchanged.
pub open spec fn depth_step(lvl: int, c: char) -> int {
    if c == '{' {
        lvl + 1
    } else if c == '}' {
        lvl - 1
    } else {
        lvl
    }
}

/// The splitter's remaining work: from position `i` with brace depth `lvl`,
/// the current segment having started at `start`, and `acc` the segments
/// already produced.
pub open spec fn split_scan(
    s: Seq<char>,
    i: int,
    lvl: int,
    start: int,
    sep: char,
    acc: Seq<Seq<char>>,
) -> Seq<Seq<char>>
    recommends
        0 <= start <= i <= s.len(),
    decreases s.len() - i,
{
    if i < 0 || i >= s.len() {
        acc.push(s.subrange(start, s.len() as int))
    } else {
        let c = s[i];
        if c == sep && lvl == 0 {
            split_scan(s, i + 1, lvl, i + 1, sep, acc.push(s.subrange(start, i)))
        } else {
            split_scan(s, i + 1, depth_step(lvl, c), start, sep, acc)
        }
    }
}

/// The segments of `s`, split on `sep` at brace depth zero only.
pub open spec fn split_top(s: Seq<char>, sep: char) -> Seq<Seq<char>> {
    split_scan(s, 0, 0, 0, sep, Seq::empty())
}

/// Splits a string on a separator character at brace depth zero.
pub fn split_top_str<'a>(s: &'a str, sep: char) -> (r: Vec<&'a str>)
    ensures
        r@.len() == split_top(s@, sep).len(),
        forall|k: int| 0 <= k < r@.len() ==> (#[trigger] r@[k])@ == split_top(s@, sep)[k],
{
    let n = s.unicode_len();
    let mut segs: Vec<&'a str> = Vec::new();
    let ghost mut acc: Seq<Seq<char>> = Seq::empty();
    let mut lvl: i128 = 0;
    let mut start: usize = 0;
    let mut i: usize = 0;
    while i < n
        invariant
            n == s@.len(),
            0 <= start <= i <= n,
            -(i as int) <= lvl <= i as int,
            acc.len() == segs@.len(),
            forall|k: int| 0 <= k < acc.len() ==> acc[k] == (#[trigger] segs@[k])@,
            split_scan(s@, i as int, lvl as int, start as int, sep, acc) == split_top(s@, sep),
        decreases n - i,
    {
        let c = s.get_char(i);
        if c == sep && lvl == 0 {
            let seg = s.substring_char(start, i);
            segs.push(seg);
            proof {
                acc = acc.push(s@.subrange(start as int, i as int));
            }
            start = i + 1;
        } else if c == '{' {
            lvl = lvl + 1;
        } else if c == '}' {
            lvl = lvl - 1;
        }
        i = i + 1;
    }
    let seg = s.substring_char(start, n);
    segs.push(seg);
    proof {
        acc = acc.push(s@.subrange(start as int, n as int));
    }
    segs
}

/// The placeholder Path.
pub struct Path<'a> {
    /// The path text.
    pub path: &'a str,
}

impl<'a> View for Path<'a> {
    type V = Seq<char>;

    open spec fn view(&self) -> Seq<char> {
        self.path@
    }
}

impl<'a> Path<'a> {
    /// Create a new Path.
    pub fn new(path: &'a str) -> (r: Self)
        ensures
            r@ == path@,
    {
        Path { path }
    }

    /// Get the value of the Path.
    pub fn str(&self) -> (r: &'a str)
        ensures
            r@ == self@,
    {
        self.path
    }

    /// Get the path segments of the placeholder: the path split on dots at
    /// brace depth zero.
    pub fn segments(&self) -> (r: Vec<&'a str>)
        ensures
            r@.len() == split_top(self@, '.').len(),
            forall|k: int| 0 <= k < r@.len() ==> (#[trigger] r@[k])@ == split_top(self@, '.')[k],
    {
        split_top_str(self.path, '.')
    }
}

} // verus!
