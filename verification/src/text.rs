//! Half-open text ranges, the coordinate system for tokens, nodes and
//! diagnostics, and helpers for the `Vec<char>` texts the core works on.

use vstd::prelude::*;
use vstd::string::StrSliceExecFns;

verus! {

/// A half-open interval `[start, end)` of text offsets.
#[derive(Clone, Copy, Debug, PartialEq, Eq, Structural, Hash)]
pub struct TextRange {
    pub start: usize,
    pub end: usize,
}

impl TextRange {
    /// A well-formed range never runs backwards.
    pub open spec fn wf(self) -> bool {
        self.start <= self.end
    }

    pub open spec fn spec_len(self) -> int {
        self.end - self.start
    }

    /// `other` lies fully inside `self`.
    pub open spec fn spec_contains_range(self, other: TextRange) -> bool {
        self.start <= other.start && other.end <= self.end
    }

    pub fn new(start: usize, end: usize) -> (r: TextRange)
        requires
            start <= end,
        ensures
            r == (TextRange { start, end }),
    {
        TextRange { start, end }
    }

    /// The empty range anchored at `at`.
    pub fn empty(at: usize) -> (r: TextRange)
        ensures
            r == (TextRange { start: at, end: at }),
    {
        TextRange { start: at, end: at }
    }

    pub fn len(&self) -> (n: usize)
        requires
            self.wf(),
        ensures
            n == self.spec_len(),
    {
        self.end - self.start
    }

    pub fn is_empty(&self) -> (b: bool)
        ensures
            b == (self.spec_len() == 0),
    {
        self.start == self.end
    }

    pub fn contains_range(&self, other: &TextRange) -> (b: bool)
        ensures
            b == self.spec_contains_range(*other),
    {
        self.start <= other.start && other.end <= self.end
    }
}

/// The characters of `s`, as the indexable text the core operates on.
pub fn chars_of(s: &str) -> (r: Vec<char>)
    ensures
        r@ == s@,
{
    let n = s.unicode_len();
    let mut r: Vec<char> = Vec::new();
    let mut i: usize = 0;
    while i < n
        invariant
            i <= n,
            n == s@.len(),
            r@ == s@.subrange(0, i as int),
        decreases n - i,
    {
        r.push(s.get_char(i));
        proof {
            assert(r@ =~= s@.subrange(0, i + 1));
        }
        i = i + 1;
    }
    proof {
        assert(r@ =~= s@);
    }
    r
}

/// Appends every character of `src` to `dst`.
pub fn push_chars(dst: &mut Vec<char>, src: &Vec<char>)
    ensures
        final(dst)@ == old(dst)@ + src@,
{
    let mut i: usize = 0;
    while i < src.len()
        invariant
            i <= src@.len(),
            dst@ == old(dst)@ + src@.subrange(0, i as int),
        decreases src@.len() - i,
    {
        dst.push(src[i]);
        proof {
            assert(dst@ =~= old(dst)@ + src@.subrange(0, i + 1));
        }
        i = i + 1;
    }
    proof {
        assert(dst@ =~= old(dst)@ + src@);
    }
}

/// A copy of a text, character for character.
pub fn copy_chars(src: &Vec<char>) -> (r: Vec<char>)
    ensures
        r@ == src@,
{
    let mut r: Vec<char> = Vec::new();
    push_chars(&mut r, src);
    proof {
        assert(Seq::<char>::empty() + src@ =~= src@);
    }
    r
}

/// Character-for-character equality of two texts.
pub fn chars_eq(a: &Vec<char>, b: &Vec<char>) -> (r: bool)
    ensures
        r == (a@ == b@),
{
    if a.len() != b.len() {
        return false;
    }
    let mut i: usize = 0;
    while i < a.len()
        invariant
            i <= a@.len(),
            a@.len() == b@.len(),
            a@.subrange(0, i as int) == b@.subrange(0, i as int),
        decreases a@.len() - i,
    {
        if a[i] != b[i] {
            return false;
        }
        proof {
            assert(a@.subrange(0, i + 1) =~= b@.subrange(0, i + 1));
        }
        i = i + 1;
    }
    proof {
        assert(a@.subrange(0, a@.len() as int) =~= a@);
        assert(b@.subrange(0, b@.len() as int) =~= b@);
    }
    true
}

} // verus!
