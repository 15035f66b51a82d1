//! Small helpers over character buffers, shared by the scanner and the
//! comma-separated ingestion: finding a character, and slicing buffers into
//! owned strings.

use vstd::prelude::*;
use vstd::string::StrSliceExecFns;

verus! {

/// The first position at or after `i` holding `c`, or the end of the input.
pub open spec fn find_char(s: Seq<char>, i: int, c: char) -> int
    decreases s.len() - i,
{
    if i < s.len() {
        if s[i] == c {
            i
        } else {
            find_char(s, i + 1, c)
        }
    } else {
        i
    }
}

pub proof fn lemma_find_char_bounds(s: Seq<char>, i: int, c: char)
    requires
        0 <= i <= s.len(),
    ensures
        i <= find_char(s, i, c) <= s.len(),
    decreases s.len() - i,
{
    if i < s.len() && s[i] != c {
        lemma_find_char_bounds(s, i + 1, c);
    }
}

/// Relies on `String::push`: appends exactly the one character.
#[verifier::external_body]
pub(crate) fn push_char(s: &mut String, c: char)
    ensures
        final(s)@ == old(s)@.push(c),
{
    s.push(c);
}

/// The characters of a string, as an indexable buffer.
pub(crate) fn chars_of(s: &str) -> (r: Vec<char>)
    ensures
        r@ == s@,
{
    let n = s.unicode_len();
    let mut r: Vec<char> = Vec::new();
    let mut i: usize = 0;
    while i < n
        invariant
            n == s@.len(),
            i <= n,
            r@ == s@.subrange(0, i as int),
        decreases n - i,
    {
        r.push(s.get_char(i));
        proof {
            assert(r@ =~= s@.subrange(0, i + 1));
        }
        i += 1;
    }
    proof {
        assert(s@.subrange(0, n as int) =~= s@);
    }
    r
}

/// The characters of `chars` between `lo` and `hi`, as a `String`.
pub(crate) fn string_range(chars: &Vec<char>, lo: usize, hi: usize) -> (r: String)
    requires
        lo <= hi <= chars.len(),
    ensures
        r@ == chars@.subrange(lo as int, hi as int),
{
    let mut r = String::new();
    let mut k: usize = lo;
    while k < hi
        invariant
            lo <= k <= hi <= chars.len(),
            r@ == chars@.subrange(lo as int, k as int),
        decreases hi - k,
    {
        push_char(&mut r, chars[k]);
        proof {
            assert(r@ =~= chars@.subrange(lo as int, k + 1));
        }
        k += 1;
    }
    r
}

/// The characters of `chars` between `lo` and `hi`, as an owned buffer.
pub(crate) fn vec_range(chars: &Vec<char>, lo: usize, hi: usize) -> (r: Vec<char>)
    requires
        lo <= hi <= chars.len(),
    ensures
        r@ == chars@.subrange(lo as int, hi as int),
{
    let mut r: Vec<char> = Vec::new();
    let mut k: usize = lo;
    while k < hi
        invariant
            lo <= k <= hi <= chars.len(),
            r@ == chars@.subrange(lo as int, k as int),
        decreases hi - k,
    {
        r.push(chars[k]);
        proof {
            assert(r@ =~= chars@.subrange(lo as int, k + 1));
        }
        k += 1;
    }
    r
}

pub(crate) fn scan_find(chars: &Vec<char>, i: usize, c: char) -> (j: usize)
    requires
        i <= chars.len(),
    ensures
        j as int == find_char(chars@, i as int, c),
        i <= j <= chars.len(),
    decreases chars.len() - i,
{
    if i < chars.len() {
        if chars[i] == c {
            i
        } else {
            scan_find(chars, i + 1, c)
        }
    } else {
        i
    }
}

} // verus!
