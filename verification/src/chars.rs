//! Character-level string helpers: lengths and prefixes are counted in
//! characters, never in bytes, and substring search is exact and
//! case-sensitive.

use vstd::prelude::*;
use vstd::string::StrSliceExecFns;

verus! {

/// Number of characters (not bytes) in `input`.
pub fn char_len(input: &str) -> (n: usize)
    ensures
        n == input@.len(),
{
    input.unicode_len()
}

/// The first `count` characters of `s`; all of `s` when it is shorter.
pub open spec fn spec_take_chars(s: Seq<char>, count: int) -> Seq<char> {
    if count < s.len() {
        s.take(count)
    } else {
        s
    }
}

/// The first `count` characters of `input` as an owned string.
pub fn take_chars(input: &str, count: usize) -> (r: String)
    ensures
        r@ == spec_take_chars(input@, count as int),
{
    let n = char_len(input);
    if count < n {
        input.substring_char(0, count).to_owned()
    } else {
        input.to_owned()
    }
}

/// `needle` occurs in `hay` starting at character position `i`.
pub open spec fn match_at(hay: Seq<char>, needle: Seq<char>, i: int) -> bool {
    0 <= i && i + needle.len() <= hay.len() && hay.subrange(i, i + needle.len()) == needle
}

/// `needle` occurs somewhere in `hay` as a contiguous run of characters.
pub open spec fn spec_has_substring(hay: Seq<char>, needle: Seq<char>) -> bool {
    exists|i: int| match_at(hay, needle, i)
}

/// Exact, case-sensitive substring test.
pub fn has_substring(hay: &str, needle: &str) -> (r: bool)
    ensures
        r == spec_has_substring(hay@, needle@),
{
    let hl = char_len(hay);
    let nl = char_len(needle);
    if nl > hl {
        proof {
            assert(forall|i: int| !match_at(hay@, needle@, i));
        }
        return false;
    }
    let mut i: usize = 0;
    while i <= hl - nl
        invariant
            nl <= hl,
            hl == hay@.len(),
            nl == needle@.len(),
            i <= hl - nl + 1,
            forall|k: int| 0 <= k < i ==> !match_at(hay@, needle@, k),
        decreases hl - nl + 1 - i,
    {
        let mut j: usize = 0;
        let mut matched: bool = true;
        while matched && j < nl
            invariant
                nl <= hl,
                i + nl <= hl,
                hl == hay@.len(),
                nl == needle@.len(),
                j <= nl,
                matched ==> forall|t: int| 0 <= t < j ==> hay@[i + t] == needle@[t],
                !matched ==> j < nl && hay@[i + j] != needle@[j as int],
            decreases nl - j + (if matched { 1int } else { 0int }),
        {
            if hay.get_char(i + j) != needle.get_char(j) {
                matched = false;
            } else {
                j += 1;
            }
        }
        if matched {
            proof {
                assert(hay@.subrange(i as int, i + nl) =~= needle@);
                assert(match_at(hay@, needle@, i as int));
            }
            return true;
        }
        proof {
            assert(!match_at(hay@, needle@, i as int)) by {
                if hay@.subrange(i as int, i + nl) == needle@ {
                    assert(hay@.subrange(i as int, i + nl)[j as int] == hay@[i + j]);
                }
            }
        }
        i += 1;
    }
    proof {
        assert(forall|k: int| #[trigger] match_at(hay@, needle@, k) ==> 0 <= k < i);
    }
    false
}

} // verus!
