//! Character-level helpers on strings: equality, substring containment, and
//! the suffix-truncation routine used to strip extensions and path segments.

use vstd::prelude::*;

verus! {

/// Whether two strings hold the same characters.
pub fn str_eq(a: &str, b: &str) -> (r: bool)
    ensures
        r == (a@ == b@),
{
    let alen = a.unicode_len();
    let blen = b.unicode_len();
    if alen != blen {
        return false;
    }
    let mut i: usize = 0;
    while i < alen
        invariant
            alen == a@.len(),
            alen == b@.len(),
            i <= alen,
            forall|j: int| 0 <= j < i ==> a@[j] == b@[j],
        decreases alen - i,
    {
        if a.get_char(i) != b.get_char(i) {
            return false;
        }
        i += 1;
    }
    proof {
        assert(a@ =~= b@);
    }
    true
}

/// Whether `pattern` occurs in `text` starting at position `at`.
pub open spec fn occurs_at(text: Seq<char>, pattern: Seq<char>, at: int) -> bool {
    0 <= at && at + pattern.len() <= text.len() && text.subrange(at, at + pattern.len()) == pattern
}

/// Whether `pattern` occurs anywhere in `text`.
pub open spec fn contains_seq(text: Seq<char>, pattern: Seq<char>) -> bool {
    exists|at: int| occurs_at(text, pattern, at)
}

/// Whether `pattern` occurs as a substring of `text`.
pub fn contains_substr(text: &str, pattern: &str) -> (r: bool)
    ensures
        r == contains_seq(text@, pattern@),
{
    let tlen = text.unicode_len();
    let plen = pattern.unicode_len();
    if plen > tlen {
        proof {
            assert(!contains_seq(text@, pattern@));
        }
        return false;
    }
    let mut at: usize = 0;
    while at <= tlen - plen
        invariant
            tlen == text@.len(),
            plen == pattern@.len(),
            plen <= tlen,
            at <= tlen - plen + 1,
            forall|k: int| 0 <= k < at ==> !occurs_at(text@, pattern@, k),
        decreases tlen - plen - at + 1,
    {
        let mut j: usize = 0;
        let mut matched = true;
        let ghost mut mismatch: int = 0;
        while j < plen
            invariant
                tlen == text@.len(),
                plen == pattern@.len(),
                at + plen <= tlen,
                j <= plen,
                matched ==> forall|k: int| 0 <= k < j ==> text@[at + k] == pattern@[k],
                !matched ==> 0 <= mismatch < plen && text@[at + mismatch] != pattern@[mismatch],
            decreases plen - j,
        {
            if text.get_char(at + j) != pattern.get_char(j) {
                matched = false;
                proof {
                    mismatch = j as int;
                }
                j = plen;
            } else {
                j += 1;
            }
        }
        if matched {
            proof {
                assert(text@.subrange(at as int, at + pattern@.len()) =~= pattern@);
                assert(occurs_at(text@, pattern@, at as int));
            }
            return true;
        }
        proof {
            assert(!occurs_at(text@, pattern@, at as int)) by {
                if occurs_at(text@, pattern@, at as int) {
                    assert(text@.subrange(at as int, at + pattern@.len())[mismatch]
                        == pattern@[mismatch]);
                }
            }
        }
        at += 1;
    }
    proof {
        assert forall|k: int| occurs_at(text@, pattern@, k) implies false by {
            assert(0 <= k <= tlen - plen);
        }
    }
    false
}

} // verus!
