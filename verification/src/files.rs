//! Name-level file helpers: the list-of-names result of a directory search,
//! the suffix-truncation routine used to strip extensions and path segments,
//! and the check whether a name is already taken in the catalog.

use vstd::prelude::*;
use crate::catalog::{has_recording, Recording};
use crate::text::str_eq;

verus! {

/// What a directory search yields: the base names found.
pub enum File {
    Names(Vec<String>),
}

/// The outcome of scanning a name from its end for stop characters:
/// cut the name before the given position, keep it whole, or abort —
/// the scan would run past the front of the name.
pub enum TruncOut {
    Cut(int),
    Keep,
    Abort,
}

/// The truncation scan. Starting at position `i` with `found` stop
/// characters already seen, the scan walks toward the front of the name;
/// finding a stop character counts it, and the scan cuts at the
/// (`pass`+1)-th one. A scan that reaches the second position on an
/// ordinary character keeps the name whole; one that would have to consume
/// the very first position aborts.
pub open spec fn trunc_scan(s: Seq<char>, stop: char, pass: nat, i: int, found: nat) -> TruncOut
    decreases i when i >= 0
{
    if i < 0 {
        TruncOut::Abort
    } else if s[i] == stop {
        if i == 0 {
            TruncOut::Abort
        } else if found == pass {
            TruncOut::Cut(i)
        } else {
            trunc_scan(s, stop, pass, i - 1, (found + 1) as nat)
        }
    } else {
        if i == 1 {
            TruncOut::Keep
        } else if i <= 0 {
            TruncOut::Abort
        } else {
            trunc_scan(s, stop, pass, i - 1, found)
        }
    }
}

impl File {
    /// Truncates a name at the (`pass`+1)-th occurrence of the stop
    /// character counted from the end: the stop character and everything
    /// after it are dropped. A name whose scan reaches the front without
    /// that many occurrences is returned whole. The name is left equal to
    /// the returned string.
    pub fn truncate(name: &mut String, stop_char: &str, pass: u32) -> (r: String)
        requires
            stop_char@.len() == 1,
            old(name)@.len() >= 2,
            !(trunc_scan(
                old(name)@,
                stop_char@[0],
                pass as nat,
                old(name)@.len() - 1,
                0,
            ) is Abort),
        ensures
            ({
                let out = trunc_scan(
                    old(name)@,
                    stop_char@[0],
                    pass as nat,
                    old(name)@.len() - 1,
                    0,
                );
                &&& (out matches TruncOut::Cut(c) ==> r@ == old(name)@.subrange(0, c))
                &&& (out is Keep ==> r@ == old(name)@)
                &&& final(name)@ == r@
            }),
    {
        let ghost s = old(name)@;
        let ghost stopc = stop_char@[0];
        let ghost scan0 = trunc_scan(s, stopc, pass as nat, s.len() - 1, 0);
        let len = name.as_str().unicode_len();
        let stop = stop_char.get_char(0);
        let mut i: usize = len - 1;
        let mut found: u32 = 0;
        loop
            invariant
                name@ == s,
                s == old(name)@,
                stopc == stop_char@[0],
                stop_char@.len() == 1,
                scan0 == trunc_scan(s, stopc, pass as nat, s.len() - 1, 0),
                stop == stopc,
                len == s.len(),
                2 <= len,
                0 <= i < len,
                found <= pass,
                trunc_scan(s, stopc, pass as nat, i as int, found as nat) == scan0,
                !(scan0 is Abort),
            decreases i,
        {
            let c = name.as_str().get_char(i);
            if c == stop {
                proof {
                    assert(i != 0);
                }
                if found == pass {
                    proof {
                        assert(scan0 == TruncOut::Cut(i as int));
                    }
                    let r = {
                        let cut = name.as_str().substring_char(0, i);
                        String::from_str(cut)
                    };
                    *name = r.clone();
                    return r;
                }
                found = found + 1;
                i = i - 1;
            } else {
                if i <= 1 {
                    proof {
                        assert(i == 1);
                        assert(scan0 is Keep);
                    }
                    let r = name.clone();
                    return r;
                }
                i = i - 1;
            }
        }
    }

    /// Whether the given name is already the name of a recording in the
    /// list.
    pub fn name_exists(new: String, old_list: &Vec<Recording>) -> (check: bool)
        ensures
            check == has_recording(old_list@, new@),
    {
        let mut check = false;
        let mut item: usize = 0;
        while item < old_list.len()
            invariant
                item <= old_list@.len(),
                !check,
                forall|j: int| 0 <= j < item ==> old_list@[j].name@ != new@,
            decreases old_list@.len() - item,
        {
            if str_eq(new.as_str(), old_list[item].name.as_str()) {
                check = true;
                return check;
            }
            item += 1;
        }
        check
    }
}

} // verus!
