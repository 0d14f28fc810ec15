//! Natural ordering of clip names: a name is split, after case folding,
//! into alternating text runs and whole-number runs, and two names are
//! compared run by run over their common prefix, accumulating a bias per
//! side; the larger accumulated bias is ordered after. A text run against a
//! number run at the same position short-circuits: the side with the text
//! run is ordered strictly after. This is the order the recordings list and
//! the snapshot list are shown in, so file-system iteration order never
//! leaks into user-visible ordering.

use vstd::prelude::*;
use vstd::multiset::Multiset;

verus! {

/// What case folding makes of a name. The folding is done by the standard
/// library; its result depends on the characters alone, so it is given a
/// name here and every contract speaks of that name.
pub uninterp spec fn lower_of(s: Seq<char>) -> Seq<char>;

/// Whether the character is one of the ten decimal digits: the characters
/// that form number runs.
pub open spec fn is_digit_char(c: char) -> bool {
    48 <= (c as u32) && (c as u32) <= 57
}

/// The length of the leading run: the longest prefix whose characters are
/// all digits or all non-digits.
pub open spec fn run_len(s: Seq<char>) -> int
    decreases s.len(),
{
    if s.len() <= 1 {
        s.len() as int
    } else if is_digit_char(s[0]) == is_digit_char(s[1]) {
        1 + run_len(s.drop_first())
    } else {
        1
    }
}

/// The leading run is nonempty, no longer than the string, uniform in
/// character class, and maximal.
pub proof fn lemma_run_len(s: Seq<char>)
    requires
        s.len() > 0,
    ensures
        1 <= run_len(s) <= s.len(),
        forall|i: int| 0 <= i < run_len(s) ==> #[trigger] is_digit_char(s[i]) == is_digit_char(s[0]),
        run_len(s) < s.len() ==> is_digit_char(s[run_len(s)]) != is_digit_char(s[0]),
    decreases s.len(),
{
    if s.len() > 1 && is_digit_char(s[0]) == is_digit_char(s[1]) {
        lemma_run_len(s.drop_first());
        assert forall|i: int| 0 <= i < run_len(s) implies #[trigger] is_digit_char(s[i])
            == is_digit_char(s[0]) by {
            if i >= 1 {
                assert(s.drop_first()[i - 1] == s[i]);
            }
        }
        if run_len(s) < s.len() {
            assert(s.drop_first()[run_len(s) - 1] == s[run_len(s)]);
        }
    }
}

/// The leading run's length is determined by any witness position `n`: all
/// characters before `n` share the first character's class, and the
/// character at `n`, if any, does not.
pub proof fn lemma_run_len_is(s: Seq<char>, n: int)
    requires
        1 <= n <= s.len(),
        forall|i: int| 0 <= i < n ==> #[trigger] is_digit_char(s[i]) == is_digit_char(s[0]),
        n < s.len() ==> is_digit_char(s[n]) != is_digit_char(s[0]),
    ensures
        run_len(s) == n,
    decreases s.len(),
{
    if n > 1 {
        assert forall|i: int| 0 <= i < n - 1 implies #[trigger] is_digit_char(s.drop_first()[i])
            == is_digit_char(s.drop_first()[0]) by {
            assert(s.drop_first()[i] == s[i + 1]);
            assert(s.drop_first()[0] == s[1]);
        }
        if n - 1 < s.drop_first().len() {
            assert(s.drop_first()[n - 1] == s[n]);
        }
        lemma_run_len_is(s.drop_first(), n - 1);
    } else {
        if s.len() > 1 {
            assert(is_digit_char(s[1]) != is_digit_char(s[0]));
        }
    }
}

/// The decomposition of a name into its maximal runs, in order.
pub open spec fn chunks(s: Seq<char>) -> Seq<Seq<char>>
    decreases s.len(),
    via chunks_decreases
{
    if s.len() == 0 {
        Seq::empty()
    } else {
        seq![s.take(run_len(s))] + chunks(s.skip(run_len(s)))
    }
}

#[via_fn]
proof fn chunks_decreases(s: Seq<char>) {
    if s.len() > 0 {
        lemma_run_len(s);
    }
}

/// Whether a run is a number run: nonempty and made of digits.
pub open spec fn is_num_run(c: Seq<char>) -> bool {
    c.len() > 0 && is_digit_char(c[0])
}

/// Splits a name into its maximal runs: each returned string is one run,
/// and together, in order, they spell the name.
pub fn split_chunks(s: &str) -> (r: Vec<String>)
    ensures
        r@.len() == chunks(s@).len(),
        forall|i: int| 0 <= i < r@.len() ==> r@[i]@ == chunks(s@)[i],
{
    let len = s.unicode_len();
    let mut out: Vec<String> = Vec::new();
    let mut start: usize = 0;
    proof {
        assert(s@.skip(0) =~= s@);
        assert(Seq::new(out@.len(), |i: int| out@[i]@) + chunks(s@) =~= chunks(s@));
    }
    while start < len
        invariant
            len == s@.len(),
            start <= len,
            chunks(s@) == Seq::new(out@.len(), |i: int| out@[i]@) + chunks(s@.skip(start as int)),
            forall|i: int| 0 <= i < out@.len() ==> chunks(s@)[i] == out@[i]@,
            out@.len() <= chunks(s@).len(),
        decreases len - start,
    {
        let first_is_digit = {
            let c = s.get_char(start);
            (c as u32) >= 48 && (c as u32) <= 57
        };
        let mut j: usize = start + 1;
        let mut scanning = true;
        while scanning
            invariant
                len == s@.len(),
                start < j <= len,
                first_is_digit == is_digit_char(s@[start as int]),
                forall|k: int|
                    start <= k < j ==> #[trigger] is_digit_char(s@[k]) == is_digit_char(
                        s@[start as int],
                    ),
                !scanning ==> j == len || is_digit_char(s@[j as int]) != is_digit_char(
                    s@[start as int],
                ),
            decreases len - j + (if scanning {
                1int
            } else {
                0int
            }),
        {
            if j < len {
                let c = s.get_char(j);
                let digit = (c as u32) >= 48 && (c as u32) <= 57;
                if digit == first_is_digit {
                    j += 1;
                } else {
                    scanning = false;
                }
            } else {
                scanning = false;
            }
        }
        let run = {
            let piece = s.substring_char(start, j);
            String::from_str(piece)
        };
        proof {
            let rest = s@.skip(start as int);
            assert forall|k: int| 0 <= k < j - start implies #[trigger] is_digit_char(rest[k])
                == is_digit_char(rest[0]) by {
                assert(rest[k] == s@[start + k]);
                assert(rest[0] == s@[start as int]);
            }
            if j - start < rest.len() {
                assert(rest[j - start] == s@[j as int]);
            }
            lemma_run_len_is(rest, j - start);
            assert(rest.take(j - start) =~= s@.subrange(start as int, j as int));
            assert(rest.skip(j - start) =~= s@.skip(j as int));
            assert(chunks(rest) == seq![rest.take(run_len(rest))] + chunks(rest.skip(run_len(
                rest,
            ))));
        }
        let ghost out_pre = out@;
        out.push(run);
        proof {
            assert(Seq::new(out@.len(), |i: int| out@[i]@) =~= Seq::new(
                out_pre.len(),
                |i: int| out_pre[i]@,
            ).push(run@));
            assert(Seq::new(out_pre.len(), |i: int| out_pre[i]@).push(run@) + chunks(s@.skip(
                j as int,
            )) =~= Seq::new(out_pre.len(), |i: int| out_pre[i]@) + (seq![run@] + chunks(s@.skip(
                j as int,
            ))));
            assert(chunks(s@) == Seq::new(out@.len(), |i: int| out@[i]@) + chunks(s@.skip(
                j as int,
            )));
            assert(chunks(s@)[out@.len() - 1] == out@[out@.len() - 1]@);
        }
        start = j;
    }
    proof {
        assert(s@.skip(len as int) =~= Seq::<char>::empty());
        assert(chunks(s@) =~= Seq::new(out@.len(), |i: int| out@[i]@));
    }
    out
}

/// How one name stands to another in the natural order.
#[derive(Clone, Copy, PartialEq, Eq, Structural, Debug)]
pub enum Rank {
    Before,
    Same,
    After,
}

/// The rank of one integer against another.
pub open spec fn rank_of_ints(a: int, b: int) -> Rank {
    if a > b {
        Rank::After
    } else if a < b {
        Rank::Before
    } else {
        Rank::Same
    }
}

/// Whether every character of the string is a decimal digit.
pub open spec fn all_digits(s: Seq<char>) -> bool {
    forall|i: int| 0 <= i < s.len() ==> #[trigger] is_digit_char(s[i])
}

/// The whole number a run of decimal digits denotes.
pub open spec fn run_value(digits: Seq<char>) -> int
    decreases digits.len(),
{
    if digits.len() == 0 {
        0
    } else {
        run_value(digits.drop_last()) * 10 + (digits.last() as u32 - 48)
    }
}

/// A run of digits denotes a number, never something negative.
pub proof fn lemma_run_value_nonneg(s: Seq<char>)
    requires
        all_digits(s),
    ensures
        run_value(s) >= 0,
    decreases s.len(),
{
    if s.len() > 0 {
        assert(all_digits(s.drop_last())) by {
            assert forall|i: int| 0 <= i < s.len() - 1 implies #[trigger] is_digit_char(
                s.drop_last()[i],
            ) by {
                assert(s.drop_last()[i] == s[i]);
            }
        }
        lemma_run_value_nonneg(s.drop_last());
        assert(is_digit_char(s.last()));
    }
}

/// A prefix of a digit run denotes no more than the whole run.
pub proof fn lemma_run_value_prefix(s: Seq<char>, k: int)
    requires
        all_digits(s),
        0 <= k <= s.len(),
    ensures
        run_value(s.take(k)) <= run_value(s),
    decreases s.len() - k,
{
    if k == s.len() {
        assert(s.take(k) =~= s);
    } else {
        assert(s.take(k + 1).drop_last() =~= s.take(k));
        assert(s.take(k + 1).last() == s[k]);
        assert(all_digits(s.take(k))) by {
            assert forall|i: int| 0 <= i < k implies #[trigger] is_digit_char(s.take(k)[i]) by {
                assert(s.take(k)[i] == s[i]);
            }
        }
        lemma_run_value_nonneg(s.take(k));
        assert(is_digit_char(s[k]));
        assert(run_value(s.take(k + 1)) == run_value(s.take(k)) * 10 + (s[k] as u32 - 48));
        lemma_run_value_prefix(s, k + 1);
    }
}

/// A run of `n` zero characters.
pub open spec fn zero_chars(n: nat) -> Seq<char> {
    Seq::new(n, |i: int| '0')
}

/// One leading zero does not change the number a run denotes.
proof fn lemma_one_zero(t: Seq<char>)
    ensures
        run_value(seq!['0'] + t) == run_value(t),
    decreases t.len(),
{
    if t.len() == 0 {
        assert(seq!['0'] + t =~= seq!['0']);
        assert((seq!['0'] + t).drop_last() =~= Seq::<char>::empty());
        assert((seq!['0'] + t).last() == '0');
        assert(run_value(Seq::<char>::empty()) == 0);
        assert(('0' as u32) == 48);
        assert(run_value(seq!['0'] + t) == 0);
    } else {
        assert((seq!['0'] + t).drop_last() =~= seq!['0'] + t.drop_last());
        assert((seq!['0'] + t).last() == t.last());
        lemma_one_zero(t.drop_last());
    }
}

/// Leading zeroes do not change the number a run denotes.
pub proof fn lemma_zero_pad(z: nat, t: Seq<char>)
    ensures
        run_value(zero_chars(z) + t) == run_value(t),
    decreases z,
{
    if z == 0 {
        assert(zero_chars(0) + t =~= t);
    } else {
        assert(zero_chars(z) + t =~= seq!['0'] + (zero_chars((z - 1) as nat) + t));
        lemma_one_zero(zero_chars((z - 1) as nat) + t);
        lemma_zero_pad((z - 1) as nat, t);
    }
}

/// One comparison step: extending both runs by one digit keeps the rank
/// when the ranks already differ, and otherwise the new digits decide.
proof fn lemma_cmp_step(xp: Seq<char>, yp: Seq<char>, k: int, r: Rank)
    requires
        xp.len() == yp.len(),
        0 <= k < xp.len(),
        forall|i: int| 0 <= i < xp.len() ==> #[trigger] is_digit_char(xp[i]),
        forall|i: int| 0 <= i < yp.len() ==> #[trigger] is_digit_char(yp[i]),
        r == rank_of_ints(run_value(xp.take(k)), run_value(yp.take(k))),
    ensures
        rank_of_ints(run_value(xp.take(k + 1)), run_value(yp.take(k + 1))) == (
        if r is Same {
            rank_of_ints((xp[k] as u32) as int, (yp[k] as u32) as int)
        } else {
            r
        }),
{
    let tx = xp.take(k);
    let ty = yp.take(k);
    assert(xp.take(k + 1).drop_last() =~= tx);
    assert(yp.take(k + 1).drop_last() =~= ty);
    assert(xp.take(k + 1).last() == xp[k]);
    assert(yp.take(k + 1).last() == yp[k]);
    assert(all_digits(tx)) by {
        assert forall|i: int| 0 <= i < k implies #[trigger] is_digit_char(tx[i]) by {
            assert(tx[i] == xp[i]);
        }
    }
    assert(all_digits(ty)) by {
        assert forall|i: int| 0 <= i < k implies #[trigger] is_digit_char(ty[i]) by {
            assert(ty[i] == yp[i]);
        }
    }
    lemma_run_value_nonneg(tx);
    lemma_run_value_nonneg(ty);
    assert(is_digit_char(xp[k]) && is_digit_char(yp[k]));
    assert(run_value(xp.take(k + 1)) == run_value(tx) * 10 + (xp[k] as u32 - 48));
    assert(run_value(yp.take(k + 1)) == run_value(ty) * 10 + (yp[k] as u32 - 48));
}

/// Compares two runs of digits by the whole numbers they denote, however
/// long the runs are: the shorter run is compared as if padded with leading
/// zeroes, and the most significant differing digit decides.
#[verifier::rlimit(50)]
pub fn cmp_digit_runs(x: &str, y: &str) -> (r: Rank)
    requires
        all_digits(x@),
        all_digits(y@),
    ensures
        r == rank_of_ints(run_value(x@), run_value(y@)),
{
    let xl = x.unicode_len();
    let yl = y.unicode_len();
    let m = if xl > yl {
        xl
    } else {
        yl
    };
    let ghost xp = zero_chars((m - xl) as nat) + x@;
    let ghost yp = zero_chars((m - yl) as nat) + y@;
    proof {
        lemma_zero_pad((m - xl) as nat, x@);
        lemma_zero_pad((m - yl) as nat, y@);
        assert(('0' as u32) == 48);
        assert forall|i: int| 0 <= i < m implies #[trigger] is_digit_char(xp[i]) by {
            if i >= m - xl {
                assert(xp[i] == x@[i - (m - xl)]);
            } else {
                assert(xp[i] == '0');
            }
        }
        assert forall|i: int| 0 <= i < m implies #[trigger] is_digit_char(yp[i]) by {
            if i >= m - yl {
                assert(yp[i] == y@[i - (m - yl)]);
            } else {
                assert(yp[i] == '0');
            }
        }
        assert(xp.take(0) =~= Seq::<char>::empty());
        assert(yp.take(0) =~= Seq::<char>::empty());
    }
    let mut r = Rank::Same;
    let mut k: usize = 0;
    while k < m
        invariant
            xl == x@.len(),
            yl == y@.len(),
            m == xl || m == yl,
            xl <= m && yl <= m,
            xp == zero_chars((m - xl) as nat) + x@,
            yp == zero_chars((m - yl) as nat) + y@,
            xp.len() == m && yp.len() == m,
            forall|i: int| 0 <= i < m ==> #[trigger] is_digit_char(xp[i]),
            forall|i: int| 0 <= i < m ==> #[trigger] is_digit_char(yp[i]),
            k <= m,
            r == rank_of_ints(run_value(xp.take(k as int)), run_value(yp.take(k as int))),
        decreases m - k,
    {
        let dx: u32 = if k < m - xl {
            48
        } else {
            x.get_char(k - (m - xl)) as u32
        };
        let dy: u32 = if k < m - yl {
            48
        } else {
            y.get_char(k - (m - yl)) as u32
        };
        proof {
            assert(('0' as u32) == 48);
            assert(dx == xp[k as int] as u32);
            assert(dy == yp[k as int] as u32);
            lemma_cmp_step(xp, yp, k as int, r);
        }
        if matches!(r, Rank::Same) {
            if dx > dy {
                r = Rank::After;
            } else if dx < dy {
                r = Rank::Before;
            }
        }
        k += 1;
    }
    proof {
        assert(xp.take(m as int) =~= xp);
        assert(yp.take(m as int) =~= yp);
    }
    r
}

/// The smaller of two integers.
pub open spec fn min_int(a: int, b: int) -> int {
    if a <= b {
        a
    } else {
        b
    }
}

/// Whether every character of a run shares the first character's class.
pub open spec fn uniform_run(c: Seq<char>) -> bool {
    forall|k: int| 0 <= k < c.len() ==> #[trigger] is_digit_char(c[k]) == is_digit_char(c[0])
}

/// Every run of a decomposition is nonempty and uniform in character class.
pub proof fn lemma_chunks_wf(s: Seq<char>)
    ensures
        forall|i: int|
            0 <= i < chunks(s).len() ==> (#[trigger] chunks(s)[i]).len() > 0 && uniform_run(
                chunks(s)[i],
            ),
    decreases s.len(),
{
    if s.len() > 0 {
        lemma_run_len(s);
        lemma_chunks_wf(s.skip(run_len(s)));
        let first = s.take(run_len(s));
        assert(uniform_run(first)) by {
            assert forall|k: int| 0 <= k < first.len() implies #[trigger] is_digit_char(first[k])
                == is_digit_char(first[0]) by {
                assert(first[k] == s[k]);
                assert(first[0] == s[0]);
            }
        }
        assert forall|i: int| 0 <= i < chunks(s).len() implies (#[trigger] chunks(s)[i]).len() > 0
            && uniform_run(chunks(s)[i]) by {
            if i == 0 {
                assert(chunks(s)[0] == first);
            } else {
                assert(chunks(s)[i] == chunks(s.skip(run_len(s)))[i - 1]);
            }
        }
    }
}

/// The number of positions before `upto` where the first run's character is
/// strictly greater than the second's.
pub open spec fn count_gt(x: Seq<char>, y: Seq<char>, upto: int) -> int
    decreases upto,
{
    if upto <= 0 {
        0
    } else {
        count_gt(x, y, upto - 1) + if (x[upto - 1] as u32) > (y[upto - 1] as u32) {
            1int
        } else {
            0int
        }
    }
}

/// `count_gt` counts at most one per position.
pub proof fn lemma_count_gt_bound(x: Seq<char>, y: Seq<char>, upto: int)
    requires
        upto >= 0,
    ensures
        0 <= count_gt(x, y, upto) <= upto,
    decreases upto,
{
    if upto > 0 {
        lemma_count_gt_bound(x, y, upto - 1);
    }
}

/// The bias one text run gains against another: one per position in the
/// common prefix where its character is greater, and one more when it is
/// the longer run.
pub open spec fn text_bias(x: Seq<char>, y: Seq<char>) -> int {
    count_gt(x, y, min_int(x.len() as int, y.len() as int)) + if x.len() > y.len() {
        1int
    } else {
        0int
    }
}

/// The comparison of two run decompositions from position `i` on, with the
/// biases accumulated so far. A text run against a number run decides at
/// once, the text side after; two number runs bias the side with the larger
/// value; two text runs bias by character and length; runs past the common
/// prefix are ignored, and the side with the larger accumulated bias is
/// ordered after.
pub open spec fn rank_from(a: Seq<Seq<char>>, b: Seq<Seq<char>>, i: int, b1: int, b2: int) -> Rank
    decreases min_int(a.len() as int, b.len() as int) - i when 0 <= i
{
    if i >= min_int(a.len() as int, b.len() as int) {
        rank_of_ints(b1, b2)
    } else {
        let x = a[i];
        let y = b[i];
        if is_num_run(x) != is_num_run(y) {
            if is_num_run(x) {
                Rank::Before
            } else {
                Rank::After
            }
        } else if is_num_run(x) {
            rank_from(
                a,
                b,
                i + 1,
                b1 + if run_value(x) > run_value(y) {
                    1int
                } else {
                    0int
                },
                b2 + if run_value(y) > run_value(x) {
                    1int
                } else {
                    0int
                },
            )
        } else {
            rank_from(a, b, i + 1, b1 + text_bias(x, y), b2 + text_bias(y, x))
        }
    }
}

/// The natural order of two case-folded names: their run decompositions
/// compared with no bias yet accumulated.
pub open spec fn natural_cmp(a: Seq<char>, b: Seq<char>) -> Rank {
    rank_from(chunks(a), chunks(b), 0, 0, 0)
}

/// The mirror image of a rank.
pub open spec fn flip(r: Rank) -> Rank {
    match r {
        Rank::Before => Rank::After,
        Rank::Same => Rank::Same,
        Rank::After => Rank::Before,
    }
}

/// Swapping the two sides swaps the accumulated biases and mirrors the
/// outcome.
pub proof fn lemma_rank_from_antisym(
    a: Seq<Seq<char>>,
    b: Seq<Seq<char>>,
    i: int,
    b1: int,
    b2: int,
)
    requires
        0 <= i,
    ensures
        rank_from(a, b, i, b1, b2) == flip(rank_from(b, a, i, b2, b1)),
    decreases min_int(a.len() as int, b.len() as int) - i,
{
    if i < min_int(a.len() as int, b.len() as int) {
        let x = a[i];
        let y = b[i];
        if is_num_run(x) == is_num_run(y) {
            if is_num_run(x) {
                lemma_rank_from_antisym(
                    a,
                    b,
                    i + 1,
                    b1 + if run_value(x) > run_value(y) {
                        1int
                    } else {
                        0int
                    },
                    b2 + if run_value(y) > run_value(x) {
                        1int
                    } else {
                        0int
                    },
                );
            } else {
                lemma_rank_from_antisym(a, b, i + 1, b1 + text_bias(x, y), b2 + text_bias(y, x));
            }
        }
    }
}

/// Comparing one name to another is the mirror of comparing the other to
/// the one: the comparator never ranks two names each after the other, so
/// the order it induces is consistent whichever way a pair is visited.
pub proof fn lemma_natural_cmp_antisymmetric(a: Seq<char>, b: Seq<char>)
    ensures
        natural_cmp(a, b) == flip(natural_cmp(b, a)),
{
    lemma_rank_from_antisym(chunks(a), chunks(b), 0, 0, 0);
}

/// Whether a run is a number run: nonempty and starting with a digit.
fn is_num_run_exec(x: &str) -> (r: bool)
    ensures
        r == is_num_run(x@),
{
    if x.unicode_len() == 0 {
        false
    } else {
        let c = x.get_char(0);
        (c as u32) >= 48 && (c as u32) <= 57
    }
}

/// Counts, over the common prefix of two text runs, the positions where
/// each side's character is strictly greater than the other's.
fn text_counts(x: &str, y: &str) -> (r: (usize, usize))
    ensures
        r.0 == count_gt(x@, y@, min_int(x@.len() as int, y@.len() as int)),
        r.1 == count_gt(y@, x@, min_int(x@.len() as int, y@.len() as int)),
{
    let xl = x.unicode_len();
    let yl = y.unicode_len();
    let m = if xl <= yl {
        xl
    } else {
        yl
    };
    let mut gx: usize = 0;
    let mut gy: usize = 0;
    let mut k: usize = 0;
    while k < m
        invariant
            xl == x@.len(),
            yl == y@.len(),
            m == min_int(x@.len() as int, y@.len() as int),
            k <= m,
            gx == count_gt(x@, y@, k as int),
            gy == count_gt(y@, x@, k as int),
            gx <= k,
            gy <= k,
        decreases m - k,
    {
        let cx = x.get_char(k) as u32;
        let cy = y.get_char(k) as u32;
        if cx > cy {
            gx += 1;
        } else if cy > cx {
            gy += 1;
        }
        k += 1;
    }
    (gx, gy)
}

/// Compares two case-folded names in the natural order: by their runs, text
/// against numbers, numbers by value, text by characters and length, the
/// accumulated bias deciding.
pub fn compare_folded(a: &str, b: &str) -> (r: Rank)
    ensures
        r == natural_cmp(a@, b@),
{
    let ca = split_chunks(a);
    let cb = split_chunks(b);
    let ghost va = chunks(a@);
    let ghost vb = chunks(b@);
    proof {
        lemma_chunks_wf(a@);
        lemma_chunks_wf(b@);
    }
    let alen = ca.len();
    let blen = cb.len();
    let m = if alen <= blen {
        alen
    } else {
        blen
    };
    let mut b1: u128 = 0;
    let mut b2: u128 = 0;
    let mut i: usize = 0;
    while i < m
        invariant
            va == chunks(a@),
            vb == chunks(b@),
            ca@.len() == va.len(),
            cb@.len() == vb.len(),
            forall|j: int| 0 <= j < ca@.len() ==> ca@[j]@ == va[j],
            forall|j: int| 0 <= j < cb@.len() ==> cb@[j]@ == vb[j],
            forall|j: int|
                0 <= j < va.len() ==> (#[trigger] va[j]).len() > 0 && uniform_run(va[j]),
            forall|j: int|
                0 <= j < vb.len() ==> (#[trigger] vb[j]).len() > 0 && uniform_run(vb[j]),
            m == min_int(va.len() as int, vb.len() as int),
            i <= m,
            b1 <= (i as int) * 0x1_0000_0000_0000_0000,
            b2 <= (i as int) * 0x1_0000_0000_0000_0000,
            rank_from(va, vb, i as int, b1 as int, b2 as int) == rank_from(va, vb, 0, 0, 0),
        decreases m - i,
    {
        let xn = is_num_run_exec(ca[i].as_str());
        let yn = is_num_run_exec(cb[i].as_str());
        if xn != yn {
            if xn {
                return Rank::Before;
            } else {
                return Rank::After;
            }
        } else if xn {
            proof {
                assert(all_digits(va[i as int])) by {
                    assert forall|k: int| 0 <= k < va[i as int].len() implies #[trigger]
                        is_digit_char(va[i as int][k]) by {
                        assert(is_digit_char(va[i as int][k]) == is_digit_char(va[i as int][0]));
                    }
                }
                assert(all_digits(vb[i as int])) by {
                    assert forall|k: int| 0 <= k < vb[i as int].len() implies #[trigger]
                        is_digit_char(vb[i as int][k]) by {
                        assert(is_digit_char(vb[i as int][k]) == is_digit_char(vb[i as int][0]));
                    }
                }
            }
            let c = cmp_digit_runs(ca[i].as_str(), cb[i].as_str());
            let d1: u128 = if matches!(c, Rank::After) {
                1
            } else {
                0
            };
            let d2: u128 = if matches!(c, Rank::Before) {
                1
            } else {
                0
            };
            proof {
                lemma_run_value_nonneg(va[i as int]);
                lemma_run_value_nonneg(vb[i as int]);
            }
            b1 = b1 + d1;
            b2 = b2 + d2;
        } else {
            let counts = text_counts(ca[i].as_str(), cb[i].as_str());
            let xlonger = ca[i].as_str().unicode_len() > cb[i].as_str().unicode_len();
            let ylonger = cb[i].as_str().unicode_len() > ca[i].as_str().unicode_len();
            proof {
                lemma_count_gt_bound(
                    va[i as int],
                    vb[i as int],
                    min_int(va[i as int].len() as int, vb[i as int].len() as int),
                );
                lemma_count_gt_bound(
                    vb[i as int],
                    va[i as int],
                    min_int(va[i as int].len() as int, vb[i as int].len() as int),
                );
            }
            b1 = b1 + (counts.0 as u128) + (if xlonger {
                1
            } else {
                0
            });
            b2 = b2 + (counts.1 as u128) + (if ylonger {
                1
            } else {
                0
            });
        }
        i += 1;
    }
    proof {
        assert(rank_from(va, vb, i as int, b1 as int, b2 as int) == rank_of_ints(
            b1 as int,
            b2 as int,
        ));
    }
    if b1 > b2 {
        Rank::After
    } else if b1 < b2 {
        Rank::Before
    } else {
        Rank::Same
    }
}

/// Relies on str::to_lowercase: the lowercase mapping of a string is a
/// function of its characters alone.
#[verifier::external_body]
fn lowercase(s: &str) -> (r: String)
    ensures
        r@ == lower_of(s@),
{
    s.to_lowercase()
}

/// Compares two names in the natural order, case folded first.
pub fn natural_compare(a: &str, b: &str) -> (r: Rank)
    ensures
        r == natural_cmp(lower_of(a@), lower_of(b@)),
{
    let la = lowercase(a);
    let lb = lowercase(b);
    compare_folded(la.as_str(), lb.as_str())
}

/// Whether one name stands no later than another in the natural order,
/// case folded first.
pub open spec fn in_order(a: String, b: String) -> bool {
    natural_cmp(lower_of(a@), lower_of(b@)) != Rank::After
}

/// Whether each name stands no later than its successor.
pub open spec fn sorted_natural(names: Seq<String>) -> bool {
    forall|i: int| 0 <= i < names.len() - 1 ==> #[trigger] in_order(names[i], names[i + 1])
}

/// Inserting an element anywhere adds exactly it to the sequence's
/// multiset.
proof fn lemma_insert_multiset(s: Seq<String>, p: int, x: String)
    requires
        0 <= p <= s.len(),
    ensures
        s.insert(p, x).to_multiset() == s.to_multiset().insert(x),
{
    broadcast use vstd::seq_lib::group_to_multiset_ensures;
    broadcast use vstd::multiset::group_multiset_axioms;

    assert(s.insert(p, x) =~= s.take(p) + (seq![x] + s.skip(p)));
    vstd::seq_lib::lemma_multiset_commutative(s.take(p), seq![x] + s.skip(p));
    vstd::seq_lib::lemma_multiset_commutative(seq![x], s.skip(p));
    assert(s =~= s.take(p) + s.skip(p));
    vstd::seq_lib::lemma_multiset_commutative(s.take(p), s.skip(p));
    assert(seq![x] =~= Seq::<String>::empty().push(x));
    assert(Seq::<String>::empty().to_multiset() =~= Multiset::<String>::empty());
    assert(s.insert(p, x).to_multiset() =~= s.to_multiset().insert(x));
}

/// Sorts names into the natural order. The result holds exactly the given
/// names, and each stands no later than its successor.
pub fn sort_names(names: Vec<String>) -> (r: Vec<String>)
    ensures
        r@.to_multiset() == names@.to_multiset(),
        sorted_natural(r@),
{
    let mut names = names;
    let ghost orig = names@;
    if names.len() <= 1 {
        return names;
    }
    let mut idx: usize = 1;
    while idx < names.len()
        invariant
            names@.len() == orig.len(),
            names@.to_multiset() == orig.to_multiset(),
            1 <= idx <= names@.len(),
            forall|i: int| 0 <= i < idx - 1 ==> #[trigger] in_order(names@[i], names@[i + 1]),
        decreases names@.len() - idx,
    {
        let ghost before = names@;
        let x = names.remove(idx);
        let ghost xg = x;
        let ghost pre = names@;
        let mut p: usize = idx;
        let mut scanning = p > 0;
        while scanning
            invariant
                names@ == pre,
                pre.len() >= idx,
                xg == x,
                p <= idx,
                forall|j: int|
                    p <= j < idx ==> natural_cmp(
                        lower_of(#[trigger] pre[j]@),
                        lower_of(xg@),
                    ) == Rank::After,
                scanning ==> p > 0,
                !scanning ==> p == 0 || in_order(pre[p - 1], xg),
            decreases p + (if scanning {
                1int
            } else {
                0int
            }),
        {
            let c = natural_compare(names[p - 1].as_str(), x.as_str());
            if matches!(c, Rank::After) {
                p -= 1;
                scanning = p > 0;
            } else {
                scanning = false;
            }
        }
        names.insert(p, x);
        proof {
            broadcast use vstd::seq_lib::group_to_multiset_ensures;

            lemma_insert_multiset(pre, p as int, xg);
            assert(before[idx as int] == xg);
            assert(pre.to_multiset() == before.to_multiset().remove(xg));
            assert(before.contains(xg));
            assert(before.to_multiset().contains(xg));
            assert(names@.to_multiset() =~= before.to_multiset());
            pre.insert_ensures(p as int, xg);
            assert forall|i: int| 0 <= i < idx implies #[trigger] in_order(
                names@[i],
                names@[i + 1],
            ) by {
                if i + 1 < p {
                    assert(names@[i] == pre[i] && names@[i + 1] == pre[i + 1]);
                    assert(in_order(before[i], before[i + 1]));
                } else if i + 1 == p {
                    assert(names@[i] == pre[i] && names@[i + 1] == xg);
                } else if i == p {
                    assert(names@[i] == xg && names@[i + 1] == pre[i]);
                    assert(natural_cmp(lower_of(pre[i]@), lower_of(xg@)) == Rank::After);
                    lemma_natural_cmp_antisymmetric(lower_of(xg@), lower_of(pre[i]@));
                } else {
                    assert(names@[i] == pre[i - 1] && names@[i + 1] == pre[i]);
                    assert(in_order(before[i - 1], before[i]));
                }
            }
        }
        idx += 1;
    }
    names
}

/// One run of a split name: a text run, or a number run parsed as a whole
/// number.
pub enum TextNum {
    Text(String),
    Number(i32),
}

/// All characters of a prefix of a digit run are digits.
proof fn lemma_all_digits_take(s: Seq<char>, k: int)
    requires
        all_digits(s),
        0 <= k <= s.len(),
    ensures
        all_digits(s.take(k)),
{
    assert forall|i: int| 0 <= i < k implies #[trigger] is_digit_char(s.take(k)[i]) by {
        assert(s.take(k)[i] == s[i]);
    }
}

/// Parses a run of digits as a whole number.
fn parse_digits(x: &str) -> (v: i32)
    requires
        all_digits(x@),
        run_value(x@) <= i32::MAX,
    ensures
        v as int == run_value(x@),
{
    let len = x.unicode_len();
    let mut v: i64 = 0;
    let mut k: usize = 0;
    proof {
        assert(x@.take(0) =~= Seq::<char>::empty());
    }
    while k < len
        invariant
            len == x@.len(),
            all_digits(x@),
            run_value(x@) <= i32::MAX,
            k <= len,
            v as int == run_value(x@.take(k as int)),
            0 <= v <= i32::MAX,
        decreases len - k,
    {
        let d = x.get_char(k) as u32;
        proof {
            assert(is_digit_char(x@[k as int]));
            assert(x@.take(k + 1).drop_last() =~= x@.take(k as int));
            assert(x@.take(k + 1).last() == x@[k as int]);
            lemma_all_digits_take(x@, k + 1);
            lemma_run_value_nonneg(x@.take(k + 1));
            lemma_run_value_prefix(x@, k + 1);
        }
        v = v * 10 + ((d - 48) as i64);
        k += 1;
    }
    proof {
        assert(x@.take(len as int) =~= x@);
    }
    v as i32
}

impl TextNum {
    /// Splits a name into its runs: each maximal run of non-digits becomes a
    /// text run, and each maximal run of digits becomes a number run parsed
    /// as a whole number. Every number run must denote a value a machine
    /// integer can hold.
    pub fn split_text_and_numbers(input: String) -> (list: Vec<TextNum>)
        requires
            forall|i: int|
                0 <= i < chunks(input@).len() && is_num_run(#[trigger] chunks(input@)[i])
                    ==> run_value(chunks(input@)[i]) <= i32::MAX,
        ensures
            list@.len() == chunks(input@).len(),
            forall|i: int|
                0 <= i < list@.len() ==> (match #[trigger] list@[i] {
                    TextNum::Text(t) => !is_num_run(chunks(input@)[i]) && t@ == chunks(input@)[i],
                    TextNum::Number(n) => is_num_run(chunks(input@)[i]) && n as int == run_value(
                        chunks(input@)[i],
                    ),
                }),
    {
        let parts = split_chunks(input.as_str());
        proof {
            lemma_chunks_wf(input@);
        }
        let mut list: Vec<TextNum> = Vec::new();
        let mut i: usize = 0;
        while i < parts.len()
            invariant
                forall|j: int|
                    0 <= j < chunks(input@).len() && is_num_run(#[trigger] chunks(input@)[j])
                        ==> run_value(chunks(input@)[j]) <= i32::MAX,
                parts@.len() == chunks(input@).len(),
                forall|j: int| 0 <= j < parts@.len() ==> parts@[j]@ == chunks(input@)[j],
                forall|j: int|
                    0 <= j < chunks(input@).len() ==> (#[trigger] chunks(input@)[j]).len() > 0
                        && uniform_run(chunks(input@)[j]),
                i <= parts@.len(),
                list@.len() == i,
                forall|j: int|
                    0 <= j < i ==> (match #[trigger] list@[j] {
                        TextNum::Text(t) => !is_num_run(chunks(input@)[j]) && t@ == chunks(
                            input@,
                        )[j],
                        TextNum::Number(n) => is_num_run(chunks(input@)[j]) && n as int
                            == run_value(chunks(input@)[j]),
                    }),
            decreases parts@.len() - i,
        {
            if is_num_run_exec(parts[i].as_str()) {
                proof {
                    assert(all_digits(parts@[i as int]@)) by {
                        let c = chunks(input@)[i as int];
                        assert forall|k: int| 0 <= k < c.len() implies #[trigger] is_digit_char(
                            c[k],
                        ) by {
                            assert(is_digit_char(c[k]) == is_digit_char(c[0]));
                        }
                    }
                }
                let value = parse_digits(parts[i].as_str());
                list.push(TextNum::Number(value));
            } else {
                list.push(TextNum::Text(parts[i].clone()));
            }
            i += 1;
        }
        list
    }
}

} // verus!
