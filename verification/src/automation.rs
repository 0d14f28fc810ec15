//! The automation codec, seen whole: what a capture session encodes as
//! sparse keyframes from the control values it sees at each tick, what a
//! replay session makes of those keyframes, and the law that replaying a
//! captured session reproduces the captured values at every tick.
//!
//! The definitions here mirror the per-tick contracts of
//! `crate::player::Session`: capture appends a keyframe exactly when the
//! values differ from the previously captured ones, and replay applies a
//! keyframe exactly at its tick, holding in between.

use vstd::prelude::*;
use crate::catalog::zero_controls;
use crate::player::Session;

verus! {

/// Whether a session's frame list, as stored, spells out the given
/// keyframes: same length, same values, same ticks.
pub open spec fn frames_match(
    stored: Seq<([i32; 6], i32)>,
    frames: Seq<([i32; 6], int)>,
) -> bool {
    &&& stored.len() == frames.len()
    &&& forall|k: int|
        0 <= k < frames.len() ==> (#[trigger] stored[k]).0 == frames[k].0 && stored[k].1 as int
            == frames[k].1
}

/// Whether a capture session stands exactly where `capture_upto` says it
/// should after seeing `values`: the tick counter has counted them, the
/// buffer past its seed frame holds their keyframes, and the previously
/// captured values are the last ones seen.
pub open spec fn capturing_matches(session: Session, values: Seq<[i32; 6]>) -> bool {
    &&& session.mode is Capture
    &&& session.wf()
    &&& session.frame == values.len()
    &&& frames_match(
        session.snapshot.frames@.drop_first(),
        capture_upto(values, values.len() as int),
    )
    &&& session.previous_frame@ == (if values.len() == 0 {
        zero_controls()
    } else {
        values.last()@
    })
}

/// Whether the control values change at tick `t`: they differ from the
/// previously captured values, which start out zeroed.
pub open spec fn changed_at(values: Seq<[i32; 6]>, t: int) -> bool {
    if t == 0 {
        values[0]@ != zero_controls()
    } else {
        values[t]@ != values[t - 1]@
    }
}

/// The keyframes a capture session has appended after the first `n` ticks,
/// given the control values it saw at each tick: one keyframe per tick at
/// which the values changed.
pub open spec fn capture_upto(values: Seq<[i32; 6]>, n: int) -> Seq<([i32; 6], int)>
    decreases n,
{
    if n <= 0 {
        Seq::empty()
    } else {
        let p = capture_upto(values, n - 1);
        if changed_at(values, n - 1) {
            p.push((values[n - 1], n - 1))
        } else {
            p
        }
    }
}

/// The control values replay shows at tick `t`: those of the last keyframe
/// at or before `t`, or the initial values when no keyframe has applied
/// yet.
pub open spec fn replay_at(frames: Seq<([i32; 6], int)>, t: int, init: [i32; 6]) -> [i32; 6]
    decreases frames.len(),
{
    if frames.len() == 0 {
        init
    } else if frames.last().1 <= t {
        frames.last().0
    } else {
        replay_at(frames.drop_last(), t, init)
    }
}

/// One replay tick: when the next keyframe's tick equals the tick counter,
/// its values are published and the keyframe index advances; otherwise the
/// published values hold.
pub open spec fn input_step(
    frames: Seq<([i32; 6], int)>,
    ef: int,
    t: int,
    live: [i32; 6],
) -> (int, [i32; 6]) {
    if 0 <= ef < frames.len() && frames[ef].1 == t {
        (ef + 1, frames[ef].0)
    } else {
        (ef, live)
    }
}

/// The replay state after ticks 0 through `n`-1 have each taken one
/// `input_step`, starting at the first keyframe with the initial values
/// published.
pub open spec fn run_input(frames: Seq<([i32; 6], int)>, n: int, init: [i32; 6]) -> (int, [i32; 6])
    decreases n,
{
    if n <= 0 {
        (0, init)
    } else {
        let s = run_input(frames, n - 1, init);
        input_step(frames, s.0, n - 1, s.1)
    }
}

/// Whether keyframe ticks increase strictly along the sequence.
pub open spec fn ticks_increasing(frames: Seq<([i32; 6], int)>) -> bool {
    forall|k1: int, k2: int|
        0 <= k1 < k2 < frames.len() ==> (#[trigger] frames[k1]).1 < (#[trigger] frames[k2]).1
}

/// Every keyframe a capture session appends in its first `n` ticks carries
/// a tick below `n`, and the ticks increase strictly.
pub proof fn lemma_capture_ticks(values: Seq<[i32; 6]>, n: int)
    ensures
        forall|k: int|
            0 <= k < capture_upto(values, n).len() ==> 0 <= (#[trigger] capture_upto(values, n)[k]).1
                < n,
        ticks_increasing(capture_upto(values, n)),
    decreases n,
{
    if n > 0 {
        lemma_capture_ticks(values, n - 1);
        let p = capture_upto(values, n - 1);
        if changed_at(values, n - 1) {
            assert forall|k: int|
                0 <= k < capture_upto(values, n).len() implies 0 <= (#[trigger] capture_upto(
                values,
                n,
            )[k]).1 < n by {
                if k < p.len() {
                    assert(capture_upto(values, n)[k] == p[k]);
                }
            }
            assert forall|k1: int, k2: int|
                0 <= k1 < k2 < capture_upto(values, n).len() implies (#[trigger] capture_upto(
                values,
                n,
            )[k1]).1 < (#[trigger] capture_upto(values, n)[k2]).1 by {
                if k2 < p.len() {
                    assert(capture_upto(values, n)[k1] == p[k1]);
                    assert(capture_upto(values, n)[k2] == p[k2]);
                } else {
                    assert(capture_upto(values, n)[k1] == p[k1]);
                    assert(capture_upto(values, n)[k2].1 == n - 1);
                }
            }
        }
    }
}

/// When no keyframe sits exactly at tick `t`, replay at `t` shows what it
/// showed at `t`-1.
proof fn lemma_replay_no_hit(frames: Seq<([i32; 6], int)>, t: int, init: [i32; 6])
    requires
        forall|k: int| 0 <= k < frames.len() ==> (#[trigger] frames[k]).1 != t,
    ensures
        replay_at(frames, t, init) == replay_at(frames, t - 1, init),
    decreases frames.len(),
{
    if frames.len() > 0 {
        if frames.last().1 <= t {
            assert(frames.last().1 <= t - 1);
        } else {
            assert forall|k: int|
                0 <= k < frames.drop_last().len() implies (#[trigger] frames.drop_last()[k]).1
                != t by {
                assert(frames.drop_last()[k] == frames[k]);
            }
            lemma_replay_no_hit(frames.drop_last(), t, init);
        }
    }
}

/// When the keyframe at index `j` sits exactly at tick `t` and ticks
/// increase strictly, replay at `t` shows that keyframe's values.
proof fn lemma_replay_hit(frames: Seq<([i32; 6], int)>, j: int, t: int, init: [i32; 6])
    requires
        ticks_increasing(frames),
        0 <= j < frames.len(),
        frames[j].1 == t,
    ensures
        replay_at(frames, t, init) == frames[j].0,
    decreases frames.len(),
{
    if j == frames.len() - 1 {
    } else {
        assert(frames.last().1 > t);
        assert forall|k1: int, k2: int|
            0 <= k1 < k2 < frames.drop_last().len() implies (#[trigger] frames.drop_last()[
            k1]).1 < (#[trigger] frames.drop_last()[k2]).1 by {
            assert(frames.drop_last()[k1] == frames[k1]);
            assert(frames.drop_last()[k2] == frames[k2]);
        }
        assert(frames.drop_last()[j] == frames[j]);
        lemma_replay_hit(frames.drop_last(), j, t, init);
    }
}

/// Replaying the keyframes captured in `n` ticks shows, at every tick `t`
/// below `n`, exactly the values that were captured at `t`.
pub proof fn lemma_replay_captured(values: Seq<[i32; 6]>, n: int, t: int, init: [i32; 6])
    requires
        0 <= t < n <= values.len(),
        init@ == zero_controls(),
    ensures
        replay_at(capture_upto(values, n), t, init)@ == values[t]@,
    decreases n,
{
    lemma_capture_ticks(values, n - 1);
    let p = capture_upto(values, n - 1);
    if t < n - 1 {
        lemma_replay_captured(values, n - 1, t, init);
        if changed_at(values, n - 1) {
            assert(capture_upto(values, n) == p.push((values[n - 1], n - 1)));
            assert(capture_upto(values, n).last().1 == n - 1 > t);
            assert(capture_upto(values, n).drop_last() =~= p);
        }
    } else {
        if changed_at(values, n - 1) {
            assert(capture_upto(values, n).last().1 == n - 1 <= t);
            assert(replay_at(capture_upto(values, n), t, init) == values[n - 1]);
        } else {
            assert(capture_upto(values, n) == p);
            if n - 1 == 0 {
                assert(values[0]@ == zero_controls());
                assert(p =~= Seq::<([i32; 6], int)>::empty());
                assert(replay_at(p, t, init) == init);
            } else {
                assert(values[n - 1]@ == values[n - 2]@);
                lemma_replay_captured(values, n - 1, n - 2, init);
                assert forall|k: int| 0 <= k < p.len() implies (#[trigger] p[k]).1 != n - 1 by {
                    lemma_capture_ticks(values, n - 1);
                }
                lemma_replay_no_hit(p, n - 1, init);
            }
        }
    }
}

/// The number of keyframes whose ticks lie below `n`.
pub open spec fn frames_below(frames: Seq<([i32; 6], int)>, n: int) -> int
    decreases frames.len(),
{
    if frames.len() == 0 {
        0
    } else if frames.last().1 < n {
        frames.len() as int
    } else {
        frames_below(frames.drop_last(), n)
    }
}

/// For strictly increasing ticks, `frames_below` splits the sequence: all
/// ticks below it are below `n`, and none from it on.
proof fn lemma_frames_below(frames: Seq<([i32; 6], int)>, n: int)
    requires
        ticks_increasing(frames),
    ensures
        0 <= frames_below(frames, n) <= frames.len(),
        forall|k: int| 0 <= k < frames_below(frames, n) ==> (#[trigger] frames[k]).1 < n,
        forall|k: int|
            frames_below(frames, n) <= k < frames.len() ==> (#[trigger] frames[k]).1 >= n,
    decreases frames.len(),
{
    if frames.len() > 0 {
        if frames.last().1 < n {
            assert forall|k: int| 0 <= k < frames.len() implies (#[trigger] frames[k]).1 < n by {
                if k < frames.len() - 1 {
                    assert(frames[k].1 < frames.last().1);
                }
            }
        } else {
            assert forall|k1: int, k2: int|
                0 <= k1 < k2 < frames.drop_last().len() implies (#[trigger] frames.drop_last()[
                k1]).1 < (#[trigger] frames.drop_last()[k2]).1 by {
                assert(frames.drop_last()[k1] == frames[k1]);
                assert(frames.drop_last()[k2] == frames[k2]);
            }
            lemma_frames_below(frames.drop_last(), n);
            assert forall|k: int| 0 <= k < frames_below(frames, n) implies (#[trigger] frames[
            k]).1 < n by {
                assert(frames.drop_last()[k] == frames[k]);
            }
            assert forall|k: int|
                frames_below(frames, n) <= k < frames.len() implies (#[trigger] frames[k]).1
                >= n by {
                if k < frames.len() - 1 {
                    assert(frames.drop_last()[k] == frames[k]);
                } else {
                    if frames.len() >= 2 {
                        assert(frames[frames.len() - 2].1 < frames.last().1);
                    }
                }
            }
        }
    }
}

/// After `n` replay ticks the keyframe index sits at the first keyframe not
/// yet due, and the published values are those replay shows at tick `n`-1.
proof fn lemma_run_input(frames: Seq<([i32; 6], int)>, n: int, init: [i32; 6])
    requires
        n >= 0,
        ticks_increasing(frames),
        forall|k: int| 0 <= k < frames.len() ==> (#[trigger] frames[k]).1 >= 0,
    ensures
        run_input(frames, n, init).0 == frames_below(frames, n),
        run_input(frames, n, init).1 == replay_at(frames, n - 1, init),
    decreases n,
{
    lemma_frames_below(frames, n);
    if n == 0 {
        assert(frames_below(frames, 0) == 0) by {
            lemma_frames_below(frames, 0);
            if frames_below(frames, 0) > 0 {
                assert(frames[0].1 < 0);
            }
        }
        assert(replay_at(frames, -1, init) == init) by {
            lemma_replay_neg(frames, init);
        }
    } else {
        lemma_run_input(frames, n - 1, init);
        lemma_frames_below(frames, n - 1);
        let ef = frames_below(frames, n - 1);
        if 0 <= ef < frames.len() && frames[ef].1 == n - 1 {
            assert(run_input(frames, n, init).1 == frames[ef].0);
            lemma_replay_hit(frames, ef, n - 1, init);
            assert forall|k: int| 0 <= k < ef + 1 implies (#[trigger] frames[k]).1 < n by {
                if k < ef {
                    assert(frames[k].1 < n - 1);
                }
            }
            assert forall|k: int| ef + 1 <= k < frames.len() implies (#[trigger] frames[k]).1
                >= n by {
                assert(frames[ef].1 < frames[k].1);
            }
            lemma_frames_below_is(frames, n, ef + 1);
        } else {
            assert forall|k: int| 0 <= k < frames.len() implies (#[trigger] frames[k]).1 != n
                - 1 by {
                if k < ef {
                    assert(frames[k].1 < n - 1);
                } else {
                    assert(frames[k].1 >= n - 1);
                    if k > ef {
                        assert(frames[ef].1 < frames[k].1);
                    }
                }
            }
            lemma_replay_no_hit(frames, n - 1, init);
            assert forall|k: int| 0 <= k < ef implies (#[trigger] frames[k]).1 < n by {
                assert(frames[k].1 < n - 1);
            }
            assert forall|k: int| ef <= k < frames.len() implies (#[trigger] frames[k]).1 >= n by {
                assert(frames[k].1 >= n - 1);
                assert(frames[k].1 != n - 1);
            }
            lemma_frames_below_is(frames, n, ef);
        }
    }
}

/// Replay before the first tick shows the initial values.
proof fn lemma_replay_neg(frames: Seq<([i32; 6], int)>, init: [i32; 6])
    requires
        forall|k: int| 0 <= k < frames.len() ==> (#[trigger] frames[k]).1 >= 0,
    ensures
        replay_at(frames, -1, init) == init,
    decreases frames.len(),
{
    if frames.len() > 0 {
        assert forall|k: int| 0 <= k < frames.drop_last().len() implies (#[trigger]
        frames.drop_last()[k]).1 >= 0 by {
            assert(frames.drop_last()[k] == frames[k]);
        }
        lemma_replay_neg(frames.drop_last(), init);
    }
}

/// `frames_below` is pinned by any split witness.
proof fn lemma_frames_below_is(frames: Seq<([i32; 6], int)>, n: int, at: int)
    requires
        0 <= at <= frames.len(),
        forall|k: int| 0 <= k < at ==> (#[trigger] frames[k]).1 < n,
        forall|k: int| at <= k < frames.len() ==> (#[trigger] frames[k]).1 >= n,
    ensures
        frames_below(frames, n) == at,
    decreases frames.len(),
{
    if frames.len() > 0 {
        if frames.last().1 < n {
            assert(at == frames.len());
        } else {
            assert forall|k: int| 0 <= k < frames.drop_last().len() && k < at implies (#[trigger]
            frames.drop_last()[k]).1 < n by {
                assert(frames.drop_last()[k] == frames[k]);
            }
            assert forall|k: int|
                at <= k < frames.drop_last().len() implies (#[trigger] frames.drop_last()[k]).1
                >= n by {
                assert(frames.drop_last()[k] == frames[k]);
            }
            assert(at <= frames.drop_last().len());
            lemma_frames_below_is(frames.drop_last(), n, at);
        }
    }
}

/// The automation round trip: capture a session in which the control
/// values at each tick are `values`, then replay the captured keyframes in
/// replay mode from zeroed initial values; at every tick the replayed live
/// values equal the values that were captured at that tick, and nothing
/// changes at any other tick.
pub proof fn lemma_automation_round_trip(values: Seq<[i32; 6]>, t: int, init: [i32; 6])
    requires
        0 <= t < values.len(),
        init@ == zero_controls(),
    ensures
        run_input(capture_upto(values, values.len() as int), t + 1, init).1@ == values[t]@,
{
    let frames = capture_upto(values, values.len() as int);
    lemma_capture_ticks(values, values.len() as int);
    lemma_run_input(frames, t + 1, init);
    lemma_replay_captured(values, values.len() as int, t, init);
    assert(replay_at(frames, t, init)@ == values[t]@);
}

/// `capture_upto` reads only the ticks before `n`: any extension of the
/// values leaves the keyframes of those ticks as they were.
proof fn lemma_capture_prefix(values: Seq<[i32; 6]>, longer: Seq<[i32; 6]>, n: int)
    requires
        0 <= n <= values.len(),
        values.len() <= longer.len(),
        forall|t: int| 0 <= t < n ==> values[t] == longer[t],
    ensures
        capture_upto(longer, n) == capture_upto(values, n),
    decreases n,
{
    if n > 0 {
        lemma_capture_prefix(values, longer, n - 1);
    }
}

/// One capture tick, as `Session::tick` contracts it in capture mode,
/// moves the session from standing at `values` to standing at `values`
/// extended by the tick's catalog values: the executable capture loop
/// builds exactly the keyframes `capture_upto` describes.
pub proof fn lemma_capture_tick_corresponds(
    before: Session,
    after: Session,
    values: Seq<[i32; 6]>,
    catalog: [i32; 6],
)
    requires
        capturing_matches(before, values),
        values.len() < i32::MAX,
        after.mode == before.mode,
        after.frame == before.frame + 1,
        (before.previous_frame@ != catalog@ ==> after.snapshot.frames@
            == before.snapshot.frames@.push((catalog, before.frame as i32))
            && after.previous_frame == catalog),
        (before.previous_frame@ == catalog@ ==> after.snapshot == before.snapshot
            && after.previous_frame == before.previous_frame),
    ensures
        capturing_matches(after, values.push(catalog)),
{
    let extended = values.push(catalog);
    let n = values.len() as int;
    lemma_capture_prefix(values, extended, n);
    assert(capture_upto(extended, n) == capture_upto(values, n));
    assert(changed_at(extended, n) == (before.previous_frame@ != catalog@)) by {
        if n == 0 {
            assert(extended[0] == catalog);
        } else {
            assert(extended[n] == catalog);
            assert(extended[n - 1] == values.last());
        }
    }
    if before.previous_frame@ != catalog@ {
        assert(capture_upto(extended, n + 1) == capture_upto(extended, n).push((catalog, n)));
        assert(after.snapshot.frames@.drop_first() =~= before.snapshot.frames@.drop_first().push(
            (catalog, before.frame as i32),
        ));
        assert(frames_match(
            after.snapshot.frames@.drop_first(),
            capture_upto(extended, n + 1),
        ));
    } else {
        assert(capture_upto(extended, n + 1) == capture_upto(extended, n));
        assert(catalog@ == (if values.len() == 0 {
            zero_controls()
        } else {
            values.last()@
        }));
    }
    assert(extended.last() == catalog);
}

/// Whether a replay session stands exactly where `run_input` says it
/// should: the stored keyframes spell out `frames`, and after the ticks
/// counted so far the keyframe index and the published live values are
/// those of the iterated replay step.
pub open spec fn replaying_matches(
    session: Session,
    frames: Seq<([i32; 6], int)>,
    live: [i32; 6],
    init: [i32; 6],
) -> bool {
    &&& session.mode is Input
    &&& !session.capturing
    &&& session.wf()
    &&& frames_match(session.snapshot.frames@, frames)
    &&& session.edited_frame == run_input(frames, session.frame as int, init).0
    &&& live == run_input(frames, session.frame as int, init).1
}

/// One replay tick, as `Session::tick` contracts it in replay mode, keeps
/// the session standing where `run_input` says: the executable replay loop
/// publishes exactly the values the replay step describes, which by
/// `lemma_automation_round_trip` are the captured ones.
pub proof fn lemma_replay_tick_corresponds(
    before: Session,
    after: Session,
    frames: Seq<([i32; 6], int)>,
    live_before: [i32; 6],
    live_after: [i32; 6],
    init: [i32; 6],
)
    requires
        replaying_matches(before, frames, live_before, init),
        ticks_increasing(frames),
        forall|k: int| 0 <= k < frames.len() ==> (#[trigger] frames[k]).1 >= 0,
        before.frame < i32::MAX,
        after.frame == before.frame + 1,
        after.snapshot == before.snapshot,
        after.capturing == before.capturing,
        after.mode == before.mode,
        ({
            let stored = before.snapshot.frames@;
            let ef = before.edited_frame as int;
            let hit = ef < stored.len() && stored[ef].1 == before.frame as i32;
            &&& (hit ==> live_after == stored[ef].0)
            &&& (!hit ==> live_after == live_before)
        }),
        ({
            let stored = before.snapshot.frames@;
            let at = if before.edited_frame < stored.len() {
                before.edited_frame as int
            } else {
                before.edited_frame - 1
            };
            after.edited_frame == (if at < stored.len() && stored[at].1 == before.frame as i32 {
                before.edited_frame + 1
            } else {
                before.edited_frame as int
            })
        }),
    ensures
        replaying_matches(after, frames, live_after, init),
{
    let t = before.frame as int;
    let ef = before.edited_frame as int;
    let stored = before.snapshot.frames@;
    lemma_run_input(frames, t, init);
    lemma_frames_below(frames, t);
    assert(ef == frames_below(frames, t));
    assert(run_input(frames, t + 1, init) == input_step(frames, ef, t, live_before));
    if ef < frames.len() {
        assert(stored[ef].1 as int == frames[ef].1);
        if frames[ef].1 == t {
            assert(stored[ef].1 == before.frame as i32);
            assert(live_after == stored[ef].0);
            assert(stored[ef].0 == frames[ef].0);
            assert(after.edited_frame == ef + 1);
        } else {
            assert(stored[ef].1 != before.frame as i32);
            assert(live_after == live_before);
            assert(after.edited_frame == ef);
        }
    } else {
        assert(ef == frames.len());
        assert(frames.len() > 0);
        assert(frames[ef - 1].1 < t);
        assert(stored[ef - 1].1 as int == frames[ef - 1].1);
        assert(stored[ef - 1].1 != before.frame as i32);
        assert(live_after == live_before);
        assert(after.edited_frame == ef);
    }
}

} // verus!
