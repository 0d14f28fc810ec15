//! The recorder worker's decisions: naming a new clip, trimming leading
//! silence from the captured buffers, and the two-state message protocol.
//! The microphone stream and the file writer stay with the caller; the
//! functions here turn what they produce into what gets written.

use vstd::prelude::*;
use crate::errors::Error;
use crate::text::{contains_seq, contains_substr, str_eq};

verus! {

/// The marker that fallback names carry.
pub open spec fn fallback_marker() -> Seq<char> {
    "Default taken..."@
}

/// The character of one decimal digit.
pub open spec fn digit_char(d: nat) -> char {
    if d == 0 {
        '0'
    } else if d == 1 {
        '1'
    } else if d == 2 {
        '2'
    } else if d == 3 {
        '3'
    } else if d == 4 {
        '4'
    } else if d == 5 {
        '5'
    } else if d == 6 {
        '6'
    } else if d == 7 {
        '7'
    } else if d == 8 {
        '8'
    } else {
        '9'
    }
}

/// The decimal rendering of a number, most significant digit first.
pub open spec fn dec_str(n: nat) -> Seq<char>
    decreases n,
{
    if n < 10 {
        seq![digit_char(n)]
    } else {
        dec_str(n / 10) + seq![digit_char(n % 10)]
    }
}

/// The string of one decimal digit.
fn digit_str(d: usize) -> (r: &'static str)
    requires
        d < 10,
    ensures
        r@ == seq![digit_char(d as nat)],
{
    if d == 0 {
        let r = "0";
        proof {
            reveal_strlit("0");
            assert(r@ =~= seq![digit_char(0)]);
        }
        r
    } else if d == 1 {
        let r = "1";
        proof {
            reveal_strlit("1");
            assert(r@ =~= seq![digit_char(1)]);
        }
        r
    } else if d == 2 {
        let r = "2";
        proof {
            reveal_strlit("2");
            assert(r@ =~= seq![digit_char(2)]);
        }
        r
    } else if d == 3 {
        let r = "3";
        proof {
            reveal_strlit("3");
            assert(r@ =~= seq![digit_char(3)]);
        }
        r
    } else if d == 4 {
        let r = "4";
        proof {
            reveal_strlit("4");
            assert(r@ =~= seq![digit_char(4)]);
        }
        r
    } else if d == 5 {
        let r = "5";
        proof {
            reveal_strlit("5");
            assert(r@ =~= seq![digit_char(5)]);
        }
        r
    } else if d == 6 {
        let r = "6";
        proof {
            reveal_strlit("6");
            assert(r@ =~= seq![digit_char(6)]);
        }
        r
    } else if d == 7 {
        let r = "7";
        proof {
            reveal_strlit("7");
            assert(r@ =~= seq![digit_char(7)]);
        }
        r
    } else if d == 8 {
        let r = "8";
        proof {
            reveal_strlit("8");
            assert(r@ =~= seq![digit_char(8)]);
        }
        r
    } else {
        let r = "9";
        proof {
            reveal_strlit("9");
            assert(r@ =~= seq![digit_char(9)]);
        }
        r
    }
}

/// Renders a number in decimal.
pub fn usize_to_dec(n: usize) -> (r: String)
    ensures
        r@ == dec_str(n as nat),
    decreases n,
{
    if n < 10 {
        String::from_str(digit_str(n))
    } else {
        let mut s = usize_to_dec(n / 10);
        s.append(digit_str(n % 10));
        s
    }
}

/// The name a new recording gets, given the base names already taken: with
/// no clip on disk it is the first recording; otherwise the next number in
/// sequence, unless that name is already taken, in which case a fallback
/// name numbered by how many fallback names exist.
pub open spec fn generated_name(taken: Seq<String>) -> Seq<char> {
    let potential = "Recording "@ + dec_str((taken.len() + 1) as nat);
    if taken.len() == 0 {
        "Recording 1.wav"@
    } else if exists|i: int| 0 <= i < taken.len() && taken[i]@ == potential {
        "Default taken... "@ + dec_str((count_fallbacks(taken, taken.len() as int) + 1) as nat)
            + ".wav"@
    } else {
        potential + ".wav"@
    }
}

/// How many of the first `upto` taken names hold the fallback marker.
pub open spec fn count_fallbacks(taken: Seq<String>, upto: int) -> nat
    decreases upto,
{
    if upto <= 0 {
        0
    } else {
        count_fallbacks(taken, upto - 1) + if contains_seq(taken[upto - 1]@, fallback_marker()) {
            1nat
        } else {
            0nat
        }
    }
}

/// Picks the file name for a new recording. See `generated_name` for the
/// rule.
pub fn generate_name(taken: &Vec<String>) -> (r: String)
    requires
        taken@.len() < usize::MAX,
    ensures
        r@ == generated_name(taken@),
{
    let mut fallbacks: usize = 0;
    let mut name: usize = 0;
    while name < taken.len()
        invariant
            taken@.len() < usize::MAX,
            name <= taken@.len(),
            fallbacks as nat == count_fallbacks(taken@, name as int),
            fallbacks <= name,
        decreases taken@.len() - name,
    {
        if contains_substr(taken[name].as_str(), "Default taken...") {
            fallbacks += 1;
        }
        name += 1;
    }
    let recording_amount = taken.len();
    if recording_amount == 0 {
        let r = String::from_str("Recording 1.wav");
        proof {
            assert(r@ == generated_name(taken@));
        }
        return r;
    }
    let num = usize_to_dec(recording_amount + 1);
    let mut potential = String::from_str("Recording ");
    potential.append(num.as_str());
    let mut item: usize = 0;
    let mut taken_already = false;
    while item < recording_amount
        invariant
            recording_amount == taken@.len(),
            0 < recording_amount < usize::MAX,
            fallbacks as nat == count_fallbacks(taken@, taken@.len() as int),
            fallbacks <= recording_amount,
            potential@ == "Recording "@ + dec_str((taken@.len() + 1) as nat),
            item <= recording_amount,
            !taken_already,
            forall|i: int| 0 <= i < item ==> taken@[i]@ != potential@,
        decreases recording_amount - item,
    {
        if str_eq(potential.as_str(), taken[item].as_str()) {
            taken_already = true;
            let fb = usize_to_dec(fallbacks + 1);
            let mut r = String::from_str("Default taken... ");
            r.append(fb.as_str());
            r.append(".wav");
            return r;
        }
        item += 1;
    }
    potential.append(".wav");
    potential
}

/// Whether a sample's 32 bits are one of the two encodings of zero: the
/// samples a silent channel produces.
pub open spec fn is_zero_bits(s: u32) -> bool {
    s == 0 || s == 0x8000_0000
}

/// Whether both channels are silent at every position before `upto`.
pub open spec fn all_silent(ch1: Seq<u32>, ch2: Seq<u32>, upto: int) -> bool {
    forall|i: int| 0 <= i < upto ==> is_zero_bits(#[trigger] ch1[i]) && is_zero_bits(ch2[i])
}

/// The first position before `upto` where either channel has sound, or
/// `upto` when both stay silent.
pub open spec fn first_sound(ch1: Seq<u32>, ch2: Seq<u32>, upto: int) -> int
    decreases upto,
{
    if upto <= 0 {
        0
    } else if first_sound(ch1, ch2, upto - 1) < upto - 1 {
        first_sound(ch1, ch2, upto - 1)
    } else if is_zero_bits(ch1[upto - 1]) && is_zero_bits(ch2[upto - 1]) {
        upto
    } else {
        upto - 1
    }
}

/// The two channels interleaved one sample each, over the given range.
pub open spec fn interleaved(ch1: Seq<u32>, ch2: Seq<u32>, from: int, to: int) -> Seq<u32>
    decreases to - from,
{
    if from >= to {
        Seq::empty()
    } else {
        seq![ch1[from], ch2[from]] + interleaved(ch1, ch2, from + 1, to)
    }
}

/// Interleaving one more position appends that position's two samples.
proof fn lemma_interleaved_snoc(ch1: Seq<u32>, ch2: Seq<u32>, from: int, to: int)
    requires
        from <= to,
    ensures
        interleaved(ch1, ch2, from, to + 1) == interleaved(ch1, ch2, from, to) + seq![
            ch1[to],
            ch2[to],
        ],
    decreases to - from,
{
    if from == to {
        assert(interleaved(ch1, ch2, to + 1, to + 1) =~= Seq::<u32>::empty());
        assert(interleaved(ch1, ch2, to, to + 1) =~= seq![ch1[to], ch2[to]]);
        assert(interleaved(ch1, ch2, from, to) =~= Seq::<u32>::empty());
        assert(interleaved(ch1, ch2, from, to) + seq![ch1[to], ch2[to]] =~= seq![
            ch1[to],
            ch2[to],
        ]);
    } else {
        lemma_interleaved_snoc(ch1, ch2, from + 1, to);
        assert(interleaved(ch1, ch2, from, to + 1) =~= interleaved(ch1, ch2, from, to) + seq![
            ch1[to],
            ch2[to],
        ]);
    }
}

/// `first_sound` never lies past the range, and where it lies inside it,
/// one of the channels is audible there.
proof fn lemma_first_sound_props(ch1: Seq<u32>, ch2: Seq<u32>, upto: int)
    requires
        upto >= 0,
    ensures
        0 <= first_sound(ch1, ch2, upto) <= upto,
        first_sound(ch1, ch2, upto) < upto ==> !(is_zero_bits(ch1[first_sound(ch1, ch2, upto)])
            && is_zero_bits(ch2[first_sound(ch1, ch2, upto)])),
    decreases upto,
{
    if upto > 0 {
        lemma_first_sound_props(ch1, ch2, upto - 1);
    }
}

/// One captured buffer processed: while the recording is still silent,
/// samples up to and including the first audible one are discarded; from
/// the sample after it on, both channels are interleaved for writing. The
/// flag comes back true exactly when the recording stays silent: every
/// sample of every buffer so far was an encoding of zero.
pub fn process_buffer(ch1: &Vec<u32>, ch2: &Vec<u32>, silent: bool) -> (r: (Vec<u32>, bool))
    ensures
        ({
            let m = min_len(ch1@, ch2@);
            &&& r.1 == (silent && all_silent(ch1@, ch2@, m))
            &&& r.0@ == (if silent {
                interleaved(ch1@, ch2@, first_sound(ch1@, ch2@, m) + 1, m)
            } else {
                interleaved(ch1@, ch2@, 0, m)
            })
        }),
{
    let m = if ch1.len() > ch2.len() {
        ch2.len()
    } else {
        ch1.len()
    };
    let mut out: Vec<u32> = Vec::new();
    let mut still = silent;
    let mut sample: usize = 0;
    while sample < m
        invariant
            m == min_len(ch1@, ch2@),
            sample <= m,
            still == (silent && all_silent(ch1@, ch2@, sample as int)),
            (silent && still) ==> first_sound(ch1@, ch2@, sample as int) == sample && out@
                =~= Seq::<u32>::empty(),
            (silent && !still) ==> first_sound(ch1@, ch2@, sample as int) < sample && out@
                == interleaved(
                ch1@,
                ch2@,
                first_sound(ch1@, ch2@, sample as int) + 1,
                sample as int,
            ),
            !silent ==> out@ == interleaved(ch1@, ch2@, 0, sample as int),
        decreases m - sample,
    {
        let a = ch1[sample];
        let b = ch2[sample];
        let zero = (a == 0 || a == 0x8000_0000) && (b == 0 || b == 0x8000_0000);
        let ghost fs = first_sound(ch1@, ch2@, sample as int);
        if still {
            if !zero {
                still = false;
            }
            proof {
                assert(first_sound(ch1@, ch2@, sample + 1) == (if zero {
                    sample + 1
                } else {
                    sample as int
                }));
                assert(interleaved(ch1@, ch2@, sample + 1, sample + 1) =~= Seq::<u32>::empty());
                assert(all_silent(ch1@, ch2@, sample + 1) == zero) by {
                    if zero {
                        assert forall|i: int| 0 <= i < sample + 1 implies is_zero_bits(
                            #[trigger] ch1@[i],
                        ) && is_zero_bits(ch2@[i]) by {}
                    } else {
                        assert(!(is_zero_bits(ch1@[sample as int]) && is_zero_bits(
                            ch2@[sample as int],
                        )));
                    }
                }
            }
        } else {
            out.push(a);
            out.push(b);
            proof {
                let from: int = if silent {
                    fs + 1
                } else {
                    0
                };
                lemma_interleaved_snoc(ch1@, ch2@, from, sample as int);
                assert(out@ =~= interleaved(ch1@, ch2@, from, sample as int) + seq![a, b]);
                if silent {
                    assert(first_sound(ch1@, ch2@, sample + 1) == fs);
                    lemma_first_sound_props(ch1@, ch2@, sample as int);
                    assert(!all_silent(ch1@, ch2@, sample + 1)) by {
                        if all_silent(ch1@, ch2@, sample + 1) {
                            assert(is_zero_bits(ch1@[fs]) && is_zero_bits(ch2@[fs]));
                        }
                    }
                }
            }
        }
        sample += 1;
    }
    (out, still)
}

/// The shorter of the two channel lengths: the samples beyond it have no
/// partner and are not written.
pub open spec fn min_len(ch1: Seq<u32>, ch2: Seq<u32>) -> int {
    if ch1.len() > ch2.len() {
        ch2.len() as int
    } else {
        ch1.len() as int
    }
}

/// The recorder worker's two states: waiting for a recording to start, and
/// capturing until it is told to stop.
pub enum RecorderPhase {
    Waiting,
    Capturing,
}

/// One step of the recorder protocol: in each phase exactly one message is
/// expected, and any other is answered with a protocol error while the
/// phase stays put.
pub fn recorder_step(phase: RecorderPhase, message: &crate::player::Message) -> (r: (
    RecorderPhase,
    Option<Error>,
))
    ensures
        match phase {
            RecorderPhase::Waiting => {
                if message is StartRecording {
                    r == (RecorderPhase::Capturing, None::<Error>)
                } else {
                    r == (RecorderPhase::Waiting, Some(Error::MessageError))
                }
            },
            RecorderPhase::Capturing => {
                if message is StopRecording {
                    r == (RecorderPhase::Waiting, None::<Error>)
                } else {
                    r == (RecorderPhase::Capturing, Some(Error::MessageError))
                }
            },
        },
{
    match phase {
        RecorderPhase::Waiting => {
            if matches!(message, crate::player::Message::StartRecording) {
                (RecorderPhase::Capturing, None)
            } else {
                (RecorderPhase::Waiting, Some(Error::MessageError))
            }
        },
        RecorderPhase::Capturing => {
            if matches!(message, crate::player::Message::StopRecording) {
                (RecorderPhase::Waiting, None)
            } else {
                (RecorderPhase::Capturing, Some(Error::MessageError))
            }
        },
    }
}

} // verus!

