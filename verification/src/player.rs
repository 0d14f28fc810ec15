//! The player worker's decisions: the message protocol, the playback
//! session state machine, the per-tick automation logic in its three
//! mutually exclusive modes, and the gain mapping for the six effect slots.
//! The audio transport itself stays with the caller, which runs the tick
//! loop, polls for messages, and hands every decision to the functions
//! here.

use vstd::prelude::*;
use crate::catalog::zero_controls;
use crate::errors::Error;
use crate::snapshot::{store_unchanged, SnapShot, SnapshotStore};
use crate::tracker::Slot;

verus! {

/// A playback request: which mode to play in, carrying the automation
/// snapshot the mode works on.
pub enum Playback {
    /// Replay captured automation.
    Input(SnapShot),
    /// Capture automation while playing.
    Capture(SnapShot),
    /// Play with the catalog's current control values.
    Generic(SnapShot),
}

/// A command message to one of the two workers.
pub enum Message {
    /// Load the clip at this path.
    File(String),
    /// Start playing, in the given mode, the recording at the given index.
    PlayAudio((Playback, usize)),
    StopAudio,
    StartRecording,
    StopRecording,
}

/// The mode a playback session is currently in: exactly one at any tick.
pub enum Mode {
    Generic,
    Input,
    Capture,
}

/// One playback session: the state the tick loop carries from one tick to
/// the next.
pub struct Session {
    /// The mode in effect. A mode switch message replaces this, and takes
    /// effect on the tick after the switch is observed.
    pub mode: Mode,
    /// The working snapshot: the replay source, or the capture buffer with
    /// its seed frame first.
    pub snapshot: SnapShot,
    /// The tick counter: the automation time base.
    pub frame: usize,
    /// The index of the next keyframe to apply or advance past.
    pub edited_frame: usize,
    /// The most recently captured control values.
    pub previous_frame: [i32; 6],
    /// Whether this session was started to capture automation; its capture
    /// buffer is persisted when it ends.
    pub capturing: bool,
}

/// What one tick tells the caller to do with the six effect slots.
pub enum TickAction {
    /// Push these control values into the slots.
    Apply([i32; 6]),
    /// Leave the slots as they are: values hold between keyframes.
    Hold,
}

/// What polling the queue tells the caller to do with the session.
pub enum PollOutcome {
    /// Keep ticking.
    Proceed,
    /// End the session and wait for the next command.
    Stopped,
    /// End the session and load the clip at this path.
    LoadRequested(String),
}

/// What ending a session does to the snapshot store: a capturing session
/// persists its buffer under the clip's base name, the seed frame stripped;
/// any other session leaves the store untouched.
pub open spec fn session_end_effect(
    was: Session,
    store0: SnapshotStore,
    store1: SnapshotStore,
    name: Seq<char>,
) -> bool {
    if was.capturing {
        &&& store1.contains_name(name)
        &&& store1.spec_get(name) == was.snapshot.frames@.drop_first()
        &&& forall|other: Seq<char>| other != name ==> store_unchanged(store0, store1, other)
    } else {
        store1 == store0
    }
}

impl Session {
    /// A session's working snapshot always holds at least one frame: a
    /// capture buffer starts with its seed frame, and a replay source with
    /// no frames at all cannot drive the tick loop.
    pub open spec fn wf(self) -> bool {
        self.snapshot.frames@.len() > 0
    }

    /// Starts a session from a playback request: the request's mode and
    /// snapshot, the tick counter at zero, and nothing captured yet.
    pub fn start(playback: Playback) -> (r: Session)
        requires
            (match playback {
                Playback::Input(s) => s.frames@.len() > 0,
                Playback::Capture(s) => s.frames@.len() > 0,
                Playback::Generic(s) => s.frames@.len() > 0,
            }),
        ensures
            r.wf(),
            r.frame == 0,
            r.edited_frame == 0,
            r.previous_frame@ == zero_controls(),
            (match playback {
                Playback::Input(s) => r.mode is Input && !r.capturing && r.snapshot == s,
                Playback::Capture(s) => r.mode is Capture && r.capturing && r.snapshot == s,
                Playback::Generic(s) => r.mode is Generic && !r.capturing && r.snapshot == s,
            }),
    {
        let r = match playback {
            Playback::Input(s) => Session {
                mode: Mode::Input,
                snapshot: s,
                frame: 0,
                edited_frame: 0,
                previous_frame: [0, 0, 0, 0, 0, 0],
                capturing: false,
            },
            Playback::Capture(s) => Session {
                mode: Mode::Capture,
                snapshot: s,
                frame: 0,
                edited_frame: 0,
                previous_frame: [0, 0, 0, 0, 0, 0],
                capturing: true,
            },
            Playback::Generic(s) => Session {
                mode: Mode::Generic,
                snapshot: s,
                frame: 0,
                edited_frame: 0,
                previous_frame: [0, 0, 0, 0, 0, 0],
                capturing: false,
            },
        };
        proof {
            assert(r.previous_frame@ =~= zero_controls());
        }
        r
    }

    /// One tick of the loop, in the mode the session entered the tick with.
    /// Replay applies a keyframe exactly when the next keyframe's tick
    /// equals the tick counter, and publishes it to the live cell; ticks
    /// between keyframes hold. Capture compares the catalog's values to the
    /// previously captured ones and appends a keyframe exactly when they
    /// differ. Generic play applies the catalog's values every tick. A
    /// session not begun as capture also keeps the keyframe index in step,
    /// so a hot swap into replay stays aligned.
    pub fn tick(&mut self, catalog: [i32; 6], live: &mut Slot<[i32; 6]>) -> (r: TickAction)
        requires
            old(self).wf(),
            old(self).frame < usize::MAX,
            old(self).frame <= i32::MAX,
            old(self).edited_frame < usize::MAX,
        ensures
            final(self).wf(),
            final(self).frame == old(self).frame + 1,
            final(self).mode == old(self).mode,
            final(self).capturing == old(self).capturing,
            (match old(self).mode {
                Mode::Input => {
                    let frames = old(self).snapshot.frames@;
                    let ef = old(self).edited_frame as int;
                    let hit = ef < frames.len() && frames[ef].1 == old(self).frame as i32;
                    &&& final(self).snapshot == old(self).snapshot
                    &&& final(self).previous_frame == old(self).previous_frame
                    &&& (hit ==> r == TickAction::Apply(frames[ef].0) && final(live).value
                        == frames[ef].0)
                    &&& (!hit ==> r is Hold && *final(live) == *old(live))
                },
                Mode::Generic => {
                    &&& final(self).snapshot == old(self).snapshot
                    &&& final(self).previous_frame == old(self).previous_frame
                    &&& r == TickAction::Apply(catalog)
                    &&& *final(live) == *old(live)
                },
                Mode::Capture => {
                    let edited = old(self).previous_frame@ != catalog@;
                    let pushed = old(self).snapshot.frames@.push(
                        (catalog, old(self).frame as i32),
                    );
                    &&& r == TickAction::Apply(catalog)
                    &&& *final(live) == *old(live)
                    &&& (edited ==> final(self).snapshot.frames@ == pushed
                        && final(self).previous_frame == catalog
                        && final(self).edited_frame == old(self).edited_frame + 1)
                    &&& (!edited ==> final(self).snapshot == old(self).snapshot
                        && final(self).previous_frame == old(self).previous_frame
                        && final(self).edited_frame == old(self).edited_frame)
                },
            }),
            (!(old(self).mode is Capture) && !old(self).capturing ==> {
                let frames = old(self).snapshot.frames@;
                let at = if old(self).edited_frame < frames.len() {
                    old(self).edited_frame as int
                } else {
                    old(self).edited_frame - 1
                };
                final(self).edited_frame == (if at < frames.len() && frames[at].1 == old(
                    self,
                ).frame as i32 {
                    old(self).edited_frame + 1
                } else {
                    old(self).edited_frame as int
                })
            }),
            (!(old(self).mode is Capture) && old(self).capturing ==> final(self).edited_frame
                == old(self).edited_frame),
    {
        let action: TickAction;
        match self.mode {
            Mode::Input => {
                if self.edited_frame < self.snapshot.frames.len() && self.snapshot.frames[
                    self.edited_frame
                ].1 == self.frame as i32 {
                    let values = self.snapshot.frames[self.edited_frame].0;
                    crate::tracker::Tracker::write(live, values);
                    action = TickAction::Apply(values);
                } else {
                    action = TickAction::Hold;
                }
            },
            Mode::Capture => {
                if SnapShot::edited(self.previous_frame, catalog) {
                    self.snapshot.frames.push((catalog, self.frame as i32));
                    self.previous_frame = catalog;
                    self.edited_frame = self.edited_frame + 1;
                }
                action = TickAction::Apply(catalog);
            },
            Mode::Generic => {
                action = TickAction::Apply(catalog);
            },
        }
        if !matches!(self.mode, Mode::Capture) && !self.capturing {
            let at = if self.edited_frame < self.snapshot.frames.len() {
                self.edited_frame
            } else {
                self.edited_frame - 1
            };
            if at < self.snapshot.frames.len() && self.snapshot.frames[at].1 == self.frame
                as i32 {
                self.edited_frame = self.edited_frame + 1;
            }
        }
        self.frame = self.frame + 1;
        action
    }

    /// Handles at most one polled message mid-playback. A stop request, a
    /// load request, and a fresh capture request all end the session,
    /// persisting the capture buffer first when this session captures; any
    /// other playback request hot-swaps the mode without restarting the
    /// transport, a swap into replay also publishing the aligned keyframe;
    /// recorder messages are ignored.
    pub fn poll(
        &mut self,
        message: Option<Message>,
        live: &mut Slot<[i32; 6]>,
        store: &mut SnapshotStore,
        clip_name: &str,
    ) -> (r: PollOutcome)
        requires
            old(self).wf(),
            old(store).wf(),
            (match message {
                Some(Message::PlayAudio((Playback::Input(p), _))) => p.frames@.len() > 0,
                _ => true,
            }),
        ensures
            final(store).wf(),
            final(self).frame == old(self).frame,
            final(self).capturing == old(self).capturing,
            (match message {
                None | Some(Message::StartRecording) | Some(Message::StopRecording) => {
                    &&& r is Proceed
                    &&& *final(self) == *old(self)
                    &&& *final(live) == *old(live)
                    &&& *final(store) == *old(store)
                },
                Some(Message::StopAudio) => {
                    &&& r is Stopped
                    &&& *final(live) == *old(live)
                    &&& session_end_effect(*old(self), *old(store), *final(store), clip_name@)
                },
                Some(Message::File(path)) => {
                    &&& r == PollOutcome::LoadRequested(path)
                    &&& *final(live) == *old(live)
                    &&& session_end_effect(*old(self), *old(store), *final(store), clip_name@)
                },
                Some(Message::PlayAudio((Playback::Capture(_), _))) => {
                    &&& r is Stopped
                    &&& *final(live) == *old(live)
                    &&& session_end_effect(*old(self), *old(store), *final(store), clip_name@)
                },
                Some(Message::PlayAudio((Playback::Generic(_), _))) => {
                    &&& r is Proceed
                    &&& final(self).mode is Generic
                    &&& final(self).snapshot == old(self).snapshot
                    &&& final(self).edited_frame == old(self).edited_frame
                    &&& final(self).previous_frame == old(self).previous_frame
                    &&& final(self).wf()
                    &&& *final(live) == *old(live)
                    &&& *final(store) == *old(store)
                },
                Some(Message::PlayAudio((Playback::Input(p), _))) => {
                    &&& r is Proceed
                    &&& final(self).mode is Input
                    &&& final(self).snapshot == p
                    &&& final(self).edited_frame == old(self).edited_frame
                    &&& final(self).previous_frame == old(self).previous_frame
                    &&& final(self).wf()
                    &&& *final(store) == *old(store)
                    &&& (old(self).edited_frame < p.frames@.len() ==> final(live).value
                        == p.frames@[old(self).edited_frame as int].0)
                    &&& (old(self).edited_frame >= p.frames@.len() ==> *final(live) == *old(live))
                },
            }),
    {
        match message {
            None => PollOutcome::Proceed,
            Some(Message::StartRecording) => PollOutcome::Proceed,
            Some(Message::StopRecording) => PollOutcome::Proceed,
            Some(Message::StopAudio) => {
                self.persist_if_capturing(store, clip_name);
                PollOutcome::Stopped
            },
            Some(Message::File(path)) => {
                self.persist_if_capturing(store, clip_name);
                PollOutcome::LoadRequested(path)
            },
            Some(Message::PlayAudio((Playback::Capture(_), _))) => {
                self.persist_if_capturing(store, clip_name);
                PollOutcome::Stopped
            },
            Some(Message::PlayAudio((Playback::Generic(_), _))) => {
                self.mode = Mode::Generic;
                PollOutcome::Proceed
            },
            Some(Message::PlayAudio((Playback::Input(p), _))) => {
                self.mode = Mode::Input;
                self.snapshot = p;
                if self.edited_frame < self.snapshot.frames.len() {
                    crate::tracker::Tracker::write(
                        live,
                        self.snapshot.frames[self.edited_frame].0,
                    );
                }
                PollOutcome::Proceed
            },
        }
    }


    /// Persists the capture buffer, seed stripped, when this session
    /// captures.
    fn persist_if_capturing(&mut self, store: &mut SnapshotStore, clip_name: &str)
        requires
            old(self).wf(),
            old(store).wf(),
        ensures
            final(store).wf(),
            final(self).frame == old(self).frame,
            final(self).capturing == old(self).capturing,
            session_end_effect(*old(self), *old(store), *final(store), clip_name@),
    {
        if self.capturing {
            let ghost frames0 = self.snapshot.frames@;
            let _ = self.snapshot.frames.remove(0);
            proof {
                assert(self.snapshot.frames@ =~= frames0.drop_first());
            }
            let mut frames: Vec<([i32; 6], i32)> = Vec::new();
            core::mem::swap(&mut frames, &mut self.snapshot.frames);
            let stripped = SnapShot { frames };
            let _ = stripped.save(store, clip_name);
        }
    }

    /// Natural completion of the tick loop: the finished flag is raised for
    /// the control layer whatever the mode, and a capturing session
    /// persists its buffer, seed stripped, under the clip's base name.
    pub fn finish(self, playing: &mut Slot<bool>, store: &mut SnapshotStore, clip_name: &str)
        requires
            self.wf(),
            old(store).wf(),
        ensures
            final(playing).value,
            final(store).wf(),
            session_end_effect(self, *old(store), *final(store), clip_name@),
    {
        crate::tracker::Tracker::write(playing, true);
        let mut session = self;
        session.persist_if_capturing(store, clip_name);
    }
}

/// What the player does with a message that arrives while no file is
/// loaded.
pub enum IdleOutcome {
    /// Load the clip at this path.
    Load(String),
    /// Report a protocol error and keep waiting.
    Rejected(Error),
}

/// What the player does with a message that arrives while a file is loaded
/// but nothing plays.
pub enum LoadedOutcome {
    /// Load the clip at this path instead.
    Load(String),
    /// Start a playback session.
    Play(Playback, usize),
    /// Stay loaded, waiting to play again.
    Wait,
    /// Report a protocol error and stay loaded.
    Rejected(Error),
}

/// One step of the player protocol while no file is loaded: only a load
/// message is expected; anything else is a protocol error.
pub fn player_idle_step(message: Message) -> (r: IdleOutcome)
    ensures
        (match message {
            Message::File(path) => r == IdleOutcome::Load(path),
            _ => r == IdleOutcome::Rejected(Error::MessageError),
        }),
{
    match message {
        Message::File(path) => IdleOutcome::Load(path),
        _ => IdleOutcome::Rejected(Error::MessageError),
    }
}

/// One step of the player protocol while a file is loaded: a load message
/// restarts with the new clip, a play message starts a session, a stop
/// message leaves the player waiting to play again, and anything else is a
/// protocol error.
pub fn player_loaded_step(message: Message) -> (r: LoadedOutcome)
    ensures
        (match message {
            Message::File(path) => r == LoadedOutcome::Load(path),
            Message::PlayAudio((playback, index)) => r == LoadedOutcome::Play(playback, index),
            Message::StopAudio => r is Wait,
            _ => r == LoadedOutcome::Rejected(Error::MessageError),
        }),
{
    match message {
        Message::File(path) => LoadedOutcome::Load(path),
        Message::PlayAudio((playback, index)) => LoadedOutcome::Play(playback, index),
        Message::StopAudio => LoadedOutcome::Wait,
        _ => LoadedOutcome::Rejected(Error::MessageError),
    }
}

/// The fixed gain mapping of the five band slots: the sentinel -7 silences
/// the band outright, and any other dial value is scaled by four into
/// decibels.
pub open spec fn spec_gain(value: int) -> int {
    if value == -7 {
        -60
    } else {
        value * 4
    }
}

/// The effective gain, in decibels, of one band slot.
pub fn effective_gain(value: i32) -> (r: i32)
    requires
        -536870912 <= value <= 536870911,
    ensures
        r as int == spec_gain(value as int),
{
    if value == -7 {
        -60
    } else {
        value * 4
    }
}

/// The effective pan of the pan slot, in hundredths: the dial value scaled
/// by the fixed factor of fifteen hundredths.
pub fn effective_pan_centi(value: i32) -> (r: i32)
    requires
        -100000000 <= value <= 100000000,
    ensures
        r as int == 15 * (value as int),
{
    value * 15
}

/// At any tick, exactly one of the three playback modes is active in a
/// session: the mode is one value, and a switch observed while playing
/// replaces it for the following tick rather than adding to it.
pub proof fn lemma_mode_exclusive(session: Session)
    ensures
        session.mode is Generic ==> !(session.mode is Input) && !(session.mode is Capture),
        session.mode is Input ==> !(session.mode is Generic) && !(session.mode is Capture),
        session.mode is Capture ==> !(session.mode is Generic) && !(session.mode is Input),
{
}

} // verus!
