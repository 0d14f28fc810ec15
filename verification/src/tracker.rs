//! The shared engine state: one slot per field, written and read
//! independently, with no transaction spanning two slots. The control layer
//! and the two workers each hold their own synchronized handle to these
//! slots; the library describes what one read or one write does to a slot.

use vstd::prelude::*;
use crate::catalog::{Recording, Settings};

verus! {

/// One independently guarded cell of the shared engine state.
pub struct Slot<T> {
    pub value: T,
}

/// The process-wide engine state: the settings catalog, the frozen copy of
/// one recording's controls used while the editing lock is held, and the
/// flags and live values the control layer polls once per tick.
pub struct Tracker {
    pub settings: Slot<Settings>,
    /// Controls held while the UI is in locked editing mode.
    pub locked: Slot<Recording>,
    /// Whether a playback session just finished.
    pub playing: Slot<bool>,
    /// The control values of the currently active automation frame.
    pub snapshot_frame_values: Slot<[i32; 6]>,
    /// Whether the newest recording holds no audible audio.
    pub empty_recording: Slot<bool>,
    /// Whether a recording is in progress or just happened.
    pub recording_check: Slot<bool>,
    /// Whether audio data is already loaded for the next skip.
    pub preloaded: Slot<bool>,
}

impl Tracker {
    /// A fresh tracker around a loaded catalog: nothing playing, nothing
    /// preloaded, the lock copy empty, and the empty-recording flag raised.
    pub fn new(settings: Settings) -> (r: Tracker)
        ensures
            r.settings.value == settings,
            r.locked.value.name@ == Seq::<char>::empty(),
            r.locked.value.controls() == seq![0i32, 0i32, 0i32, 0i32, 0i32, 0i32],
            !r.playing.value,
            r.snapshot_frame_values.value@ == seq![0i32, 0i32, 0i32, 0i32, 0i32, 0i32],
            r.empty_recording.value,
            !r.recording_check.value,
            !r.preloaded.value,
    {
        Tracker {
            settings: Slot { value: settings },
            locked: Slot { value: Recording::new(&String::new()) },
            playing: Slot { value: false },
            snapshot_frame_values: Slot { value: [0, 0, 0, 0, 0, 0] },
            empty_recording: Slot { value: true },
            recording_check: Slot { value: false },
            preloaded: Slot { value: false },
        }
    }

    /// Replaces the value held by a slot.
    pub fn write<T>(handle: &mut Slot<T>, set: T)
        ensures
            final(handle).value == set,
    {
        handle.value = set;
    }

    /// Returns the value a slot holds.
    pub fn read<T: Copy>(handle: &Slot<T>) -> (r: T)
        ensures
            r == handle.value,
    {
        handle.value
    }
}

} // verus!
