use clipdeck::errors::Error;
use clipdeck::player::{
    effective_gain, effective_pan_centi, player_idle_step, player_loaded_step, IdleOutcome,
    LoadedOutcome, Message, Mode, Playback, PollOutcome, Session, TickAction,
};
use clipdeck::recorder::{generate_name, process_buffer, recorder_step, RecorderPhase, usize_to_dec};
use clipdeck::snapshot::{SnapShot, SnapshotStore};
use clipdeck::tracker::Slot;

fn names(list: &[&str]) -> Vec<String> {
    list.iter().map(|s| s.to_string()).collect()
}

#[test]
fn decimal_rendering() {
    assert_eq!(usize_to_dec(0), "0");
    assert_eq!(usize_to_dec(7), "7");
    assert_eq!(usize_to_dec(10), "10");
    assert_eq!(usize_to_dec(90210), "90210");
}

#[test]
fn first_recording_gets_fixed_name() {
    assert_eq!(generate_name(&Vec::new()), "Recording 1.wav");
}

#[test]
fn next_name_counts_existing_clips() {
    assert_eq!(
        generate_name(&names(&["Recording 1", "Recording 2"])),
        "Recording 3.wav"
    );
}

#[test]
fn collision_falls_back_to_default_taken() {
    // Two clips exist, so the candidate is "Recording 3" — but that name is
    // already taken as a non-sequential artifact. No fallback name exists
    // yet, so the count is zero and the new name is numbered one.
    assert_eq!(
        generate_name(&names(&["Recording 3", "Something else"])),
        "Default taken... 1.wav"
    );
    // With an existing fallback name the next one is numbered two.
    assert_eq!(
        generate_name(&names(&["Recording 3", "Default taken... 1"])),
        "Default taken... 2.wav"
    );
}

#[test]
fn silence_is_trimmed_up_to_first_audible_sample() {
    let one = 1.0f32.to_bits();
    let two = 2.0f32.to_bits();
    let zero = 0.0f32.to_bits();
    let negative_zero = (-0.0f32).to_bits();
    let ch1 = vec![zero, negative_zero, one, zero];
    let ch2 = vec![zero, zero, zero, two];
    let (written, still_empty) = process_buffer(&ch1, &ch2, true);
    // The first audible sample is at index 2; it flips the flag and is
    // itself discarded; the sample after it is written interleaved.
    assert!(!still_empty);
    assert_eq!(written, vec![zero, two]);
}

#[test]
fn fully_silent_buffer_keeps_empty_flag() {
    let zero = 0.0f32.to_bits();
    let negative_zero = (-0.0f32).to_bits();
    let ch = vec![zero, negative_zero, zero];
    let (written, still_empty) = process_buffer(&ch, &ch, true);
    assert!(still_empty);
    assert!(written.is_empty());
}

#[test]
fn buffers_after_the_transition_are_written_whole() {
    let one = 1.0f32.to_bits();
    let zero = 0.0f32.to_bits();
    let ch1 = vec![zero, one];
    let ch2 = vec![one, zero];
    let (written, still_empty) = process_buffer(&ch1, &ch2, false);
    assert!(!still_empty);
    assert_eq!(written, vec![zero, one, one, zero]);
}

#[test]
fn uneven_channels_write_only_paired_samples() {
    let one = 1.0f32.to_bits();
    let ch1 = vec![one, one, one];
    let ch2 = vec![one];
    let (written, _) = process_buffer(&ch1, &ch2, false);
    assert_eq!(written, vec![one, one]);
}

#[test]
fn recorder_protocol_rejects_unexpected_messages() {
    let (phase, error) = recorder_step(RecorderPhase::Waiting, &Message::StopAudio);
    assert!(matches!(phase, RecorderPhase::Waiting));
    assert_eq!(error, Some(Error::MessageError));
    let (phase, error) = recorder_step(RecorderPhase::Waiting, &Message::StartRecording);
    assert!(matches!(phase, RecorderPhase::Capturing));
    assert_eq!(error, None);
    let (phase, error) = recorder_step(RecorderPhase::Capturing, &Message::StartRecording);
    assert!(matches!(phase, RecorderPhase::Capturing));
    assert_eq!(error, Some(Error::MessageError));
    let (phase, error) = recorder_step(RecorderPhase::Capturing, &Message::StopRecording);
    assert!(matches!(phase, RecorderPhase::Waiting));
    assert_eq!(error, None);
}

#[test]
fn gain_mapping_uses_mute_sentinel() {
    assert_eq!(effective_gain(-7), -60);
    assert_eq!(effective_gain(0), 0);
    assert_eq!(effective_gain(5), 20);
    assert_eq!(effective_gain(-3), -12);
    assert_eq!(effective_pan_centi(4), 60);
    assert_eq!(effective_pan_centi(-2), -30);
}

fn run_capture_session(values: &[(usize, [i32; 6])], total_ticks: usize) -> Vec<([i32; 6], i32)> {
    // The catalog's dial values change at the given ticks, as if the user
    // turned the dials mid-playback.
    let mut session = Session::start(Playback::Capture(SnapShot::new()));
    let mut live = Slot { value: [0; 6] };
    let mut current = [0; 6];
    for tick in 0..total_ticks {
        for (at, value) in values {
            if *at == tick {
                current = *value;
            }
        }
        let action = session.tick(current, &mut live);
        assert!(matches!(action, TickAction::Apply(v) if v == current));
    }
    let mut store = SnapshotStore::new();
    let mut playing = Slot { value: false };
    session.finish(&mut playing, &mut store, "Clip");
    assert!(playing.value);
    let (_, stored) = store.entries.into_iter().find(|e| e.0 == "Clip").unwrap();
    stored.frames
}

#[test]
fn capture_emits_sparse_keyframes() {
    let frames = run_capture_session(
        &[(50, [3, 0, 0, 0, 0, 0]), (120, [0; 6])],
        150,
    );
    assert_eq!(frames, vec![([3, 0, 0, 0, 0, 0], 50), ([0; 6], 120)]);
}

#[test]
fn automation_round_trip_reproduces_live_values() {
    let captured = run_capture_session(
        &[(50, [3, 0, 0, 0, 0, 0]), (120, [0; 6])],
        150,
    );
    let replay_source = SnapShot { frames: captured };
    let mut session = Session::start(Playback::Input(replay_source));
    let mut live = Slot { value: [0; 6] };
    let mut last = [0; 6];
    for tick in 0..150usize {
        session.tick([9, 9, 9, 9, 9, 9], &mut live);
        let expected: [i32; 6] = if tick < 50 {
            [0; 6]
        } else if tick < 120 {
            [3, 0, 0, 0, 0, 0]
        } else {
            [0; 6]
        };
        assert_eq!(live.value, expected, "live values at tick {}", tick);
        // The cell only changes at the captured keyframe ticks.
        if tick != 50 && tick != 120 {
            assert_eq!(live.value, last);
        }
        last = live.value;
    }
}

#[test]
fn replay_applies_keyframes_only_at_their_ticks() {
    let snapshot = SnapShot {
        frames: vec![([1, 0, 0, 0, 0, 0], 2)],
    };
    let mut session = Session::start(Playback::Input(snapshot));
    let mut live = Slot { value: [5; 6] };
    assert!(matches!(session.tick([0; 6], &mut live), TickAction::Hold));
    assert_eq!(live.value, [5; 6]);
    assert!(matches!(session.tick([0; 6], &mut live), TickAction::Hold));
    let action = session.tick([0; 6], &mut live);
    assert!(matches!(action, TickAction::Apply([1, 0, 0, 0, 0, 0])));
    assert_eq!(live.value, [1, 0, 0, 0, 0, 0]);
}

#[test]
fn generic_mode_applies_catalog_every_tick() {
    let mut session = Session::start(Playback::Generic(SnapShot::new()));
    let mut live = Slot { value: [0; 6] };
    let action = session.tick([2, 0, 0, 0, 0, -7], &mut live);
    assert!(matches!(action, TickAction::Apply([2, 0, 0, 0, 0, -7])));
    // Generic mode never writes the live replay cell.
    assert_eq!(live.value, [0; 6]);
}

#[test]
fn modes_are_mutually_exclusive_and_swap_next_tick() {
    let mut session = Session::start(Playback::Generic(SnapShot::new()));
    assert!(matches!(session.mode, Mode::Generic));
    let mut live = Slot { value: [0; 6] };
    let mut store = SnapshotStore::new();
    // The swap message replaces the one mode; the tick after it runs in the
    // new mode.
    let swap = Message::PlayAudio((
        Playback::Input(SnapShot {
            frames: vec![([4, 0, 0, 0, 0, 0], 0)],
        }),
        0,
    ));
    let outcome = session.poll(Some(swap), &mut live, &mut store, "Clip");
    assert!(matches!(outcome, PollOutcome::Proceed));
    assert!(matches!(session.mode, Mode::Input));
    let action = session.tick([9; 6], &mut live);
    assert!(matches!(action, TickAction::Apply([4, 0, 0, 0, 0, 0])));
}

#[test]
fn stop_during_capture_persists_stripped_snapshot() {
    let mut session = Session::start(Playback::Capture(SnapShot::new()));
    let mut live = Slot { value: [0; 6] };
    session.tick([1, 0, 0, 0, 0, 0], &mut live);
    let mut store = SnapshotStore::new();
    let outcome = session.poll(Some(Message::StopAudio), &mut live, &mut store, "Take");
    assert!(matches!(outcome, PollOutcome::Stopped));
    let (_, stored) = store.entries.into_iter().find(|e| e.0 == "Take").unwrap();
    // The seed frame is stripped; the captured change at tick 0 remains.
    assert_eq!(stored.frames, vec![([1, 0, 0, 0, 0, 0], 0)]);
}

#[test]
fn load_request_ends_session_with_path() {
    let mut session = Session::start(Playback::Generic(SnapShot::new()));
    let mut live = Slot { value: [0; 6] };
    let mut store = SnapshotStore::new();
    let outcome = session.poll(
        Some(Message::File("next.wav".to_string())),
        &mut live,
        &mut store,
        "Clip",
    );
    match outcome {
        PollOutcome::LoadRequested(path) => assert_eq!(path, "next.wav"),
        _ => panic!("a load message must end the session with the path"),
    }
    assert!(store.entries.is_empty());
}

#[test]
fn recorder_messages_are_ignored_mid_playback() {
    let mut session = Session::start(Playback::Generic(SnapShot::new()));
    let mut live = Slot { value: [0; 6] };
    let mut store = SnapshotStore::new();
    let outcome = session.poll(Some(Message::StartRecording), &mut live, &mut store, "Clip");
    assert!(matches!(outcome, PollOutcome::Proceed));
    let outcome = session.poll(None, &mut live, &mut store, "Clip");
    assert!(matches!(outcome, PollOutcome::Proceed));
}

#[test]
fn player_protocol_steps() {
    match player_idle_step(Message::File("a.wav".to_string())) {
        IdleOutcome::Load(path) => assert_eq!(path, "a.wav"),
        _ => panic!("a load message must load"),
    }
    assert!(matches!(
        player_idle_step(Message::StopAudio),
        IdleOutcome::Rejected(Error::MessageError)
    ));
    assert!(matches!(
        player_loaded_step(Message::StopAudio),
        LoadedOutcome::Wait
    ));
    assert!(matches!(
        player_loaded_step(Message::StartRecording),
        LoadedOutcome::Rejected(Error::MessageError)
    ));
    assert!(matches!(
        player_loaded_step(Message::PlayAudio((Playback::Generic(SnapShot::new()), 3))),
        LoadedOutcome::Play(Playback::Generic(_), 3)
    ));
}

#[test]
fn empty_buffers_write_nothing() {
    let (written, still_empty) = process_buffer(&Vec::new(), &Vec::new(), true);
    assert!(still_empty);
    assert!(written.is_empty());
}

#[test]
fn all_fallback_names_still_count() {
    // Three clips exist, all fallback-named; "Recording 4" is free.
    assert_eq!(
        generate_name(&names(&[
            "Default taken... 1",
            "Default taken... 2",
            "Default taken... 3"
        ])),
        "Recording 4.wav"
    );
}
