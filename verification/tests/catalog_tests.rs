use clipdeck::catalog::{Preset, Recording, Settings};
use clipdeck::errors::{Error, ErrorCell};
use clipdeck::files::File;
use clipdeck::snapshot::{SnapShot, SnapshotStore};
use clipdeck::tracker::{Slot, Tracker};

fn names(list: &[&str]) -> Vec<String> {
    list.iter().map(|s| s.to_string()).collect()
}

fn catalog_with(recordings: &[(&str, [i32; 6])]) -> Settings {
    let mut settings = Settings::new();
    for (name, controls) in recordings {
        settings
            .recordings
            .push(Recording::from(&name.to_string(), *controls));
    }
    settings
}

fn stored_frames(store: &SnapshotStore, name: &str) -> Option<Vec<([i32; 6], i32)>> {
    for (entry, snapshot) in &store.entries {
        if entry == name {
            return Some(snapshot.frames.clone());
        }
    }
    None
}

#[test]
fn sync_builds_catalog_from_disk_names() {
    let mut settings = Settings::new();
    let mut store = SnapshotStore::new();
    settings.sync(&names(&["Recording 1", "Recording 2"]), Vec::new(), &mut store);
    assert_eq!(settings.recordings.len(), 2);
    assert_eq!(settings.recordings[0].name, "Recording 1");
    assert_eq!(settings.recordings[1].name, "Recording 2");
    assert_eq!(settings.recordings[0].parse(), [0, 0, 0, 0, 0, 0]);
    // Both clips lacked snapshots, so both got seeded ones.
    assert_eq!(
        stored_frames(&store, "Recording 1"),
        Some(vec![([0, 0, 0, 0, 0, 0], 0)])
    );
    assert_eq!(
        stored_frames(&store, "Recording 2"),
        Some(vec![([0, 0, 0, 0, 0, 0], 0)])
    );
}

#[test]
fn sync_carries_controls_forward_and_drops_vanished_entries() {
    let mut settings = catalog_with(&[
        ("Recording 1", [1, 2, 3, 4, 5, 6]),
        ("Gone", [9, 9, 9, 9, 9, 9]),
    ]);
    let mut store = SnapshotStore::new();
    settings.sync(
        &names(&["New clip", "Recording 1"]),
        names(&["New clip", "Recording 1"]),
        &mut store,
    );
    assert_eq!(settings.recordings.len(), 2);
    assert_eq!(settings.recordings[0].name, "New clip");
    assert_eq!(settings.recordings[0].parse(), [0, 0, 0, 0, 0, 0]);
    assert_eq!(settings.recordings[1].name, "Recording 1");
    assert_eq!(settings.recordings[1].parse(), [1, 2, 3, 4, 5, 6]);
    // Both clips had pending snapshots: nothing was seeded over them.
    assert_eq!(stored_frames(&store, "New clip"), None);
    assert_eq!(stored_frames(&store, "Recording 1"), None);
}

#[test]
fn sync_twice_gives_identical_catalog() {
    let disk = names(&["Recording 10", "Recording 2", "Recording 9"]);
    let mut settings = catalog_with(&[
        ("Recording 2", [3, 0, -7, 2, 1, 0]),
        ("Recording 9", [0, 1, 0, 0, 0, -2]),
    ]);
    let mut store = SnapshotStore::new();
    settings.sync(&disk, Vec::new(), &mut store);
    let once: Vec<(String, [i32; 6])> = settings
        .recordings
        .iter()
        .map(|r| (r.name.clone(), r.parse()))
        .collect();
    settings.sync(&disk, names(&["Recording 10", "Recording 2", "Recording 9"]), &mut store);
    let twice: Vec<(String, [i32; 6])> = settings
        .recordings
        .iter()
        .map(|r| (r.name.clone(), r.parse()))
        .collect();
    assert_eq!(once, twice);
}

#[test]
fn sync_filters_reserved_settings_snapshot() {
    // A pending snapshot named like the settings store does not count as a
    // clip's snapshot: the clip of that name still gets seeded.
    let mut settings = Settings::new();
    let mut store = SnapshotStore::new();
    settings.sync(&names(&["settings"]), names(&["settings"]), &mut store);
    assert_eq!(
        stored_frames(&store, "settings"),
        Some(vec![([0, 0, 0, 0, 0, 0], 0)])
    );
}

#[test]
fn rename_to_reserved_settings_name_is_rejected() {
    let old = catalog_with(&[("Recording 1", [1, 0, 0, 0, 0, 0])]).recordings;
    let out = Recording::rename(&old, &names(&["settings"]));
    match out {
        Err((plan, error)) => {
            assert_eq!(error, Error::SaveFileRenameError);
            assert_eq!(plan.recordings.len(), 1);
            assert_eq!(plan.recordings[0].name, "Recording 1");
            assert!(plan.pending.is_empty());
        }
        Ok(_) => panic!("rename to the reserved name must fail"),
    }
}

#[test]
fn rename_to_empty_name_is_rejected() {
    let old = catalog_with(&[("Recording 1", [0; 6])]).recordings;
    let out = Recording::rename(&old, &names(&[""]));
    match out {
        Err((plan, error)) => {
            assert_eq!(error, Error::EmptyError);
            assert_eq!(plan.recordings[0].name, "Recording 1");
            assert!(plan.pending.is_empty());
        }
        Ok(_) => panic!("rename to an empty name must fail"),
    }
}

#[test]
fn rename_to_existing_name_is_rejected() {
    let old = catalog_with(&[("Recording 1", [0; 6]), ("Recording 2", [0; 6])]).recordings;
    let out = Recording::rename(&old, &names(&["Recording 2", "Recording 2"]));
    match out {
        Err((plan, error)) => {
            assert_eq!(error, Error::ExistsError);
            assert_eq!(plan.recordings.len(), 2);
            assert_eq!(plan.recordings[0].name, "Recording 1");
            assert_eq!(plan.recordings[1].name, "Recording 2");
            assert!(plan.pending.is_empty());
        }
        Ok(_) => panic!("rename to a taken name must fail"),
    }
}

#[test]
fn rename_to_fallback_marker_is_rejected() {
    let old = catalog_with(&[("Recording 1", [0; 6])]).recordings;
    let out = Recording::rename(&old, &names(&["Default taken... 5"]));
    match out {
        Err((plan, error)) => {
            assert_eq!(error, Error::FallbackError);
            assert_eq!(plan.recordings[0].name, "Recording 1");
            assert!(plan.pending.is_empty());
        }
        Ok(_) => panic!("rename holding the fallback marker must fail"),
    }
}

#[test]
fn rename_applies_accepted_changes_and_lists_disk_moves() {
    let old = catalog_with(&[
        ("Recording 1", [1, 2, 3, 4, 5, 6]),
        ("Recording 2", [0; 6]),
    ])
    .recordings;
    let out = Recording::rename(&old, &names(&["My song", "Recording 2"]));
    match out {
        Ok(plan) => {
            assert_eq!(plan.recordings.len(), 2);
            assert_eq!(plan.recordings[0].name, "My song");
            assert_eq!(plan.recordings[0].parse(), [1, 2, 3, 4, 5, 6]);
            assert_eq!(plan.recordings[1].name, "Recording 2");
            assert_eq!(plan.pending.len(), 1);
            assert_eq!(plan.pending[0].0, "Recording 1");
            assert_eq!(plan.pending[0].1, "My song");
        }
        Err(_) => panic!("a valid rename must succeed"),
    }
}

#[test]
fn rejected_entry_does_not_stop_the_batch() {
    // The middle entry is rejected and keeps its old name; the entry after
    // it still succeeds individually, and its disk move is still listed.
    let old = catalog_with(&[
        ("Recording 1", [0; 6]),
        ("Recording 2", [0; 6]),
        ("Recording 3", [0; 6]),
    ])
    .recordings;
    let out = Recording::rename(&old, &names(&["Recording 1", "settings", "My song"]));
    match out {
        Err((plan, error)) => {
            assert_eq!(error, Error::SaveFileRenameError);
            assert_eq!(plan.recordings.len(), 3);
            assert_eq!(plan.recordings[0].name, "Recording 1");
            assert_eq!(plan.recordings[1].name, "Recording 2");
            assert_eq!(plan.recordings[2].name, "My song");
            assert_eq!(plan.pending.len(), 1);
            assert_eq!(plan.pending[0].0, "Recording 3");
            assert_eq!(plan.pending[0].1, "My song");
        }
        Ok(_) => panic!("a rejected entry must surface its error"),
    }
}

#[test]
fn first_rejection_names_the_error() {
    // Two entries are rejected for different reasons; the error of the
    // first one comes back, and both keep their old names.
    let old = catalog_with(&[("Recording 1", [0; 6]), ("Recording 2", [0; 6])]).recordings;
    let out = Recording::rename(&old, &names(&["", "Default taken... 9"]));
    match out {
        Err((plan, error)) => {
            assert_eq!(error, Error::EmptyError);
            assert_eq!(plan.recordings.len(), 2);
            assert_eq!(plan.recordings[0].name, "Recording 1");
            assert_eq!(plan.recordings[1].name, "Recording 2");
            assert!(plan.pending.is_empty());
        }
        Ok(_) => panic!("a rejected entry must surface its error"),
    }
}

#[test]
fn shuffle_is_a_permutation() {
    let mut order = Recording::shuffle(5);
    order.sort();
    assert_eq!(order, vec![0, 1, 2, 3, 4]);
    assert!(Recording::shuffle(0).is_empty());
}

#[test]
fn name_exists_checks_catalog() {
    let list = catalog_with(&[("Recording 1", [0; 6])]).recordings;
    assert!(File::name_exists("Recording 1".to_string(), &list));
    assert!(!File::name_exists("Recording 2".to_string(), &list));
}

#[test]
fn preset_round_trip_through_send_values() {
    let mut settings = Settings::new();
    settings.add_preset([1, -7, 3, 0, 5, -6]);
    let index = settings.get_index_data();
    assert_eq!(index.preset_length, 1);
    let names_out = Preset::send_names(&settings.presets, &index.preset_length);
    assert_eq!(names_out, vec!["New Preset".to_string()]);
    let values = Preset::send_values(&settings.presets, &index.preset_length);
    assert_eq!(values, vec![vec![1, -7, 3, 0, 5, -6]]);
}

#[test]
fn preset_rename_falls_back_to_default_name() {
    let mut settings = Settings::new();
    settings.add_preset([0; 6]);
    settings.add_preset([0; 6]);
    settings.rename_presets(&names(&["Warm"]));
    assert_eq!(settings.presets[0].name, "Warm");
    assert_eq!(settings.presets[1].name, "New Preset");
}

#[test]
fn deleting_and_editing_recordings() {
    let mut settings = catalog_with(&[("A", [0; 6]), ("B", [0; 6])]);
    settings.edit_recording(1, [2, 2, 2, 2, 2, 2]);
    assert_eq!(settings.recordings[1].parse(), [2, 2, 2, 2, 2, 2]);
    settings.delete_recording(0);
    assert_eq!(settings.recordings.len(), 1);
    assert_eq!(settings.recordings[0].name, "B");
    assert!(!settings.delete_preset(3));
}

#[test]
fn recording_value_views() {
    let recording = Recording::from(&"A".to_string(), [1, 2, 3, 4, 5, 6]);
    assert_eq!(recording.parse_vec_from_recording(), vec![1, 2, 3, 4, 5, 6]);
    assert_eq!(
        Recording::parse_vec_from_list([6, 5, 4, 3, 2, 1]),
        vec![6, 5, 4, 3, 2, 1]
    );
    let list = vec![recording];
    assert_eq!(Recording::send_names(&list), vec!["A".to_string()]);
    assert_eq!(Recording::send_values(&list, &1), vec![vec![1, 2, 3, 4, 5, 6]]);
}

#[test]
fn error_messages_and_cell() {
    assert_eq!(Error::ShuffleError.get_text(), "At least three recordings required to shuffle");
    assert_eq!(Error::SaveFileRenameError.get_text(), "Can't rename to 'settings'");
    assert_eq!(Error::MessageError.get_text(), "Incorrect message sent to thread");
    let mut cell = ErrorCell::new();
    assert!(!cell.received);
    Error::LoadError.send(&mut cell);
    assert!(cell.received);
    assert_eq!(cell.notification, "Data doesn't exist");
}

#[test]
fn tracker_slots_read_and_write() {
    let mut tracker = Tracker::new(Settings::new());
    assert!(Tracker::read(&tracker.empty_recording));
    assert!(!Tracker::read(&tracker.playing));
    Tracker::write(&mut tracker.playing, true);
    assert!(Tracker::read(&tracker.playing));
    assert_eq!(Tracker::read(&tracker.snapshot_frame_values), [0; 6]);
    let mut extra: Slot<i32> = Slot { value: 7 };
    Tracker::write(&mut extra, 9);
    assert_eq!(Tracker::read(&extra), 9);
}

#[test]
fn snapshot_store_replaces_by_name() {
    let mut store = SnapshotStore::new();
    assert!(!store.contains("A"));
    let _ = SnapShot::create(&mut store, "A");
    assert!(store.contains("A"));
    let richer = SnapShot {
        frames: vec![([0; 6], 0), ([3, 0, 0, 0, 0, 0], 50)],
    };
    let _ = richer.save(&mut store, "A");
    assert_eq!(
        stored_frames(&store, "A"),
        Some(vec![([0; 6], 0), ([3, 0, 0, 0, 0, 0], 50)])
    );
    assert_eq!(store.entries.len(), 1);
}

#[test]
fn snapshot_edited_detects_any_change() {
    assert!(!SnapShot::edited([1, 2, 3, 4, 5, 6], [1, 2, 3, 4, 5, 6]));
    assert!(SnapShot::edited([1, 2, 3, 4, 5, 6], [1, 2, 3, 4, 5, 7]));
}

#[test]
fn sync_with_no_files_drops_all_entries() {
    let mut settings = catalog_with(&[("Recording 1", [1, 1, 1, 1, 1, 1])]);
    let mut store = SnapshotStore::new();
    settings.sync(&Vec::new(), Vec::new(), &mut store);
    assert!(settings.recordings.is_empty());
    assert!(store.entries.is_empty());
}

#[test]
fn unchanged_names_pass_rename_untouched() {
    // An unchanged entry is never validated, even when its name holds the
    // fallback marker.
    let old = catalog_with(&[("Default taken... 1", [0; 6])]).recordings;
    match Recording::rename(&old, &names(&["Default taken... 1"])) {
        Ok(plan) => {
            assert_eq!(plan.recordings[0].name, "Default taken... 1");
            assert!(plan.pending.is_empty());
        }
        Err(_) => panic!("an unchanged name must pass"),
    }
}
