//! The engine's error taxonomy, its user-facing messages, and the single-slot
//! error cell the control layer polls once per tick.

use vstd::prelude::*;

verus! {

/// Every failure the engine can report. Worker-local failures are funneled
/// into a single shared slot and the worker recovers locally; only the two
/// thread-spawn errors permanently disable their subsystem.
#[derive(Clone, Copy, PartialEq, Eq, Structural, Debug)]
pub enum Error {
    /// Failure while saving any data.
    SaveError,
    /// Failure while loading any data.
    LoadError,
    /// Failure while capturing audio.
    RecordError,
    /// Failure while writing audio data.
    WriteError,
    /// Failure while reading data on disk.
    ReadError,
    /// Failure while renaming a file.
    RenameError,
    /// Failure while deleting a file.
    DeleteError,
    /// Attempt to rename a recording to a name holding the fallback marker.
    FallbackError,
    /// Attempt to rename a recording to an empty name.
    EmptyError,
    /// Attempt to rename a recording to a name that is already taken.
    ExistsError,
    /// Attempt to rename a recording to the reserved settings name.
    SaveFileRenameError,
    /// Failure while playing audio.
    PlaybackError,
    /// Too few recordings to shuffle.
    ShuffleError,
    /// The working directory could not be determined.
    DirectoryError,
    /// The recorder worker failed to start.
    RecorderThreadError,
    /// The player worker failed to start.
    PlayerThreadError,
    /// A message arrived in a state that did not expect it.
    MessageError,
    /// A recording with no audible audio could not be deleted.
    EmptyRecordingError,
}

/// The error display slot the control layer reads once per tick: the text of
/// the most recent unconsumed error, and a flag saying one is pending.
pub struct ErrorCell {
    pub notification: String,
    pub received: bool,
}

impl Error {
    /// The user-facing message of this error, as a sequence of characters.
    pub open spec fn spec_text(self) -> Seq<char> {
        match self {
            Error::SaveError => "Failed to save data"@,
            Error::LoadError => "Data doesn't exist"@,
            Error::RecordError => "Recording failed"@,
            Error::WriteError => "Failed to write audio"@,
            Error::ReadError => "File read failed"@,
            Error::RenameError => "Failed to rename file"@,
            Error::DeleteError => "Failed to delete file"@,
            Error::FallbackError => "Name can't contain 'Default taken...'"@,
            Error::EmptyError => "Name has to contain something"@,
            Error::ExistsError => "Name already exists"@,
            Error::SaveFileRenameError => "Can't rename to 'settings'"@,
            Error::PlaybackError => "Failed to play audio"@,
            Error::ShuffleError => "At least three recordings required to shuffle"@,
            Error::DirectoryError => "Couldn't find correct file directory"@,
            Error::RecorderThreadError => "Recording thread crashed ... Restart required"@,
            Error::PlayerThreadError => "Audio thread crashed ... Restart required"@,
            Error::MessageError => "Incorrect message sent to thread"@,
            Error::EmptyRecordingError => "Failed to delete new empty recording"@,
        }
    }

    /// The user-facing message of this error.
    pub fn get_text(self) -> (r: String)
        ensures
            r@ == self.spec_text(),
    {
        match self {
            Error::SaveError => String::from_str("Failed to save data"),
            Error::LoadError => String::from_str("Data doesn't exist"),
            Error::RecordError => String::from_str("Recording failed"),
            Error::WriteError => String::from_str("Failed to write audio"),
            Error::ReadError => String::from_str("File read failed"),
            Error::RenameError => String::from_str("Failed to rename file"),
            Error::DeleteError => String::from_str("Failed to delete file"),
            Error::FallbackError => String::from_str("Name can't contain 'Default taken...'"),
            Error::EmptyError => String::from_str("Name has to contain something"),
            Error::ExistsError => String::from_str("Name already exists"),
            Error::SaveFileRenameError => String::from_str("Can't rename to 'settings'"),
            Error::ShuffleError => {
                String::from_str("At least three recordings required to shuffle")
            }
            Error::PlaybackError => String::from_str("Failed to play audio"),
            Error::DirectoryError => String::from_str("Couldn't find correct file directory"),
            Error::RecorderThreadError => {
                String::from_str("Recording thread crashed ... Restart required")
            }
            Error::PlayerThreadError => {
                String::from_str("Audio thread crashed ... Restart required")
            }
            Error::MessageError => String::from_str("Incorrect message sent to thread"),
            Error::EmptyRecordingError => {
                String::from_str("Failed to delete new empty recording")
            }
        }
    }

    /// Publishes this error to the display slot: the slot holds the error's
    /// message and the pending flag is raised.
    pub fn send(self, cell: &mut ErrorCell)
        ensures
            final(cell).notification@ == self.spec_text(),
            final(cell).received,
    {
        cell.notification = self.get_text();
        cell.received = true;
    }
}

impl ErrorCell {
    /// An empty display slot: no message, nothing pending.
    pub fn new() -> (r: ErrorCell)
        ensures
            r.notification@ == Seq::<char>::empty(),
            !r.received,
    {
        ErrorCell { notification: String::new(), received: false }
    }
}

} // verus!
