//! The errors of the player.

use vstd::prelude::*;
use vstd::std_specs::convert::FromSpecImpl;

verus! {

/// The standard input/output error, carried as an opaque value.
#[verifier::external_type_specification]
#[verifier::external_body]
pub struct ExIoError(std::io::Error);

/// An error of the player.
#[derive(Debug)]
pub enum PlayerError {
    /// A file that was asked for does not exist.
    FileNotFound(String),
    /// The format of a file is not supported.
    UnsupportedFormat(String),
    /// The audio device failed.
    AudioDeviceError(String),
    /// Decoding failed.
    DecodingError(String),
    /// Playback failed.
    PlaybackError(String),
    /// A playlist could not be handled.
    PlaylistError(String),
    /// Reading or writing failed.
    IoError(std::io::Error),
    /// Any other failure.
    Other(String),
}

/// The `Display` text of an input/output error (through `format!`); nothing
/// is promised of the text.
#[verifier::external_body]
fn io_error_text(err: &std::io::Error) -> String {
    format!("{}", err)
}

impl PlayerError {
    /// The prefix with which `message` introduces the error.
    pub open spec fn prefix(&self) -> Seq<char> {
        match self {
            PlayerError::FileNotFound(_) => "File not found: "@,
            PlayerError::UnsupportedFormat(_) => "Unsupported format: "@,
            PlayerError::AudioDeviceError(_) => "Audio device error: "@,
            PlayerError::DecodingError(_) => "Decoding error: "@,
            PlayerError::PlaybackError(_) => "Playback error: "@,
            PlayerError::PlaylistError(_) => "Playlist error: "@,
            PlayerError::IoError(_) => "IO error: "@,
            PlayerError::Other(_) => "Error: "@,
        }
    }

    /// The human-readable form of the error: a prefix naming its kind, then
    /// the message it carries.
    pub fn message(&self) -> (r: String)
        ensures
            match self {
                PlayerError::FileNotFound(m) => r@ == self.prefix() + m@,
                PlayerError::UnsupportedFormat(m) => r@ == self.prefix() + m@,
                PlayerError::AudioDeviceError(m) => r@ == self.prefix() + m@,
                PlayerError::DecodingError(m) => r@ == self.prefix() + m@,
                PlayerError::PlaybackError(m) => r@ == self.prefix() + m@,
                PlayerError::PlaylistError(m) => r@ == self.prefix() + m@,
                PlayerError::IoError(_) => self.prefix().is_prefix_of(r@),
                PlayerError::Other(m) => r@ == self.prefix() + m@,
            },
    {
        let (mut r, detail) = match self {
            PlayerError::FileNotFound(m) => (String::from_str("File not found: "), m.clone()),
            PlayerError::UnsupportedFormat(m) => (
                String::from_str("Unsupported format: "),
                m.clone(),
            ),
            PlayerError::AudioDeviceError(m) => (
                String::from_str("Audio device error: "),
                m.clone(),
            ),
            PlayerError::DecodingError(m) => (String::from_str("Decoding error: "), m.clone()),
            PlayerError::PlaybackError(m) => (String::from_str("Playback error: "), m.clone()),
            PlayerError::PlaylistError(m) => (String::from_str("Playlist error: "), m.clone()),
            PlayerError::IoError(e) => (String::from_str("IO error: "), io_error_text(e)),
            PlayerError::Other(m) => (String::from_str("Error: "), m.clone()),
        };
        let ghost before = r@;
        r.append(detail.as_str());
        assert(before.is_prefix_of(r@)) by {
            assert(r@.subrange(0, before.len() as int) =~= before);
        }
        r
    }
}

impl From<std::io::Error> for PlayerError {
    fn from(err: std::io::Error) -> (r: Self) {
        PlayerError::IoError(err)
    }
}

impl FromSpecImpl<std::io::Error> for PlayerError {
    open spec fn obeys_from_spec() -> bool {
        true
    }

    open spec fn from_spec(v: std::io::Error) -> PlayerError {
        PlayerError::IoError(v)
    }
}

} // verus!
