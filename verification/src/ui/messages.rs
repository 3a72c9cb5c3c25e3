//! The data that the dialogs of the application work on.

use vstd::prelude::*;

verus! {

/// A tag field that the tag editor changes.
#[derive(Debug, Clone, Copy, PartialEq, Eq, Structural)]
pub enum Id3TagField {
    Title,
    Album,
    Artist,
    Year,
    TrackNumber,
    Genre,
}

/// The dialog that is open.
#[derive(Debug, Clone, Copy, PartialEq, Eq, Structural)]
pub enum ModalType {
    /// No dialog.
    NoModal,
    PlaylistRename,
    SongDetails,
    EditTags,
}

/// What the playlist renaming dialog holds.
#[derive(Debug, Clone)]
pub struct PlaylistRenameData {
    /// The path of the playlist file.
    pub playlist_path: String,
    /// The new name.
    pub new_name: String,
}

impl Default for PlaylistRenameData {
    fn default() -> (r: Self)
        ensures
            r.playlist_path@.len() == 0,
            r.new_name@.len() == 0,
    {
        PlaylistRenameData { playlist_path: String::new(), new_name: String::new() }
    }
}

/// What the tag editor holds.
#[derive(Debug, Clone)]
pub struct EditTagsData {
    /// The path of the audio file.
    pub file_path: String,
    pub title: String,
    pub album: String,
    pub artist: String,
    pub year: String,
    pub track_number: String,
    pub genre: String,
}

impl Default for EditTagsData {
    fn default() -> (r: Self)
        ensures
            r.file_path@.len() == 0,
            r.title@.len() == 0,
            r.album@.len() == 0,
            r.artist@.len() == 0,
            r.year@.len() == 0,
            r.track_number@.len() == 0,
            r.genre@.len() == 0,
    {
        EditTagsData {
            file_path: String::new(),
            title: String::new(),
            album: String::new(),
            artist: String::new(),
            year: String::new(),
            track_number: String::new(),
            genre: String::new(),
        }
    }
}

} // verus!
