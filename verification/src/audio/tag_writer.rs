//! What is written into an audio file's tags when its metadata is edited.
//! The application reads the file's tags, applies the update and saves it.

use vstd::prelude::*;
use crate::audio::file::AudioMetadata;
use crate::text::{ascii_digits, digits_of, opt_chars, parse_u32, parse_u32_spec};

verus! {

/// The changes to make to a file's tags; a field that is `None` is left as
/// it is.
#[derive(Debug, Clone, PartialEq, Eq)]
pub struct TagUpdate {
    pub title: Option<String>,
    pub artist: Option<String>,
    pub album: Option<String>,
    pub genre: Option<String>,
    pub year: Option<u32>,
    pub track: Option<u32>,
}

/// The year written for a year text: the text read as a number, or else
/// its digits read as one.
pub open spec fn year_value(year: Seq<char>) -> Option<u32> {
    match parse_u32_spec(year) {
        Some(y) => Some(y),
        None => parse_u32_spec(digits_of(year)),
    }
}

/// The year written for a year text: the text read as a number, or else
/// the number that its digits write (`20010503` for `2001-05-03`); none
/// when it has no digits or they write a number too large.
pub fn tag_year(year: &str) -> (r: Option<u32>)
    ensures
        r == year_value(year@),
{
    match parse_u32(year) {
        Some(y) => Some(y),
        None => parse_u32(ascii_digits(year).as_str()),
    }
}

/// The track number written for a track text: the text read as a number.
pub fn tag_track(track: &str) -> (r: Option<u32>)
    ensures
        r == parse_u32_spec(track@),
{
    parse_u32(track)
}

/// A copy of an optional string.
fn copy_opt(o: &Option<String>) -> (r: Option<String>)
    ensures
        opt_chars(r) == opt_chars(*o),
{
    match o {
        Some(s) => Some(s.clone()),
        None => None,
    }
}

impl TagUpdate {
    /// The update that writes the edited metadata: title, artist, album and
    /// genre as they are; the year and track number as numbers, when they
    /// read as numbers (see [`tag_year`], [`tag_track`]).
    pub fn from_metadata(metadata: &AudioMetadata) -> (r: TagUpdate)
        ensures
            opt_chars(r.title) == opt_chars(metadata.title),
            opt_chars(r.artist) == opt_chars(metadata.artist),
            opt_chars(r.album) == opt_chars(metadata.album),
            opt_chars(r.genre) == opt_chars(metadata.genre),
            r.year == match metadata.year {
                Some(y) => year_value(y@),
                None => None,
            },
            r.track == match metadata.track_number {
                Some(t) => parse_u32_spec(t@),
                None => None,
            },
    {
        TagUpdate {
            title: copy_opt(&metadata.title),
            artist: copy_opt(&metadata.artist),
            album: copy_opt(&metadata.album),
            genre: copy_opt(&metadata.genre),
            year: match &metadata.year {
                Some(y) => tag_year(y.as_str()),
                None => None,
            },
            track: match &metadata.track_number {
                Some(t) => tag_track(t.as_str()),
                None => None,
            },
        }
    }
}

} // verus!
