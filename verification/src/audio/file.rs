//! The information that the player keeps about an audio file: its tags,
//! embedded lyrics and cover art.
//!
//! The tags are read by the decoder in the application; what it found is
//! handed to [`AudioMetadata::from_symphonia_metadata`] as plain values.

use vstd::prelude::*;
use crate::text::{
    chars_of, find_char, lines_of, opt_chars, split_lines, seq_views, str_eq, to_upper,
    trim_start, trim_start_index, uppercase_of, all_ascii, ascii_upper_char,
};

verus! {

// ---------------------------------------------------------------------------
// Embedded lyrics
// ---------------------------------------------------------------------------

/// The kind of lyrics embedded in a tag.
#[derive(Debug, Clone)]
pub enum LyricsType {
    /// Unsynchronised lyrics (ID3 `USLT`).
    Unsynchronized,
    /// Synchronised lyrics (ID3 `SYLT`).
    Synchronized,
    /// Lyrics in the LRC format.
    Lrc,
    /// Any other kind.
    Other(String),
}

/// Lyrics found in the tags of an audio file.
#[derive(Debug, Clone)]
pub struct EmbeddedLyrics {
    /// The lyrics.
    pub content: String,
    /// The language code (ISO 639-2).
    pub language: Option<String>,
    /// A description or title.
    pub description: Option<String>,
    /// The kind of lyrics.
    pub lyrics_type: LyricsType,
}

/// Embedded lyrics as values.
pub struct LyricsEntry {
    pub content: Seq<char>,
    pub language: Option<Seq<char>>,
    pub description: Option<Seq<char>>,
    pub lyrics_type: LyricsType,
}

impl View for EmbeddedLyrics {
    type V = LyricsEntry;

    open spec fn view(&self) -> LyricsEntry {
        LyricsEntry {
            content: self.content@,
            language: opt_chars(self.language),
            description: opt_chars(self.description),
            lyrics_type: self.lyrics_type,
        }
    }
}

/// Whether a line looks like the start of an LRC line: after its leading
/// whitespace it opens a bracket, and it holds a colon and a closing bracket.
pub open spec fn lrc_like_line(line: Seq<char>) -> bool {
    &&& trim_start(line).len() > 0
    &&& trim_start(line)[0] == '['
    &&& line.contains(':')
    &&& line.contains(']')
}

/// Whether a text looks like LRC lyrics: it holds both brackets and one of
/// its lines looks like an LRC line.
pub open spec fn lrc_like(content: Seq<char>) -> bool {
    &&& content.contains('[')
    &&& content.contains(']')
    &&& exists|i: int| 0 <= i < lines_of(content).len() && #[trigger] lrc_like_line(lines_of(content)[i])
}

/// Unsynchronised lyrics with no language or description.
pub open spec fn plain_entry(value: Seq<char>, kind: LyricsType) -> LyricsEntry {
    LyricsEntry { content: value, language: None, description: None, lyrics_type: kind }
}

/// The lyrics that a tag with the key `key` (whose uppercase form is
/// `key_upper`) and the text `value` holds, if any: the lyrics keys of
/// ID3, iTunes and Vorbis comments, or any tag whose text looks like LRC.
pub open spec fn tag_lyrics(key_upper: Seq<char>, key: Seq<char>, value: Seq<char>) -> Option<LyricsEntry> {
    if key_upper == "USLT"@ {
        Some(plain_entry(value, LyricsType::Unsynchronized))
    } else if key_upper == "SYLT"@ {
        Some(plain_entry(value, LyricsType::Synchronized))
    } else if key_upper == "LYRIC"@ {
        Some(plain_entry(value, LyricsType::Unsynchronized))
    } else if key_upper == "©LYR"@ || key_upper == "LYR"@ {
        Some(
            LyricsEntry {
                content: value,
                language: None,
                description: Some("iTunes Lyrics"@),
                lyrics_type: LyricsType::Unsynchronized,
            },
        )
    } else if key_upper == "LYRICS"@ || key_upper == "UNSYNCEDLYRICS"@ {
        Some(plain_entry(value, LyricsType::Unsynchronized))
    } else if lrc_like(value) {
        Some(
            LyricsEntry {
                content: value,
                language: None,
                description: Some("LRC from "@ + key),
                lyrics_type: LyricsType::Lrc,
            },
        )
    } else {
        None
    }
}

/// The view of optional embedded lyrics.
pub open spec fn opt_entry(o: Option<EmbeddedLyrics>) -> Option<LyricsEntry> {
    match o {
        Some(e) => Some(e@),
        None => None,
    }
}

/// Whether `line` looks like the start of an LRC line (executable).
fn line_is_lrc_like(line: &[char]) -> (r: bool)
    ensures
        r == lrc_like_line(line@),
{
    let lo = trim_start_index(line);
    if lo == line.len() || line[lo] != '[' {
        assert(trim_start(line@).len() == 0 || trim_start(line@)[0] != '[') by {
            if lo < line@.len() {
                assert(trim_start(line@)[0] == line@[lo as int]);
            }
        }
        return false;
    }
    assert(trim_start(line@)[0] == line@[lo as int]);
    let colon = find_char(line, ':', 0);
    let close = find_char(line, ']', 0);
    proof {
        if colon is Some {
            assert(line@[colon->0 as int] == ':');
        }
        if close is Some {
            assert(line@[close->0 as int] == ']');
        }
    }
    colon.is_some() && close.is_some()
}

// ---------------------------------------------------------------------------
// Cover art
// ---------------------------------------------------------------------------

/// A cover picture.
#[derive(Debug, Clone)]
pub struct CoverArt {
    /// The picture's bytes.
    pub data: Vec<u8>,
    /// Its MIME type, such as `image/jpeg` or `image/png`.
    pub mime_type: String,
    /// Its description.
    pub description: Option<String>,
}

/// A cover picture as values.
pub struct CoverModel {
    pub data: Seq<u8>,
    pub mime_type: Seq<char>,
    pub description: Option<Seq<char>>,
}

impl View for CoverArt {
    type V = CoverModel;

    open spec fn view(&self) -> CoverModel {
        CoverModel {
            data: self.data@,
            mime_type: self.mime_type@,
            description: opt_chars(self.description),
        }
    }
}

/// The MIME type of a picture, told by its first bytes (JPEG, PNG, GIF, BMP,
/// WebP); empty when it is shorter than eight bytes or not recognised.
pub open spec fn image_format(d: Seq<u8>) -> Seq<char> {
    if d.len() < 8 {
        Seq::empty()
    } else if d[0] == 0xFF && d[1] == 0xD8 && d[2] == 0xFF {
        "image/jpeg"@
    } else if d[0] == 0x89 && d[1] == 0x50 && d[2] == 0x4E && d[3] == 0x47 && d[4] == 0x0D && d[5]
        == 0x0A && d[6] == 0x1A && d[7] == 0x0A {
        "image/png"@
    } else if d[0] == 0x47 && d[1] == 0x49 && d[2] == 0x46 && d[3] == 0x38 {
        "image/gif"@
    } else if d[0] == 0x42 && d[1] == 0x4D {
        "image/bmp"@
    } else if d.len() >= 12 && d[0] == 0x52 && d[1] == 0x49 && d[2] == 0x46 && d[3] == 0x46 && d[8]
        == 0x57 && d[9] == 0x45 && d[10] == 0x42 && d[11] == 0x50 {
        "image/webp"@
    } else {
        Seq::empty()
    }
}

/// The MIME type of a picture, told by its first bytes: `image/jpeg`,
/// `image/png`, `image/gif`, `image/bmp` or `image/webp`; empty when the data
/// is shorter than eight bytes or of none of these.
pub fn detect_image_format(data: &[u8]) -> (r: String)
    ensures
        r@ == image_format(data@),
{
    let n = data.len();
    if n < 8 {
        return String::new();
    }
    if data[0] == 0xFF && data[1] == 0xD8 && data[2] == 0xFF {
        return String::from_str("image/jpeg");
    }
    if data[0] == 0x89 && data[1] == 0x50 && data[2] == 0x4E && data[3] == 0x47 && data[4] == 0x0D
        && data[5] == 0x0A && data[6] == 0x1A && data[7] == 0x0A {
        return String::from_str("image/png");
    }
    if data[0] == 0x47 && data[1] == 0x49 && data[2] == 0x46 && data[3] == 0x38 {
        return String::from_str("image/gif");
    }
    if data[0] == 0x42 && data[1] == 0x4D {
        return String::from_str("image/bmp");
    }
    if n >= 12 && data[0] == 0x52 && data[1] == 0x49 && data[2] == 0x46 && data[3] == 0x46 && data[8]
        == 0x57 && data[9] == 0x45 && data[10] == 0x42 && data[11] == 0x50 {
        return String::from_str("image/webp");
    }
    String::new()
}


// ---------------------------------------------------------------------------
// Tags
// ---------------------------------------------------------------------------

/// What a picture in the tags is for.
#[derive(Debug, Clone, Copy, PartialEq, Eq, Structural)]
pub enum VisualUsage {
    /// The front cover.
    FrontCover,
    /// The back cover.
    BackCover,
    /// Anything else.
    Other,
}

/// A picture found in the tags.
#[derive(Debug, Clone)]
pub struct MetadataVisual {
    /// Its MIME type as the tags give it (possibly empty).
    pub media_type: String,
    /// Its bytes.
    pub data: Vec<u8>,
    /// What it is for, when the tags say.
    pub usage: Option<VisualUsage>,
}

/// The value of a tag.
#[derive(Debug, Clone)]
pub enum TagValue {
    /// Binary data.
    Binary,
    /// Text: a string value, or the text form of any other value.
    Text(String),
}

/// The standard meaning of a tag, when the reader recognised one.
#[derive(Debug, Clone)]
pub enum StandardTag {
    Artist,
    Album,
    TrackTitle,
    Date,
    Genre,
    TrackNumber,
    AlbumArtist,
    Composer,
    Comment,
    /// Another standard key, by its name.
    Other(String),
}

/// A tag found in the metadata.
#[derive(Debug, Clone)]
pub struct MetadataTag {
    /// The key as written in the file.
    pub key: String,
    /// The value.
    pub value: TagValue,
    /// The standard meaning of the key, if known.
    pub std_key: Option<StandardTag>,
}

/// The metadata of an audio file.
#[derive(Debug, Clone)]
pub struct AudioMetadata {
    pub artist: Option<String>,
    pub album: Option<String>,
    pub title: Option<String>,
    pub year: Option<String>,
    pub genre: Option<String>,
    pub track_number: Option<String>,
    pub album_artist: Option<String>,
    pub composer: Option<String>,
    pub comment: Option<String>,
    /// The cover picture.
    pub cover_art: Option<CoverArt>,
    /// The lyrics found in the tags, in the order of the tags.
    pub embedded_lyrics: Vec<EmbeddedLyrics>,
    /// The other tags, as (key, value) pairs with distinct keys.
    pub other_tags: Vec<(String, String)>,
}

/// The metadata of an audio file as values.
pub struct AudioMetadataModel {
    pub artist: Option<Seq<char>>,
    pub album: Option<Seq<char>>,
    pub title: Option<Seq<char>>,
    pub year: Option<Seq<char>>,
    pub genre: Option<Seq<char>>,
    pub track_number: Option<Seq<char>>,
    pub album_artist: Option<Seq<char>>,
    pub composer: Option<Seq<char>>,
    pub comment: Option<Seq<char>>,
    pub cover_art: Option<CoverModel>,
    pub embedded_lyrics: Seq<LyricsEntry>,
    pub other_tags: Seq<(Seq<char>, Seq<char>)>,
}

/// The view of an optional cover picture.
pub open spec fn opt_cover(o: Option<CoverArt>) -> Option<CoverModel> {
    match o {
        Some(c) => Some(c@),
        None => None,
    }
}

/// The views of (key, value) pairs.
pub open spec fn pair_views(s: Seq<(String, String)>) -> Seq<(Seq<char>, Seq<char>)> {
    s.map_values(|p: (String, String)| (p.0@, p.1@))
}

/// The views of embedded lyrics.
pub open spec fn entry_views(s: Seq<EmbeddedLyrics>) -> Seq<LyricsEntry> {
    s.map_values(|e: EmbeddedLyrics| e@)
}

impl View for AudioMetadata {
    type V = AudioMetadataModel;

    open spec fn view(&self) -> AudioMetadataModel {
        AudioMetadataModel {
            artist: opt_chars(self.artist),
            album: opt_chars(self.album),
            title: opt_chars(self.title),
            year: opt_chars(self.year),
            genre: opt_chars(self.genre),
            track_number: opt_chars(self.track_number),
            album_artist: opt_chars(self.album_artist),
            composer: opt_chars(self.composer),
            comment: opt_chars(self.comment),
            cover_art: opt_cover(self.cover_art),
            embedded_lyrics: entry_views(self.embedded_lyrics@),
            other_tags: pair_views(self.other_tags@),
        }
    }
}

/// Metadata with nothing in it.
pub open spec fn empty_audio_metadata() -> AudioMetadataModel {
    AudioMetadataModel {
        artist: None,
        album: None,
        title: None,
        year: None,
        genre: None,
        track_number: None,
        album_artist: None,
        composer: None,
        comment: None,
        cover_art: None,
        embedded_lyrics: Seq::empty(),
        other_tags: Seq::empty(),
    }
}

impl Default for AudioMetadata {
    fn default() -> (r: Self)
        ensures
            r@ == empty_audio_metadata(),
    {
        let r = AudioMetadata {
            artist: None,
            album: None,
            title: None,
            year: None,
            genre: None,
            track_number: None,
            album_artist: None,
            composer: None,
            comment: None,
            cover_art: None,
            embedded_lyrics: Vec::new(),
            other_tags: Vec::new(),
        };
        assert(entry_views(r.embedded_lyrics@) =~= Seq::empty());
        assert(pair_views(r.other_tags@) =~= Seq::empty());
        r
    }
}

/// The position of the pair with key `k` in `s`, or the length of `s`.
pub open spec fn key_position(s: Seq<(Seq<char>, Seq<char>)>, k: Seq<char>) -> int
    decreases s.len(),
{
    if s.len() == 0 {
        0
    } else if s[0].0 == k {
        0
    } else {
        1 + key_position(s.drop_first(), k)
    }
}

/// `s` with the value of `k` set to `v`: the pair replaced where the key
/// occurs, appended where it does not (a map insertion).
pub open spec fn tag_insert(s: Seq<(Seq<char>, Seq<char>)>, k: Seq<char>, v: Seq<char>) -> Seq<
    (Seq<char>, Seq<char>),
> {
    let i = key_position(s, k);
    if i < s.len() {
        s.update(i, (k, v))
    } else {
        s.push((k, v))
    }
}

/// No key occurs twice.
pub open spec fn keys_unique(s: Seq<(Seq<char>, Seq<char>)>) -> bool {
    forall|i: int, j: int| 0 <= i < j < s.len() ==> #[trigger] s[i].0 != #[trigger] s[j].0
}

/// The MIME type of a picture: the one the tags give, or else the one told
/// by its bytes.
pub open spec fn visual_mime(v: MetadataVisual) -> Seq<char> {
    if v.media_type@.len() == 0 {
        image_format(v.data@)
    } else {
        v.media_type@
    }
}

/// The cover after one more picture: a front cover always replaces it, a back
/// cover or a picture of unknown use only fills it when empty, other pictures
/// are ignored; a picture of unknown MIME type is ignored.
pub open spec fn cover_step(cover: Option<CoverModel>, v: MetadataVisual) -> Option<CoverModel> {
    let takes = match v.usage {
        Some(VisualUsage::FrontCover) => true,
        Some(VisualUsage::BackCover) => cover is None,
        Some(VisualUsage::Other) => false,
        None => cover is None,
    };
    if takes && visual_mime(v).len() > 0 {
        Some(CoverModel { data: v.data@, mime_type: visual_mime(v), description: None })
    } else {
        cover
    }
}

/// The cover chosen among the pictures `vs`, in order.
pub open spec fn cover_of(vs: Seq<MetadataVisual>) -> Option<CoverModel>
    decreases vs.len(),
{
    if vs.len() == 0 {
        None
    } else {
        cover_step(cover_of(vs.drop_last()), vs.last())
    }
}

/// The metadata after one more tag: binary values are skipped; lyrics go to
/// the embedded lyrics; the standard keys fill their fields; any other tag
/// is recorded under its standard name, or else under its key.
pub open spec fn tag_step(m: AudioMetadataModel, t: MetadataTag) -> AudioMetadataModel {
    match t.value {
        TagValue::Binary => m,
        TagValue::Text(s) => match tag_lyrics(uppercase_of(t.key@), t.key@, s@) {
            Some(l) => AudioMetadataModel { embedded_lyrics: m.embedded_lyrics.push(l), ..m },
            None => match t.std_key {
                Some(StandardTag::Artist) => AudioMetadataModel { artist: Some(s@), ..m },
                Some(StandardTag::Album) => AudioMetadataModel { album: Some(s@), ..m },
                Some(StandardTag::TrackTitle) => AudioMetadataModel { title: Some(s@), ..m },
                Some(StandardTag::Date) => AudioMetadataModel { year: Some(s@), ..m },
                Some(StandardTag::Genre) => AudioMetadataModel { genre: Some(s@), ..m },
                Some(StandardTag::TrackNumber) => AudioMetadataModel { track_number: Some(s@), ..m },
                Some(StandardTag::AlbumArtist) => AudioMetadataModel { album_artist: Some(s@), ..m },
                Some(StandardTag::Composer) => AudioMetadataModel { composer: Some(s@), ..m },
                Some(StandardTag::Comment) => AudioMetadataModel { comment: Some(s@), ..m },
                Some(StandardTag::Other(name)) => AudioMetadataModel {
                    other_tags: tag_insert(m.other_tags, name@, s@),
                    ..m
                },
                None => AudioMetadataModel { other_tags: tag_insert(m.other_tags, t.key@, s@), ..m },
            },
        },
    }
}

/// The metadata after the tags `ts`, in order, starting from `m`.
pub open spec fn tags_fold(m: AudioMetadataModel, ts: Seq<MetadataTag>) -> AudioMetadataModel
    decreases ts.len(),
{
    if ts.len() == 0 {
        m
    } else {
        tag_step(tags_fold(m, ts.drop_last()), ts.last())
    }
}

/// The metadata that the pictures `vs` and the tags `ts` make.
pub open spec fn metadata_of(vs: Seq<MetadataVisual>, ts: Seq<MetadataTag>) -> AudioMetadataModel {
    tags_fold(AudioMetadataModel { cover_art: cover_of(vs), ..empty_audio_metadata() }, ts)
}

/// Where `k` first occurs as a key: the position, the key there, and no
/// such key before it.
pub proof fn lemma_key_position(s: Seq<(Seq<char>, Seq<char>)>, k: Seq<char>)
    ensures
        0 <= key_position(s, k) <= s.len(),
        key_position(s, k) < s.len() ==> s[key_position(s, k)].0 == k,
        forall|j: int| 0 <= j < key_position(s, k) ==> #[trigger] s[j].0 != k,
    decreases s.len(),
{
    if s.len() > 0 && s[0].0 != k {
        lemma_key_position(s.drop_first(), k);
        assert forall|j: int| 0 <= j < key_position(s, k) implies #[trigger] s[j].0 != k by {
            if j > 0 {
                assert(s[j] == s.drop_first()[j - 1]);
            }
        }
    }
}

/// A position holding `k`, with no `k` before it, is the key's position.
pub proof fn lemma_key_position_at(s: Seq<(Seq<char>, Seq<char>)>, k: Seq<char>, i: int)
    requires
        0 <= i <= s.len(),
        i < s.len() ==> s[i].0 == k,
        forall|j: int| 0 <= j < i ==> #[trigger] s[j].0 != k,
    ensures
        key_position(s, k) == i,
{
    lemma_key_position(s, k);
    let p = key_position(s, k);
    if p < i {
        assert(s[p].0 == k);
    } else if i < p {
        assert(s[i].0 != k);
    }
}

/// Setting the value of a key keeps the keys distinct.
pub proof fn lemma_tag_insert_unique(s: Seq<(Seq<char>, Seq<char>)>, k: Seq<char>, v: Seq<char>)
    requires
        keys_unique(s),
    ensures
        keys_unique(tag_insert(s, k, v)),
{
    lemma_key_position(s, k);
    let t = tag_insert(s, k, v);
    let p = key_position(s, k);
    assert forall|i: int, j: int| 0 <= i < j < t.len() implies #[trigger] t[i].0 != #[trigger] t[j].0 by {
        if p < s.len() {
            assert(t[i].0 == s[i].0);
            assert(t[j].0 == s[j].0);
        } else {
            if j == s.len() {
                assert(t[i] == s[i]);
            } else {
                assert(t[i] == s[i] && t[j] == s[j]);
            }
        }
    }
}

/// Sets the value of `key` among `tags` (a map insertion).
fn insert_other_tag(tags: &mut Vec<(String, String)>, key: String, value: String)
    ensures
        pair_views(final(tags)@) == tag_insert(pair_views(old(tags)@), key@, value@),
{
    let ghost pv = pair_views(tags@);
    let mut i: usize = 0;
    while i < tags.len()
        invariant
            i <= tags@.len(),
            pv == pair_views(tags@),
            pv == pair_views(old(tags)@),
            forall|j: int| 0 <= j < i ==> #[trigger] pv[j].0 != key@,
        decreases tags@.len() - i,
    {
        assert(pv[i as int] == (tags@[i as int].0@, tags@[i as int].1@));
        if tags[i].0 == key {
            proof {
                lemma_key_position_at(pv, key@, i as int);
            }
            let ghost kv = key@;
            let ghost vv = value@;
            tags.set(i, (key, value));
            assert(pair_views(tags@) =~= pv.update(i as int, (kv, vv)));
            return ;
        }
        i += 1;
    }
    proof {
        lemma_key_position_at(pv, key@, tags@.len() as int);
    }
    let ghost kv = key@;
    let ghost vv = value@;
    tags.push((key, value));
    assert(pair_views(tags@) =~= pv.push((kv, vv)));
}

impl AudioMetadata {
    /// Whether a text looks like LRC lyrics: it holds `[` and `]`, and one
    /// of its lines starts (after whitespace) with `[` and holds `:` and `]`.
    pub fn is_lrc_content(content: &str) -> (r: bool)
        ensures
            r == lrc_like(content@),
    {
        let cs = chars_of(content);
        let open = find_char(&cs, '[', 0);
        let close = find_char(&cs, ']', 0);
        match open {
            Some(i) => {
                assert(cs@[i as int] == '[');
                assert(content@.contains('['));
            },
            None => {
                return false;
            },
        }
        match close {
            Some(i) => {
                assert(cs@[i as int] == ']');
                assert(content@.contains(']'));
            },
            None => {
                return false;
            },
        }
        let lines = split_lines(&cs);
        let ghost ls = seq_views(lines@);
        let mut i: usize = 0;
        while i < lines.len()
            invariant
                i <= lines@.len(),
                ls == seq_views(lines@),
                ls == lines_of(content@),
                content@.contains('[') && content@.contains(']'),
                forall|j: int| 0 <= j < i ==> !#[trigger] lrc_like_line(ls[j]),
            decreases lines@.len() - i,
        {
            if line_is_lrc_like(&lines[i]) {
                assert(lrc_like_line(ls[i as int]));
                assert(content@.contains('[') && content@.contains(']'));
                return true;
            }
            i += 1;
        }
        false
    }

    /// Lyrics of the given kind with no language or description.
    fn plain_lyrics(value: &str, kind: LyricsType) -> (r: EmbeddedLyrics)
        ensures
            r@ == plain_entry(value@, kind),
    {
        EmbeddedLyrics { content: value.to_owned(), language: None, description: None, lyrics_type: kind }
    }

    /// The lyrics held by a tag whose key, in uppercase, is `key_upper`:
    /// `USLT`, `LYRIC`, `LYRICS`, `UNSYNCEDLYRICS` give unsynchronised
    /// lyrics, `SYLT` synchronised ones, `©LYR` and `LYR` unsynchronised
    /// iTunes lyrics; under any other key a value that looks like LRC gives
    /// LRC lyrics described as coming from `key`.
    pub fn lyrics_for_tag(key_upper: &str, key: &str, value: &str) -> (r: Option<EmbeddedLyrics>)
        ensures
            opt_entry(r) == tag_lyrics(key_upper@, key@, value@),
    {
        if str_eq(key_upper, "USLT") {
            Some(Self::plain_lyrics(value, LyricsType::Unsynchronized))
        } else if str_eq(key_upper, "SYLT") {
            Some(Self::plain_lyrics(value, LyricsType::Synchronized))
        } else if str_eq(key_upper, "LYRIC") {
            Some(Self::plain_lyrics(value, LyricsType::Unsynchronized))
        } else if str_eq(key_upper, "©LYR") || str_eq(key_upper, "LYR") {
            Some(
                EmbeddedLyrics {
                    content: value.to_owned(),
                    language: None,
                    description: Some("iTunes Lyrics".to_owned()),
                    lyrics_type: LyricsType::Unsynchronized,
                },
            )
        } else if str_eq(key_upper, "LYRICS") || str_eq(key_upper, "UNSYNCEDLYRICS") {
            Some(Self::plain_lyrics(value, LyricsType::Unsynchronized))
        } else if Self::is_lrc_content(value) {
            let mut d = "LRC from ".to_owned();
            d.append(key);
            Some(
                EmbeddedLyrics {
                    content: value.to_owned(),
                    language: None,
                    description: Some(d),
                    lyrics_type: LyricsType::Lrc,
                },
            )
        } else {
            None
        }
    }

    /// The lyrics held by the tag `key` = `value`, if any; the key is
    /// matched in uppercase (see [`AudioMetadata::lyrics_for_tag`]), which
    /// for an ASCII key is its letters made uppercase.
    pub fn extract_lyrics_from_tag(key: &str, value: &str) -> (r: Option<EmbeddedLyrics>)
        ensures
            opt_entry(r) == tag_lyrics(uppercase_of(key@), key@, value@),
            all_ascii(key@) ==> opt_entry(r) == tag_lyrics(
                key@.map_values(|c: char| ascii_upper_char(c)),
                key@,
                value@,
            ),
    {
        let key_upper = to_upper(key);
        Self::lyrics_for_tag(key_upper.as_str(), key, value)
    }

    /// The metadata made from what the tag reader found: the cover is chosen
    /// among the pictures (see [`cover_step`]), then each tag is read in
    /// order (see [`tag_step`]). No key occurs twice among the other tags.
    pub fn from_symphonia_metadata(visuals: &[MetadataVisual], tags: &[MetadataTag]) -> (r:
        AudioMetadata)
        ensures
            r@ == metadata_of(visuals@, tags@),
            keys_unique(r@.other_tags),
    {
        let mut m = AudioMetadata::default();
        let mut i: usize = 0;
        while i < visuals.len()
            invariant
                i <= visuals@.len(),
                m@ == (AudioMetadataModel {
                    cover_art: cover_of(visuals@.take(i as int)),
                    ..empty_audio_metadata()
                }),
            decreases visuals@.len() - i,
        {
            assert(visuals@.take(i + 1).drop_last() =~= visuals@.take(i as int));
            let v = &visuals[i];
            let takes = match v.usage {
                Some(VisualUsage::FrontCover) => true,
                Some(VisualUsage::BackCover) => m.cover_art.is_none(),
                Some(VisualUsage::Other) => false,
                None => m.cover_art.is_none(),
            };
            if takes {
                let mime = if v.media_type.as_str().is_empty() {
                    detect_image_format(v.data.as_slice())
                } else {
                    v.media_type.clone()
                };
                if !mime.as_str().is_empty() {
                    let data = v.data.clone();
                    assert(data@ =~= v.data@);
                    m.cover_art = Some(CoverArt { data, mime_type: mime, description: None });
                }
            }
            i += 1;
        }
        assert(visuals@.take(visuals@.len() as int) =~= visuals@);
        let ghost base = m@;
        assert(pair_views(m.other_tags@) =~= Seq::empty());
        let mut k: usize = 0;
        while k < tags.len()
            invariant
                k <= tags@.len(),
                base == (AudioMetadataModel { cover_art: cover_of(visuals@), ..empty_audio_metadata() }),
                m@ == tags_fold(base, tags@.take(k as int)),
                keys_unique(m@.other_tags),
            decreases tags@.len() - k,
        {
            assert(tags@.take(k + 1).drop_last() =~= tags@.take(k as int));
            let t = &tags[k];
            let ghost before = m@;
            match &t.value {
                TagValue::Binary => {},
                TagValue::Text(s) => {
                    match Self::extract_lyrics_from_tag(t.key.as_str(), s.as_str()) {
                        Some(l) => {
                            let ghost lv = l@;
                            let ghost old_l = m.embedded_lyrics@;
                            m.embedded_lyrics.push(l);
                            assert(entry_views(m.embedded_lyrics@) =~= entry_views(old_l).push(lv));
                        },
                        None => {
                            match &t.std_key {
                                Some(StandardTag::Artist) => {
                                    m.artist = Some(s.clone());
                                },
                                Some(StandardTag::Album) => {
                                    m.album = Some(s.clone());
                                },
                                Some(StandardTag::TrackTitle) => {
                                    m.title = Some(s.clone());
                                },
                                Some(StandardTag::Date) => {
                                    m.year = Some(s.clone());
                                },
                                Some(StandardTag::Genre) => {
                                    m.genre = Some(s.clone());
                                },
                                Some(StandardTag::TrackNumber) => {
                                    m.track_number = Some(s.clone());
                                },
                                Some(StandardTag::AlbumArtist) => {
                                    m.album_artist = Some(s.clone());
                                },
                                Some(StandardTag::Composer) => {
                                    m.composer = Some(s.clone());
                                },
                                Some(StandardTag::Comment) => {
                                    m.comment = Some(s.clone());
                                },
                                Some(StandardTag::Other(name)) => {
                                    proof {
                                        lemma_tag_insert_unique(before.other_tags, name@, s@);
                                    }
                                    insert_other_tag(&mut m.other_tags, name.clone(), s.clone());
                                },
                                None => {
                                    proof {
                                        lemma_tag_insert_unique(before.other_tags, t.key@, s@);
                                    }
                                    insert_other_tag(&mut m.other_tags, t.key.clone(), s.clone());
                                },
                            }
                        },
                    }
                },
            }
            assert(m@ == tag_step(before, tags@[k as int]));
            k += 1;
        }
        assert(tags@.take(tags@.len() as int) =~= tags@);
        m
    }

}

// ---------------------------------------------------------------------------
// Duration
// ---------------------------------------------------------------------------

/// Where the duration of a track comes from.
#[derive(Debug, Clone, Copy, PartialEq, Eq, Structural)]
pub enum DurationSource {
    /// `frames` frames at `sample_rate` frames per second.
    Frames { frames: u64, sample_rate: u32 },
    /// The timestamp `ts` in units of `numer / denom` seconds.
    Timestamp { ts: u64, numer: u32, denom: u32 },
}

/// Where the duration of a track comes from, given its number of frames,
/// its sample rate, its time base (numerator, denominator) and its start
/// timestamp: the frame count when it is known and positive; else the
/// timestamp times the time base, when both are positive; else nowhere.
pub open spec fn duration_source_of(
    n_frames: Option<u64>,
    sample_rate: u32,
    time_base: Option<(u32, u32)>,
    start_ts: u64,
) -> Option<DurationSource> {
    match n_frames {
        Some(frames) if frames > 0 => Some(DurationSource::Frames { frames, sample_rate }),
        _ => match time_base {
            Some((numer, denom)) if start_ts > 0 && numer > 0 => Some(
                DurationSource::Timestamp { ts: start_ts, numer, denom },
            ),
            _ => None,
        },
    }
}

/// Where the duration of a track comes from (see [`duration_source_of`]).
pub fn duration_source(
    n_frames: Option<u64>,
    sample_rate: u32,
    time_base: Option<(u32, u32)>,
    start_ts: u64,
) -> (r: Option<DurationSource>)
    ensures
        r == duration_source_of(n_frames, sample_rate, time_base, start_ts),
{
    if let Some(frames) = n_frames {
        if frames > 0 {
            return Some(DurationSource::Frames { frames, sample_rate });
        }
    }
    if let Some((numer, denom)) = time_base {
        if start_ts > 0 && numer > 0 {
            return Some(DurationSource::Timestamp { ts: start_ts, numer, denom });
        }
    }
    None
}

/// Reading one more text tag that holds no lyrics fills, when its key has
/// a standard meaning, the field of that meaning with the tag's text (an
/// album tag the album, an album-artist tag the album artist, and so on),
/// and leaves every other field, the cover and the lyrics as they were.
pub proof fn lemma_standard_tag_fills_its_field(
    vs: Seq<MetadataVisual>,
    ts: Seq<MetadataTag>,
    t: MetadataTag,
    text: String,
)
    requires
        t.value == TagValue::Text(text),
        tag_lyrics(uppercase_of(t.key@), t.key@, text@) is None,
    ensures
        ({
            let before = metadata_of(vs, ts);
            let after = metadata_of(vs, ts.push(t));
            &&& after.artist == (if t.std_key matches Some(StandardTag::Artist) {
                Some(text@)
            } else {
                before.artist
            })
            &&& after.album == (if t.std_key matches Some(StandardTag::Album) {
                Some(text@)
            } else {
                before.album
            })
            &&& after.title == (if t.std_key matches Some(StandardTag::TrackTitle) {
                Some(text@)
            } else {
                before.title
            })
            &&& after.year == (if t.std_key matches Some(StandardTag::Date) {
                Some(text@)
            } else {
                before.year
            })
            &&& after.genre == (if t.std_key matches Some(StandardTag::Genre) {
                Some(text@)
            } else {
                before.genre
            })
            &&& after.track_number == (if t.std_key matches Some(StandardTag::TrackNumber) {
                Some(text@)
            } else {
                before.track_number
            })
            &&& after.album_artist == (if t.std_key matches Some(StandardTag::AlbumArtist) {
                Some(text@)
            } else {
                before.album_artist
            })
            &&& after.composer == (if t.std_key matches Some(StandardTag::Composer) {
                Some(text@)
            } else {
                before.composer
            })
            &&& after.comment == (if t.std_key matches Some(StandardTag::Comment) {
                Some(text@)
            } else {
                before.comment
            })
            &&& after.cover_art == before.cover_art
            &&& after.embedded_lyrics == before.embedded_lyrics
        }),
{
    assert(ts.push(t).drop_last() =~= ts);
}

} // verus!
