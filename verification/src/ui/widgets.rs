//! The kinds and colours of the application's buttons and containers.

use vstd::prelude::*;
use crate::text::{chars_of, slice_chars, string_of};
use crate::utils::{final_segment, name_stem, occurs_in, path_file_stem, plain_file_path};

verus! {

/// The kind of a button (after Ant Design).
#[derive(Debug, Clone, Copy, PartialEq, Eq, Structural)]
pub enum ButtonType {
    Primary,
    Dashed,
    Link,
    Text,
    Default,
}

impl Default for ButtonType {
    fn default() -> (r: Self)
        ensures
            r == ButtonType::Default,
    {
        ButtonType::Default
    }
}

/// A preset colour (after Ant Design).
#[derive(Debug, Clone, Copy, PartialEq, Eq, Structural)]
pub enum PresetColor {
    Magenta,
    Red,
    Volcano,
    Orange,
    Gold,
    Lime,
    Green,
    Cyan,
    Blue,
    GeekBlue,
    Purple,
}

/// The colour of a button (after Ant Design).
#[derive(Debug, Clone, Copy, PartialEq, Eq, Structural)]
pub enum ButtonColor {
    Default,
    Primary,
    Danger,
    Preset(PresetColor),
}

impl Default for ButtonColor {
    fn default() -> (r: Self)
        ensures
            r == ButtonColor::Default,
    {
        ButtonColor::Default
    }
}

/// The style of a container.
#[derive(Debug, Clone, Copy, PartialEq, Eq, Structural)]
pub enum ContainerStyle {
    /// A main area: shadow and rounded corners.
    MainSection,
    /// A card: a lighter shadow and rounded corners.
    Card,
    /// A page background: no border, no shadow.
    Background,
    /// Content that stands out.
    Emphasis,
    /// A decoration.
    Decorative,
    /// Layout only: nothing drawn.
    Transparent,
}

// ---------------------------------------------------------------------------
// Playlist cards
// ---------------------------------------------------------------------------

/// The name on a playlist card, from the name without its extension: cut to
/// fifteen characters and an ellipsis when it is longer than eighteen.
pub open spec fn card_name(stem: Seq<char>) -> Seq<char> {
    if stem.len() > 18 {
        stem.take(15) + "..."@
    } else {
        stem
    }
}

/// The name on a playlist card for a name without its extension (see
/// [`card_name`]).
pub fn card_name_text(stem: &str) -> (r: String)
    ensures
        r@ == card_name(stem@),
{
    let cs = chars_of(stem);
    if cs.len() > 18 {
        let head = slice_chars(&cs, 0, 15);
        let mut r = string_of(&head);
        r.append("...");
        assert(head@ =~= stem@.take(15));
        r
    } else {
        stem.to_owned()
    }
}

/// The name on the card of the playlist named `name`: its file stem (the
/// name itself when it has none), cut as [`card_name`] says. For a plain
/// name (see [`plain_file_path`]) the stem is that of its last segment.
pub fn playlist_card_name(name: &str) -> (r: String)
    ensures
        exists|stem: Seq<char>|
            (stem == name@ || (occurs_in(name@, stem) && (!name@.contains('\\') ==> !stem.contains('/'))))
                && r@ == #[trigger] card_name(stem),
        name@.len() == 0 ==> r@ == card_name(name@),
        plain_file_path(name@) ==> r@ == card_name(name_stem(final_segment(name@))),
{
    match path_file_stem(name) {
        Some(stem) => card_name_text(stem.as_str()),
        None => card_name_text(name),
    }
}

/// The key of the word that follows the number of songs on a card: `song`
/// for one, `songs` otherwise.
pub fn song_count_key(count: usize) -> (r: &'static str)
    ensures
        r@ == (if count == 1 {
            "song"@
        } else {
            "songs"@
        }),
{
    if count == 1 {
        "song"
    } else {
        "songs"
    }
}

} // verus!
