//! The state that the user interface keeps: pages, views and play modes,
//! and the rules for laying out lyrics and long texts.

use vstd::prelude::*;
use vstd::std_specs::convert::FromSpecImpl;
use crate::text::{chars_of, slice_chars, str_eq, string_of, trim, trim_chars};
use crate::ui::icons;
use crate::playlist::PlaylistModel;
use crate::playlist::manager::PlaylistManager;

verus! {

// ---------------------------------------------------------------------------
// Pages and views
// ---------------------------------------------------------------------------

/// A page of the application.
#[derive(Debug, Clone, Copy, PartialEq, Eq, Structural)]
pub enum PageType {
    Home,
    Settings,
    Id3Tag,
    Lyrics,
}

impl Default for PageType {
    fn default() -> (r: Self)
        ensures
            r == PageType::Home,
    {
        PageType::Home
    }
}

/// What the main area shows.
#[derive(Debug, Clone, Copy, PartialEq, Eq, Structural)]
pub enum ViewType {
    Playlist,
    Lyrics,
}

impl Default for ViewType {
    fn default() -> (r: Self)
        ensures
            r == ViewType::Playlist,
    {
        ViewType::Playlist
    }
}

/// The name under which a page is saved in the configuration.
pub open spec fn page_name(p: PageType) -> Seq<char> {
    match p {
        PageType::Home => "Home"@,
        PageType::Settings => "Settings"@,
        PageType::Id3Tag => "Id3Tag"@,
        PageType::Lyrics => "Lyrics"@,
    }
}

/// The page that a saved name stands for: the settings page for
/// `Settings`, the home page for anything else.
pub open spec fn page_from_name(s: Seq<char>) -> PageType {
    if s == "Settings"@ {
        PageType::Settings
    } else {
        PageType::Home
    }
}

/// The name under which a view is saved in the configuration.
pub open spec fn view_name(v: ViewType) -> Seq<char> {
    match v {
        ViewType::Playlist => "Playlist"@,
        ViewType::Lyrics => "Lyrics"@,
    }
}

/// The view that a saved name stands for: lyrics for `Lyrics`, the
/// playlist for anything else.
pub open spec fn view_from_name(s: Seq<char>) -> ViewType {
    if s == "Lyrics"@ {
        ViewType::Lyrics
    } else {
        ViewType::Playlist
    }
}

impl PageType {
    /// The name under which the page is saved in the configuration.
    pub fn config_name(&self) -> (r: String)
        ensures
            r@ == page_name(*self),
    {
        match self {
            PageType::Home => "Home".to_owned(),
            PageType::Settings => "Settings".to_owned(),
            PageType::Id3Tag => "Id3Tag".to_owned(),
            PageType::Lyrics => "Lyrics".to_owned(),
        }
    }

    /// The page that a saved name stands for (see [`page_from_name`]).
    pub fn from_config_name(s: &str) -> (r: PageType)
        ensures
            r == page_from_name(s@),
    {
        if str_eq(s, "Settings") {
            PageType::Settings
        } else {
            PageType::Home
        }
    }
}

impl From<String> for PageType {
    fn from(s: String) -> (r: PageType) {
        PageType::from_config_name(s.as_str())
    }
}

impl FromSpecImpl<String> for PageType {
    open spec fn obeys_from_spec() -> bool {
        true
    }

    open spec fn from_spec(v: String) -> PageType {
        page_from_name(v@)
    }
}

impl ViewType {
    /// The name under which the view is saved in the configuration.
    pub fn config_name(&self) -> (r: String)
        ensures
            r@ == view_name(*self),
    {
        match self {
            ViewType::Playlist => "Playlist".to_owned(),
            ViewType::Lyrics => "Lyrics".to_owned(),
        }
    }

    /// The view that a saved name stands for (see [`view_from_name`]).
    pub fn from_config_name(s: &str) -> (r: ViewType)
        ensures
            r == view_from_name(s@),
    {
        if str_eq(s, "Lyrics") {
            ViewType::Lyrics
        } else {
            ViewType::Playlist
        }
    }

    /// The other view.
    pub fn toggle(&self) -> (r: ViewType)
        ensures
            r != *self,
    {
        match self {
            ViewType::Playlist => ViewType::Lyrics,
            ViewType::Lyrics => ViewType::Playlist,
        }
    }
}

impl From<String> for ViewType {
    fn from(s: String) -> (r: ViewType) {
        ViewType::from_config_name(s.as_str())
    }
}

impl FromSpecImpl<String> for ViewType {
    open spec fn obeys_from_spec() -> bool {
        true
    }

    open spec fn from_spec(v: String) -> ViewType {
        view_from_name(v@)
    }
}

/// A page that is saved under its name is read back as itself; of the
/// pages, the home and settings pages are the ones that are restored.
pub proof fn lemma_page_name_round_trip(p: PageType)
    requires
        p == PageType::Home || p == PageType::Settings,
    ensures
        page_from_name(page_name(p)) == p,
{
    reveal_strlit("Home");
    reveal_strlit("Settings");
    assert("Home"@[0] != "Settings"@[0]);
}

/// A view that is saved under its name is read back as itself.
pub proof fn lemma_view_name_round_trip(v: ViewType)
    ensures
        view_from_name(view_name(v)) == v,
{
    reveal_strlit("Playlist");
    reveal_strlit("Lyrics");
    assert("Playlist"@[0] != "Lyrics"@[0]);
}

// ---------------------------------------------------------------------------
// Play modes
// ---------------------------------------------------------------------------

/// How the next song is chosen.
#[derive(Debug, Clone, Copy, PartialEq, Eq, Structural)]
pub enum PlayMode {
    /// Play the list in order and start again at the end.
    ListLoop,
    /// Repeat the current song.
    SingleLoop,
    /// Pick a random song.
    Random,
}

impl Default for PlayMode {
    fn default() -> (r: Self)
        ensures
            r == PlayMode::ListLoop,
    {
        PlayMode::ListLoop
    }
}

/// The mode that follows a mode when the user cycles through them.
pub open spec fn next_mode(m: PlayMode) -> PlayMode {
    match m {
        PlayMode::ListLoop => PlayMode::SingleLoop,
        PlayMode::SingleLoop => PlayMode::Random,
        PlayMode::Random => PlayMode::ListLoop,
    }
}

/// The icon of a mode.
pub open spec fn mode_icon(m: PlayMode) -> Seq<char> {
    match m {
        PlayMode::ListLoop => icons::LIST_LOOP@,
        PlayMode::SingleLoop => icons::SINGLE_LOOP@,
        PlayMode::Random => icons::RANDOM_PLAY@,
    }
}

impl PlayMode {
    /// The icon (an SVG document) that stands for the mode.
    pub fn icon(&self) -> (r: &'static str)
        ensures
            r@ == mode_icon(*self),
    {
        match self {
            PlayMode::ListLoop => icons::LIST_LOOP,
            PlayMode::SingleLoop => icons::SINGLE_LOOP,
            PlayMode::Random => icons::RANDOM_PLAY,
        }
    }

    /// The mode that follows this one: list loop, single loop, random, and
    /// back to list loop.
    pub fn next(&self) -> (r: PlayMode)
        ensures
            r == next_mode(*self),
    {
        match self {
            PlayMode::ListLoop => PlayMode::SingleLoop,
            PlayMode::SingleLoop => PlayMode::Random,
            PlayMode::Random => PlayMode::ListLoop,
        }
    }
}

/// Cycling through the modes three times comes back to the start, and no
/// fewer steps do.
pub proof fn lemma_next_mode_cycle(m: PlayMode)
    ensures
        next_mode(next_mode(next_mode(m))) == m,
        next_mode(m) != m,
        next_mode(next_mode(m)) != m,
{
}

// ---------------------------------------------------------------------------
// Layout
// ---------------------------------------------------------------------------

/// The number of lyrics lines to show, given how many lines the lyrics have
/// and how many fit in the window: seven when there are none; otherwise
/// between seven and nine for up to five lines, between nine and fifteen for
/// up to fifteen, between eleven and twenty-five beyond, as many as fit
/// within those bounds; always odd, so that the current line is centred.
pub open spec fn display_lines(total: int, fit: int) -> int {
    let adjusted = if total == 0 {
        7
    } else if total <= 5 {
        clamp(fit, 7, 9)
    } else if total <= 15 {
        clamp(fit, 9, 15)
    } else {
        clamp(fit, 11, 25)
    };
    let bounded = clamp(adjusted, 5, 25);
    if bounded % 2 == 0 {
        bounded + 1
    } else {
        bounded
    }
}

/// `x` held within `[lo, hi]`.
pub open spec fn clamp(x: int, lo: int, hi: int) -> int {
    if x < lo {
        lo
    } else if x > hi {
        hi
    } else {
        x
    }
}

/// The number of lyrics lines to show (see [`display_lines`]); `fit` is the
/// number of lines of the standard height that the window has room for.
pub fn calculate_display_lines(total_lyrics: usize, fit: usize) -> (r: usize)
    ensures
        r == display_lines(total_lyrics as int, fit as int),
        5 <= r <= 25,
        r % 2 == 1,
{
    let adjusted: usize = if total_lyrics == 0 {
        7
    } else if total_lyrics <= 5 {
        let at_least = if fit > 7 { fit } else { 7 };
        if at_least < 9 { at_least } else { 9 }
    } else if total_lyrics <= 15 {
        let at_least = if fit > 9 { fit } else { 9 };
        if at_least < 15 { at_least } else { 15 }
    } else {
        let at_least = if fit > 11 { fit } else { 11 };
        if at_least < 25 { at_least } else { 25 }
    };
    let bounded: usize = if adjusted < 5 {
        5
    } else if adjusted > 25 {
        25
    } else {
        adjusted
    };
    if bounded % 2 == 0 {
        bounded + 1
    } else {
        bounded
    }
}

/// A text cut to `max_len` characters, with `...` after it, when it is
/// longer; the text itself otherwise.
pub open spec fn truncated(full: Seq<char>, max_len: int) -> Seq<char> {
    if full.len() > max_len {
        full.take(max_len) + "..."@
    } else {
        full
    }
}

/// The text to show for `full_text` in at most `max_len` characters (plus
/// an ellipsis), and whether it was cut (then the full text is shown on
/// hover).
pub fn truncate_text(full_text: &str, max_len: usize) -> (r: (String, bool))
    ensures
        r.0@ == truncated(full_text@, max_len as int),
        r.1 == (full_text@.len() > max_len),
{
    let cs = chars_of(full_text);
    if cs.len() > max_len {
        let head = slice_chars(&cs, 0, max_len);
        let mut s = string_of(&head);
        s.append("...");
        assert(head@ =~= full_text@.take(max_len as int));
        (s, true)
    } else {
        (full_text.to_owned(), false)
    }
}

// ---------------------------------------------------------------------------
// The list of playlists
// ---------------------------------------------------------------------------

/// What the playlist page shows of a playlist file.
#[derive(Debug)]
pub struct PlaylistFileInfo {
    /// The path of the playlist file.
    pub path: String,
    /// The playlist's name.
    pub name: String,
    /// The number of songs in it.
    pub song_count: usize,
}

impl View for PlaylistFileInfo {
    type V = (Seq<char>, Seq<char>, usize);

    open spec fn view(&self) -> (Seq<char>, Seq<char>, usize) {
        (self.path@, self.name@, self.song_count)
    }
}

/// Whether `a` comes before `b` in the order of strings: by code point,
/// character by character, a proper beginning first (the order in which
/// `String` compares, since UTF-8 keeps the order of code points).
pub open spec fn name_lt(a: Seq<char>, b: Seq<char>) -> bool
    decreases a.len(),
{
    if a.len() == 0 {
        b.len() > 0
    } else if b.len() == 0 {
        false
    } else if a[0] != b[0] {
        (a[0] as int) < (b[0] as int)
    } else {
        name_lt(a.drop_first(), b.drop_first())
    }
}

/// Whether `a` does not come after `b`.
pub open spec fn name_le(a: Seq<char>, b: Seq<char>) -> bool {
    !name_lt(b, a)
}

/// The position at which `x` goes into `s`: before the first entry whose
/// name comes after its own.
pub open spec fn insert_position(s: Seq<(Seq<char>, Seq<char>, usize)>, x: (Seq<char>, Seq<char>, usize)) -> int
    decreases s.len(),
{
    if s.len() == 0 {
        0
    } else if name_lt(x.1, s[0].1) {
        0
    } else {
        1 + insert_position(s.drop_first(), x)
    }
}

/// The entries sorted by name, entries of the same name in the order they
/// came in (a stable sort).
pub open spec fn sorted_by_name(s: Seq<(Seq<char>, Seq<char>, usize)>) -> Seq<(Seq<char>, Seq<char>, usize)>
    decreases s.len(),
{
    if s.len() == 0 {
        s
    } else {
        let t = sorted_by_name(s.drop_last());
        t.insert(insert_position(t, s.last()), s.last())
    }
}

/// Whether the entries are in order of name.
pub open spec fn names_ordered(s: Seq<(Seq<char>, Seq<char>, usize)>) -> bool {
    forall|i: int, j: int| 0 <= i < j < s.len() ==> name_le(#[trigger] s[i].1, #[trigger] s[j].1)
}

/// The views of the entries.
pub open spec fn info_views(s: Seq<PlaylistFileInfo>) -> Seq<(Seq<char>, Seq<char>, usize)> {
    s.map_values(|x: PlaylistFileInfo| x@)
}

/// No name comes before itself.
pub proof fn lemma_name_lt_irreflexive(a: Seq<char>)
    ensures
        !name_lt(a, a),
    decreases a.len(),
{
    if a.len() > 0 {
        lemma_name_lt_irreflexive(a.drop_first());
    }
}

/// Of two different names exactly one comes first.
pub proof fn lemma_name_lt_total(a: Seq<char>, b: Seq<char>)
    ensures
        !(name_lt(a, b) && name_lt(b, a)),
        name_lt(a, b) || name_lt(b, a) || a == b,
    decreases a.len(),
{
    if a.len() > 0 && b.len() > 0 {
        lemma_name_lt_total(a.drop_first(), b.drop_first());
        if a[0] != b[0] {
            assert(a[0] as int != b[0] as int);
        }
        if a[0] == b[0] && a.drop_first() == b.drop_first() {
            assert(a =~= seq![a[0]] + a.drop_first());
            assert(b =~= seq![b[0]] + b.drop_first());
        }
    }
    if a.len() == 0 && b.len() == 0 {
        assert(a =~= b);
    }
}

/// The order of names is transitive.
pub proof fn lemma_name_lt_transitive(a: Seq<char>, b: Seq<char>, c: Seq<char>)
    requires
        name_lt(a, b),
        name_lt(b, c),
    ensures
        name_lt(a, c),
    decreases a.len(),
{
    if a.len() > 0 && b.len() > 0 && c.len() > 0 && a[0] == b[0] && b[0] == c[0] {
        lemma_name_lt_transitive(a.drop_first(), b.drop_first(), c.drop_first());
    }
}

/// `name_lt` is the strict order of a total order.
pub proof fn lemma_name_order(a: Seq<char>, b: Seq<char>, c: Seq<char>)
    ensures
        !(name_lt(a, b) && name_lt(b, a)),
        !name_lt(a, a),
        name_lt(a, b) || name_lt(b, a) || a == b,
        name_lt(a, b) && name_lt(b, c) ==> name_lt(a, c),
{
    lemma_name_lt_irreflexive(a);
    lemma_name_lt_total(a, b);
    if name_lt(a, b) && name_lt(b, c) {
        lemma_name_lt_transitive(a, b, c);
    }
}

/// The position at which an entry goes in keeps the order: the names
/// before it do not come after its own, the names from it on come after.
proof fn lemma_insert_position(s: Seq<(Seq<char>, Seq<char>, usize)>, x: (Seq<char>, Seq<char>, usize))
    requires
        names_ordered(s),
    ensures
        0 <= insert_position(s, x) <= s.len(),
        forall|i: int| 0 <= i < insert_position(s, x) ==> name_le(#[trigger] s[i].1, x.1),
        forall|i: int| insert_position(s, x) <= i < s.len() ==> name_lt(x.1, #[trigger] s[i].1),
    decreases s.len(),
{
    if s.len() > 0 {
        let t = s.drop_first();
        assert(names_ordered(t)) by {
            assert forall|i: int, j: int| 0 <= i < j < t.len() implies name_le(#[trigger] t[i].1, #[trigger] t[j].1) by {
                assert(t[i] == s[i + 1] && t[j] == s[j + 1]);
            }
        }
        lemma_insert_position(t, x);
        if name_lt(x.1, s[0].1) {
            assert forall|i: int| 0 <= i < s.len() implies name_lt(x.1, #[trigger] s[i].1) by {
                if i > 0 {
                    assert(name_le(s[0].1, s[i].1));
                    lemma_name_order(x.1, s[0].1, s[i].1);
                    lemma_name_order(s[0].1, s[i].1, s[i].1);
                    if s[0].1 == s[i].1 {
                    } else {
                        assert(name_lt(s[0].1, s[i].1));
                    }
                }
            }
        } else {
            assert forall|i: int| 0 <= i < insert_position(s, x) implies name_le(#[trigger] s[i].1, x.1) by {
                if i > 0 {
                    assert(s[i] == t[i - 1]);
                }
            }
            assert forall|i: int| insert_position(s, x) <= i < s.len() implies name_lt(x.1, #[trigger] s[i].1) by {
                assert(s[i] == t[i - 1]);
            }
        }
    }
}

/// Sorting by name orders the entries, keeps their number and keeps the
/// entries themselves.
pub proof fn lemma_sorted_by_name(s: Seq<(Seq<char>, Seq<char>, usize)>)
    ensures
        names_ordered(sorted_by_name(s)),
        sorted_by_name(s).len() == s.len(),
        sorted_by_name(s).to_multiset() == s.to_multiset(),
    decreases s.len(),
{
    if s.len() > 0 {
        let t = sorted_by_name(s.drop_last());
        let x = s.last();
        lemma_sorted_by_name(s.drop_last());
        lemma_insert_position(t, x);
        let p = insert_position(t, x);
        let u = t.insert(p, x);
        assert forall|i: int, j: int| 0 <= i < j < u.len() implies name_le(#[trigger] u[i].1, #[trigger] u[j].1) by {
            if j < p {
                assert(u[i] == t[i] && u[j] == t[j]);
            } else if j == p {
                assert(u[i] == t[i]);
            } else if i < p {
                assert(u[i] == t[i] && u[j] == t[j - 1]);
                lemma_name_order(u[i].1, x.1, u[j].1);
                lemma_name_order(x.1, u[j].1, u[j].1);
                assert(name_lt(x.1, u[j].1));
                if name_lt(u[j].1, u[i].1) {
                    lemma_name_order(u[j].1, u[i].1, x.1);
                    lemma_name_order(x.1, u[j].1, u[i].1);
                    if u[i].1 == x.1 {
                    } else {
                        assert(name_lt(u[i].1, x.1));
                        lemma_name_order(u[i].1, x.1, u[j].1);
                    }
                }
            } else if i == p {
                assert(u[j] == t[j - 1]);
                lemma_name_order(x.1, u[j].1, u[j].1);
            } else {
                assert(u[i] == t[i - 1] && u[j] == t[j - 1]);
            }
        }
        vstd::seq_lib::to_multiset_insert(t, p, x);
        assert(s =~= s.drop_last().push(x));
        vstd::seq_lib::to_multiset_build(s.drop_last(), x);
    }
}

impl Clone for PlaylistFileInfo {
    fn clone(&self) -> (r: Self)
        ensures
            r@ == self@,
    {
        PlaylistFileInfo { path: self.path.clone(), name: self.name.clone(), song_count: self.song_count }
    }
}

/// Whether name `a` comes before name `b` (see [`name_lt`]).
pub fn name_less(a: &str, b: &str) -> (r: bool)
    ensures
        r == name_lt(a@, b@),
{
    let xs = chars_of(a);
    let ys = chars_of(b);
    let mut i: usize = 0;
    assert(a@.skip(0) =~= a@ && b@.skip(0) =~= b@);
    while i < xs.len() && i < ys.len()
        invariant
            i <= xs@.len(),
            i <= ys@.len(),
            xs@ == a@,
            ys@ == b@,
            forall|j: int| 0 <= j < i ==> xs@[j] == ys@[j],
            name_lt(a@, b@) == name_lt(a@.skip(i as int), b@.skip(i as int)),
        decreases xs@.len() - i,
    {
        let x = xs[i];
        let y = ys[i];
        assert(a@.skip(i as int)[0] == x && b@.skip(i as int)[0] == y);
        if x != y {
            return x < y;
        }
        assert(a@.skip(i as int).drop_first() =~= a@.skip(i + 1));
        assert(b@.skip(i as int).drop_first() =~= b@.skip(i + 1));
        i += 1;
    }
    i == xs.len() && i < ys.len()
}

/// The position found by scanning for the first name after `x`'s is where
/// `x` goes in.
proof fn lemma_insert_position_at(s: Seq<(Seq<char>, Seq<char>, usize)>, x: (Seq<char>, Seq<char>, usize), j: int)
    requires
        0 <= j <= s.len(),
        forall|k: int| 0 <= k < j ==> !name_lt(x.1, #[trigger] s[k].1),
        j < s.len() ==> name_lt(x.1, s[j].1),
    ensures
        insert_position(s, x) == j,
    decreases j,
{
    if j > 0 {
        let t = s.drop_first();
        assert forall|k: int| 0 <= k < j - 1 implies !name_lt(x.1, #[trigger] t[k].1) by {
            assert(t[k] == s[k + 1]);
        }
        if j - 1 < t.len() {
            assert(t[j - 1] == s[j]);
        }
        lemma_insert_position_at(t, x, j - 1);
        assert(!name_lt(x.1, s[0].1));
    }
}

/// The entries sorted by name, entries of the same name in the order they
/// came in (see [`sorted_by_name`]).
pub fn sort_playlist_infos(v: Vec<PlaylistFileInfo>) -> (r: Vec<PlaylistFileInfo>)
    ensures
        info_views(r@) == sorted_by_name(info_views(v@)),
{
    let ghost vv = info_views(v@);
    let mut out: Vec<PlaylistFileInfo> = Vec::new();
    let mut i: usize = 0;
    assert(vv.take(0) =~= Seq::<(Seq<char>, Seq<char>, usize)>::empty());
    while i < v.len()
        invariant
            i <= v@.len(),
            vv == info_views(v@),
            info_views(out@) == sorted_by_name(vv.take(i as int)),
        decreases v@.len() - i,
    {
        let x = v[i].clone();
        assert(vv.take(i + 1).drop_last() =~= vv.take(i as int));
        assert(vv.take(i + 1).last() == x@);
        let ghost ov = info_views(out@);
        let mut j: usize = 0;
        while j < out.len() && !name_less(x.name.as_str(), out[j].name.as_str())
            invariant
                j <= out@.len(),
                ov == info_views(out@),
                forall|k: int| 0 <= k < j ==> !name_lt(x@.1, #[trigger] ov[k].1),
            decreases out@.len() - j,
        {
            assert(ov[j as int] == out@[j as int]@);
            j += 1;
        }
        proof {
            if j < out@.len() {
                assert(ov[j as int] == out@[j as int]@);
            }
            lemma_insert_position_at(ov, x@, j as int);
        }
        let ghost xv = x@;
        out.insert(j, x);
        assert(info_views(out@) =~= ov.insert(j as int, xv));
        i += 1;
    }
    assert(vv.take(v@.len() as int) =~= vv);
    out
}

/// The name shown for a playlist.
pub open spec fn shown_name(name: Option<Seq<char>>) -> Seq<char> {
    match name {
        Some(n) => n,
        None => "Unknown Playlist"@,
    }
}

/// Whether `u` lists the persistent playlists of `m` that have a file of
/// their own, each once, with its path, shown name and number of songs.
pub open spec fn lists_playlist_files(u: Seq<(Seq<char>, Seq<char>, usize)>, m: Map<Seq<char>, PlaylistModel>) -> bool {
    &&& forall|i: int|
        0 <= i < u.len() ==> {
            &&& m.contains_key(#[trigger] u[i].0)
            &&& m[u[i].0].file_path is Some
            &&& u[i].1 == shown_name(m[u[i].0].name)
            &&& u[i].2 == m[u[i].0].files.len()
        }
    &&& forall|i: int, j: int| 0 <= i < j < u.len() ==> #[trigger] u[i].0 != #[trigger] u[j].0
    &&& forall|k: Seq<char>|
        m.contains_key(k) && m[k].file_path is Some ==> exists|i: int| 0 <= i < u.len() && #[trigger] u[i].0 == k
}

/// The playlist files that the manager holds (not the temporary
/// playlists), sorted by name.
pub fn get_playlist_files_info_from_manager(playlist_manager: &PlaylistManager) -> (r: Vec<PlaylistFileInfo>)
    requires
        playlist_manager.wf(),
    ensures
        exists|u: Seq<(Seq<char>, Seq<char>, usize)>|
            lists_playlist_files(u, playlist_manager@.playlists) && #[trigger] sorted_by_name(u) == info_views(r@),
{
    let pairs = playlist_manager.get_persistent_playlists_with_paths();
    let ghost m = playlist_manager@.playlists;
    let mut infos: Vec<PlaylistFileInfo> = Vec::new();
    let ghost mut idx: Seq<int> = Seq::empty();
    let mut i: usize = 0;
    while i < pairs.len()
        invariant
            i <= pairs@.len(),
            m == playlist_manager@.playlists,
            pairs@.len() == m.len(),
            forall|a: int| 0 <= a < pairs@.len() ==> m.contains_key(#[trigger] pairs@[a].0@) && m[pairs@[a].0@] == pairs@[a].1@,
            forall|a: int, b: int| 0 <= a < b < pairs@.len() ==> #[trigger] pairs@[a].0@ != #[trigger] pairs@[b].0@,
            idx.len() == infos@.len(),
            forall|a: int| 0 <= a < idx.len() ==> 0 <= #[trigger] idx[a] < i && info_views(infos@)[a].0 == pairs@[idx[a]].0@,
            forall|a: int, b: int| 0 <= a < b < idx.len() ==> #[trigger] idx[a] < #[trigger] idx[b],
            forall|a: int|
                0 <= a < infos@.len() ==> {
                    &&& m.contains_key(#[trigger] info_views(infos@)[a].0)
                    &&& m[info_views(infos@)[a].0].file_path is Some
                    &&& info_views(infos@)[a].1 == shown_name(m[info_views(infos@)[a].0].name)
                    &&& info_views(infos@)[a].2 == m[info_views(infos@)[a].0].files.len()
                },
            forall|b: int|
                0 <= b < i && (#[trigger] pairs@[b]).1@.file_path is Some ==> exists|a: int|
                    0 <= a < idx.len() && #[trigger] idx[a] == b,
        decreases pairs@.len() - i,
    {
        let (path, playlist) = pairs[i];
        if !playlist.is_temporary() {
            let name = match playlist.name() {
                Some(n) => n.to_owned(),
                None => "Unknown Playlist".to_owned(),
            };
            let info = PlaylistFileInfo { path: path.to_owned(), name, song_count: playlist.len() };
            let ghost old_infos = info_views(infos@);
            let ghost old_idx = idx;
            infos.push(info);
            proof {
                idx = idx.push(i as int);
                assert(info_views(infos@) =~= old_infos.push(info@));
                assert forall|b: int|
                    0 <= b < i + 1 && (#[trigger] pairs@[b]).1@.file_path is Some implies exists|a: int|
                        0 <= a < idx.len() && #[trigger] idx[a] == b by {
                    if b < i {
                        let a = choose|a: int| 0 <= a < old_idx.len() && #[trigger] old_idx[a] == b;
                        assert(idx[a] == b);
                    } else {
                        assert(idx[idx.len() - 1] == b);
                    }
                }
            }
        }
        i += 1;
    }
    let ghost u = info_views(infos@);
    proof {
        assert forall|a: int, b: int| 0 <= a < b < u.len() implies #[trigger] u[a].0 != #[trigger] u[b].0 by {
            assert(idx[a] < idx[b]);
        }
        assert forall|k: Seq<char>| m.contains_key(k) && m[k].file_path is Some implies exists|a: int|
            0 <= a < u.len() && #[trigger] u[a].0 == k by {
            let b = choose|b: int| 0 <= b < pairs@.len() && #[trigger] pairs@[b].0@ == k;
            assert(pairs@[b].1@.file_path is Some);
            let a = choose|a: int| 0 <= a < idx.len() && #[trigger] idx[a] == b;
            assert(u[a].0 == k);
        }
        assert(lists_playlist_files(u, m));
    }
    sort_playlist_infos(infos)
}

// ---------------------------------------------------------------------------
// The lyrics view
// ---------------------------------------------------------------------------

/// The lines shown by the lyrics view: from half the window before the
/// current line (or the first line when none is current, or the start), as
/// many as the window holds, within the lyrics.
pub open spec fn visible_range(current: Option<usize>, display_lines: int, total: int) -> (int, int) {
    let c = match current {
        Some(c) => c as int,
        None => 0,
    };
    let start = if c >= display_lines / 2 {
        c - display_lines / 2
    } else {
        0
    };
    let end = if start + display_lines < total {
        start + display_lines
    } else {
        total
    };
    (start, end)
}

/// The range of lines that the lyrics view shows (see [`visible_range`]);
/// the current line is among them whenever the window holds a line.
pub fn visible_lines_range(current_line: Option<usize>, display_lines: usize, total: usize) -> (r: (
    usize,
    usize,
))
    ensures
        (r.0 as int, r.1 as int) == visible_range(current_line, display_lines as int, total as int),
        r.1 <= total,
        r.1 - r.0 <= display_lines,
        current_line matches Some(c) ==> (c < total && display_lines > 0 ==> r.0 <= c < r.1),
{
    let c = match current_line {
        Some(c) => c,
        None => 0,
    };
    let half = display_lines / 2;
    let start = if c >= half {
        c - half
    } else {
        0
    };
    let end = if start < total && display_lines < total - start {
        start + display_lines
    } else {
        total
    };
    (start, end)
}

/// The text shown for a lyrics line: a note for a blank line.
pub open spec fn shown_text(text: Seq<char>) -> Seq<char> {
    if trim(text).len() == 0 {
        "♪"@
    } else {
        text
    }
}

/// The text shown for a lyrics line: the line, or a note when it is blank.
pub fn shown_line_text(text: &str) -> (r: String)
    ensures
        r@ == shown_text(text@),
{
    let cs = chars_of(text);
    let t = trim_chars(&cs);
    if t.len() == 0 {
        "♪".to_owned()
    } else {
        text.to_owned()
    }
}

/// How a lyrics line is shown.
#[derive(Debug, Clone, Copy, PartialEq, Eq, Structural)]
pub enum LineEmphasis {
    /// The line being sung, while the song plays.
    Playing,
    /// A line already reached.
    Sung,
    /// A line still to come.
    Upcoming,
}

/// How the line at `index` is shown: highlighted when it is the current
/// line and the song plays; dimmed when it is not after the current line;
/// plain otherwise.
pub fn line_emphasis(index: usize, current_line: Option<usize>, is_playing: bool) -> (r: LineEmphasis)
    ensures
        r == (if current_line == Some(index) && is_playing {
            LineEmphasis::Playing
        } else if current_line matches Some(c) && index <= c {
            LineEmphasis::Sung
        } else {
            LineEmphasis::Upcoming
        }),
{
    match current_line {
        Some(c) => if c == index && is_playing {
            LineEmphasis::Playing
        } else if index <= c {
            LineEmphasis::Sung
        } else {
            LineEmphasis::Upcoming
        },
        None => LineEmphasis::Upcoming,
    }
}

} // verus!
