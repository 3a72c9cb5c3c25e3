//! Playlists: an ordered list of audio files with a current position, the
//! ways to move through it in each play mode, and the extra information
//! (display names, durations) that a playlist file gives for its entries.
//!
//! Durations are kept in whole milliseconds.

use vstd::prelude::*;
use rand::Rng;

pub mod manager;


use crate::ui::components::PlayMode;
use crate::text::{
    chars_of, find_char, index_of, lemma_index_of_at, slice_chars, starts_with_str, str_eq, string_of,
    trim, trim_chars,
};
use crate::utils::{dotted_part, extract_filename, is_m3u_playlist, m3u_extension, m3u_flag, shown_file_name};
use crate::text::lowercase_of;

verus! {

// ---------------------------------------------------------------------------
// Chance
// ---------------------------------------------------------------------------

/// A random number below `bound`, drawn by `rand::thread_rng().gen_range`.
/// Nothing is promised of it but the range.
#[verifier::external_body]
fn random_below(bound: usize) -> (r: usize)
    requires
        bound > 0,
    ensures
        r < bound,
{
    rand::thread_rng().gen_range(0..bound)
}

// ---------------------------------------------------------------------------
// Extra information
// ---------------------------------------------------------------------------

/// What a playlist says of one of its files beyond its path.
#[derive(Debug)]
pub struct PlaylistExtraInfo {
    /// The file's path.
    pub path: String,
    /// The name to show for it.
    pub name: Option<String>,
    /// Its duration in milliseconds.
    pub duration_ms: Option<i64>,
}

/// Extra information as values.
pub struct ExtraInfoModel {
    pub path: Seq<char>,
    pub name: Option<Seq<char>>,
    pub duration_ms: Option<i64>,
}

/// The characters of an optional string.
pub open spec fn opt_view(o: Option<String>) -> Option<Seq<char>> {
    match o {
        Some(s) => Some(s@),
        None => None,
    }
}

impl View for PlaylistExtraInfo {
    type V = ExtraInfoModel;

    open spec fn view(&self) -> ExtraInfoModel {
        ExtraInfoModel { path: self.path@, name: opt_view(self.name), duration_ms: self.duration_ms }
    }
}

impl Clone for PlaylistExtraInfo {
    fn clone(&self) -> (r: Self)
        ensures
            r@ == self@,
    {
        PlaylistExtraInfo {
            path: self.path.clone(),
            name: match &self.name {
                Some(n) => Some(n.clone()),
                None => None,
            },
            duration_ms: self.duration_ms,
        }
    }
}

impl PlaylistExtraInfo {
    /// Information on `path` with no name and no duration.
    pub fn new(path: String) -> (r: Self)
        ensures
            r@ == (ExtraInfoModel { path: path@, name: None, duration_ms: None }),
    {
        PlaylistExtraInfo { path, name: None, duration_ms: None }
    }

    /// The same information with the duration set.
    pub fn with_duration(self, duration_ms: Option<i64>) -> (r: Self)
        ensures
            r@ == (ExtraInfoModel { duration_ms, ..self@ }),
    {
        let mut r = self;
        r.duration_ms = duration_ms;
        r
    }

    /// The same information with the name set.
    pub fn with_name(self, name: String) -> (r: Self)
        ensures
            r@ == (ExtraInfoModel { name: Some(name@), ..self@ }),
    {
        let mut r = self;
        r.name = Some(name);
        r
    }
}

/// The views of a sequence of extra information.
pub open spec fn extra_views(s: Seq<PlaylistExtraInfo>) -> Seq<ExtraInfoModel> {
    s.map_values(|e: PlaylistExtraInfo| e@)
}

/// The position of the information on `path` in `s`, or the length of `s`.
pub open spec fn path_position(s: Seq<ExtraInfoModel>, path: Seq<char>) -> int
    decreases s.len(),
{
    if s.len() == 0 {
        0
    } else if s[0].path == path {
        0
    } else {
        1 + path_position(s.drop_first(), path)
    }
}

/// No path has information twice.
pub open spec fn paths_unique(s: Seq<ExtraInfoModel>) -> bool {
    forall|i: int, j: int| 0 <= i < j < s.len() ==> #[trigger] s[i].path != #[trigger] s[j].path
}

/// `s` with `info` recorded for its path: replacing what was recorded for
/// that path, or added after the rest.
pub open spec fn extras_insert(s: Seq<ExtraInfoModel>, info: ExtraInfoModel) -> Seq<ExtraInfoModel> {
    let i = path_position(s, info.path);
    if i < s.len() {
        s.update(i, info)
    } else {
        s.push(info)
    }
}

/// The information recorded in `s` for `path`.
pub open spec fn extras_lookup(s: Seq<ExtraInfoModel>, path: Seq<char>) -> Option<ExtraInfoModel> {
    let i = path_position(s, path);
    if i < s.len() {
        Some(s[i])
    } else {
        None
    }
}

/// Where `path` first has information: the position, the path there, and
/// no such path before it.
pub proof fn lemma_path_position(s: Seq<ExtraInfoModel>, path: Seq<char>)
    ensures
        0 <= path_position(s, path) <= s.len(),
        path_position(s, path) < s.len() ==> s[path_position(s, path)].path == path,
        forall|j: int| 0 <= j < path_position(s, path) ==> #[trigger] s[j].path != path,
    decreases s.len(),
{
    if s.len() > 0 && s[0].path != path {
        lemma_path_position(s.drop_first(), path);
        assert forall|j: int| 0 <= j < path_position(s, path) implies #[trigger] s[j].path != path by {
            if j > 0 {
                assert(s[j] == s.drop_first()[j - 1]);
            }
        }
    }
}

/// A position holding `path`, with no `path` before it, is its position.
pub proof fn lemma_path_position_at(s: Seq<ExtraInfoModel>, path: Seq<char>, i: int)
    requires
        0 <= i <= s.len(),
        i < s.len() ==> s[i].path == path,
        forall|j: int| 0 <= j < i ==> #[trigger] s[j].path != path,
    ensures
        path_position(s, path) == i,
{
    lemma_path_position(s, path);
    let p = path_position(s, path);
    if p < i {
        assert(s[p].path == path);
    } else if i < p {
        assert(s[i].path != path);
    }
}

/// Recording information keeps the paths distinct.
pub proof fn lemma_extras_insert_unique(s: Seq<ExtraInfoModel>, info: ExtraInfoModel)
    requires
        paths_unique(s),
    ensures
        paths_unique(extras_insert(s, info)),
{
    lemma_path_position(s, info.path);
    let t = extras_insert(s, info);
    let p = path_position(s, info.path);
    assert forall|i: int, j: int| 0 <= i < j < t.len() implies #[trigger] t[i].path
        != #[trigger] t[j].path by {
        if p < s.len() {
            assert(t[i].path == s[i].path);
            assert(t[j].path == s[j].path);
        } else if j == s.len() {
            assert(t[i] == s[i]);
        } else {
            assert(t[i] == s[i] && t[j] == s[j]);
        }
    }
}

/// What is recorded for a path is what a lookup of that path gives back,
/// and the other paths keep what they had.
pub proof fn lemma_extras_read_after_write(s: Seq<ExtraInfoModel>, info: ExtraInfoModel, other: Seq<char>)
    requires
        paths_unique(s),
    ensures
        extras_lookup(extras_insert(s, info), info.path) == Some(info),
        other != info.path ==> extras_lookup(extras_insert(s, info), other) == extras_lookup(s, other),
{
    lemma_path_position(s, info.path);
    lemma_path_position(s, other);
    let t = extras_insert(s, info);
    let p = path_position(s, info.path);
    let q = path_position(s, other);
    if p < s.len() {
        lemma_path_position_at(t, info.path, p);
        if other != info.path {
            assert forall|j: int| 0 <= j < q implies #[trigger] t[j].path != other by {
                assert(s[j].path != other);
            }
            if q < s.len() {
                assert(t[q].path == other);
            }
            lemma_path_position_at(t, other, q);
        }
    } else {
        assert forall|j: int| 0 <= j < p implies #[trigger] t[j].path != info.path by {
            assert(t[j] == s[j]);
        }
        lemma_path_position_at(t, info.path, p);
        if other != info.path {
            assert forall|j: int| 0 <= j < q implies #[trigger] t[j].path != other by {
                assert(t[j] == s[j]);
            }
            if q < s.len() {
                assert(t[q] == s[q]);
            } else {
                assert(t[q].path != other);
            }
            lemma_path_position_at(t, other, if q < s.len() { q } else { t.len() as int });
        }
    }
}

/// Records `info` among `extras` (a map insertion by path).
fn insert_extra(extras: &mut Vec<PlaylistExtraInfo>, info: PlaylistExtraInfo)
    ensures
        extra_views(final(extras)@) == extras_insert(extra_views(old(extras)@), info@),
{
    let ghost ev = extra_views(extras@);
    let mut i: usize = 0;
    while i < extras.len()
        invariant
            i <= extras@.len(),
            ev == extra_views(extras@),
            ev == extra_views(old(extras)@),
            forall|j: int| 0 <= j < i ==> #[trigger] ev[j].path != info@.path,
        decreases extras@.len() - i,
    {
        assert(ev[i as int] == extras@[i as int]@);
        if extras[i].path == info.path {
            proof {
                lemma_path_position_at(ev, info@.path, i as int);
            }
            let ghost iv = info@;
            extras.set(i, info);
            assert(extra_views(extras@) =~= ev.update(i as int, iv));
            return ;
        }
        i += 1;
    }
    proof {
        lemma_path_position_at(ev, info@.path, extras@.len() as int);
    }
    let ghost iv = info@;
    extras.push(info);
    assert(extra_views(extras@) =~= ev.push(iv));
}

// ---------------------------------------------------------------------------
// Playlists
// ---------------------------------------------------------------------------

/// A playlist: files in order, the position of the one being played, and
/// what the playlist file says of them. A playlist with no file of its own
/// is temporary.
#[derive(Debug)]
pub struct Playlist {
    file_paths: Vec<String>,
    current_index: Option<usize>,
    name: Option<String>,
    extra_infos: Vec<PlaylistExtraInfo>,
    file_path: Option<String>,
}

/// A playlist as values.
pub struct PlaylistModel {
    /// The files, in order.
    pub files: Seq<Seq<char>>,
    /// The position of the file being played.
    pub current: Option<int>,
    /// The playlist's name.
    pub name: Option<Seq<char>>,
    /// The extra information on its files, at most once per path.
    pub extras: Seq<ExtraInfoModel>,
    /// The playlist's own file; none for a temporary playlist.
    pub file_path: Option<Seq<char>>,
}

impl PlaylistModel {
    /// The current position, when there is one, is that of a file, and no
    /// path has extra information twice.
    pub open spec fn valid(self) -> bool {
        &&& (self.current matches Some(i) ==> 0 <= i < self.files.len())
        &&& paths_unique(self.extras)
    }

    /// The file being played.
    pub open spec fn current_file(self) -> Option<Seq<char>> {
        match self.current {
            Some(i) => Some(self.files[i]),
            None => None,
        }
    }

    /// The same playlist at another position.
    pub open spec fn at(self, current: Option<int>) -> PlaylistModel {
        PlaylistModel { current, ..self }
    }
}

/// The characters of strings.
pub open spec fn str_views(s: Seq<String>) -> Seq<Seq<char>> {
    s.map_values(|x: String| x@)
}

/// The characters of an optional borrowed string.
pub open spec fn opt_ref_view(o: Option<&String>) -> Option<Seq<char>> {
    match o {
        Some(s) => Some(s@),
        None => None,
    }
}

/// An empty playlist with the given name.
pub open spec fn empty_playlist(name: Option<Seq<char>>) -> PlaylistModel {
    PlaylistModel {
        files: Seq::empty(),
        current: None,
        name,
        extras: Seq::empty(),
        file_path: None,
    }
}

/// The position after "next": the following file, none after the last,
/// the first when nothing is being played.
pub open spec fn after_next(m: PlaylistModel) -> Option<int> {
    match m.current {
        Some(c) => if c + 1 < m.files.len() {
            Some(c + 1)
        } else {
            None
        },
        None => Some(0),
    }
}

/// The position after "previous": the file before, none before the first,
/// the first when nothing is being played.
pub open spec fn after_previous(m: PlaylistModel) -> Option<int> {
    match m.current {
        Some(c) => if c > 0 {
            Some(c - 1)
        } else {
            None
        },
        None => Some(0),
    }
}

/// The position after "next" in list loop: the following file, the first
/// after the last or when nothing is being played.
pub open spec fn loop_next(m: PlaylistModel) -> Option<int> {
    match m.current {
        Some(c) => if c + 1 < m.files.len() {
            Some(c + 1)
        } else {
            Some(0)
        },
        None => Some(0),
    }
}

/// The position after "previous" in list loop: the file before, the last
/// before the first or when nothing is being played.
pub open spec fn loop_previous(m: PlaylistModel) -> Option<int> {
    match m.current {
        Some(c) => if c > 0 {
            Some(c - 1)
        } else {
            Some(m.files.len() - 1)
        },
        None => Some(m.files.len() - 1),
    }
}

/// The position that a random draw `draw` gives among `len` files, skipping
/// the current one: the draw ranges over one position fewer when there is a
/// current file, and the positions from the current one on move up by one.
pub open spec fn random_position(draw: int, current: Option<int>) -> int {
    match current {
        Some(c) => if draw >= c {
            draw + 1
        } else {
            draw
        },
        None => draw,
    }
}

/// The position after removing the file at `index` from a playlist of
/// `len` files positioned at `current`: the same file when another one was
/// removed; when the current file was removed, the file that took its
/// place, or the new last file, or none when no file is left.
pub open spec fn after_remove(current: Option<int>, index: int, len: int) -> Option<int> {
    match current {
        Some(c) => if c == index {
            if len - 1 == 0 {
                None
            } else if c >= len - 1 {
                Some(len - 2)
            } else {
                Some(c)
            }
        } else if c > index {
            Some(c - 1)
        } else {
            Some(c)
        },
        None => None,
    }
}

/// The position among `len` files that a random draw gives (see
/// [`random_position`]): never the current file.
pub fn random_pick(draw: usize, len: usize, current: Option<usize>) -> (r: usize)
    requires
        len >= 2,
        current matches Some(c) ==> c < len && draw < len - 1,
        current is None ==> draw < len,
    ensures
        r == random_position(draw as int, match current {
            Some(c) => Some(c as int),
            None => None,
        }),
        r < len,
        current matches Some(c) ==> r != c,
{
    match current {
        Some(c) => if draw >= c {
            draw + 1
        } else {
            draw
        },
        None => draw,
    }
}

impl View for Playlist {
    type V = PlaylistModel;

    closed spec fn view(&self) -> PlaylistModel {
        PlaylistModel {
            files: str_views(self.file_paths@),
            current: match self.current_index {
                Some(i) => Some(i as int),
                None => None,
            },
            name: opt_view(self.name),
            extras: extra_views(self.extra_infos@),
            file_path: opt_view(self.file_path),
        }
    }
}

impl Playlist {
    #[verifier::type_invariant]
    spec fn well_formed(self) -> bool {
        self@.valid()
    }

    /// An empty playlist.
    pub fn new() -> (r: Self)
        ensures
            r@ == empty_playlist(None),
            r@.valid(),
    {
        let r = Playlist {
            file_paths: Vec::new(),
            current_index: None,
            name: None,
            extra_infos: Vec::new(),
            file_path: None,
        };
        assert(r@ == empty_playlist(None)) by {
            assert(str_views(r.file_paths@) =~= Seq::empty());
            assert(extra_views(r.extra_infos@) =~= Seq::empty());
        }
        r
    }

    /// An empty playlist with a name.
    pub fn with_name(name: String) -> (r: Self)
        ensures
            r@ == empty_playlist(Some(name@)),
            r@.valid(),
    {
        let r = Playlist {
            file_paths: Vec::new(),
            current_index: None,
            name: Some(name),
            extra_infos: Vec::new(),
            file_path: None,
        };
        assert(r@ == empty_playlist(opt_view(r.name))) by {
            assert(str_views(r.file_paths@) =~= Seq::empty());
            assert(extra_views(r.extra_infos@) =~= Seq::empty());
        }
        r
    }

    /// Adds a file at the end.
    pub fn add_file(&mut self, file_path: String)
        ensures
            final(self)@ == (PlaylistModel { files: old(self)@.files.push(file_path@), ..old(self)@ }),
            final(self)@.valid(),
    {
        let mut taken = Playlist::new();
        std::mem::swap(&mut taken, self);
        proof {
            use_type_invariant(&taken);
        }
        let Playlist { file_paths: mut paths, current_index, name, extra_infos, file_path: own } = taken;
        let ghost fp = file_path@;
        paths.push(file_path);
        assert(str_views(paths@) =~= old(self)@.files.push(fp));
        *self = Playlist { file_paths: paths, current_index, name, extra_infos, file_path: own };
    }

    /// Adds files at the end, in order.
    pub fn add_files(&mut self, file_paths: Vec<String>)
        ensures
            final(self)@ == (PlaylistModel {
                files: old(self)@.files + str_views(file_paths@),
                ..old(self)@
            }),
            final(self)@.valid(),
    {
        let mut i: usize = 0;
        let mut rest = file_paths;
        let ghost all = file_paths@;
        let mut taken: Vec<String> = Vec::new();
        proof {
            use_type_invariant(&*self);
        }
        let n = rest.len();
        while i < n
            invariant
                i <= n == all.len(),
                self@ == (PlaylistModel { files: old(self)@.files + str_views(all.take(i as int)), ..old(self)@ }),
                self@.valid(),
                rest@ == all,
            decreases n - i,
        {
            let f = rest[i].clone();
            self.add_file(f);
            assert(str_views(all.take(i + 1)) =~= str_views(all.take(i as int)).push(all[i as int]@));
            assert(old(self)@.files + str_views(all.take(i + 1)) =~= (old(self)@.files + str_views(
                all.take(i as int),
            )).push(all[i as int]@));
            i += 1;
        }
        assert(all.take(n as int) =~= all);
    }

    /// The file being played.
    pub fn current_file_path(&self) -> (r: Option<&String>)
        ensures
            opt_ref_view(r) == self@.current_file(),
    {
        proof {
            use_type_invariant(self);
        }
        match self.current_index {
            Some(i) => Some(&self.file_paths[i]),
            None => None,
        }
    }

    /// Moves to the next file: the following one; none after the last; the
    /// first when nothing was being played. Returns the file now played.
    /// An empty playlist stays as it is.
    pub fn next_file(&mut self) -> (r: Option<&String>)
        ensures
            old(self)@.files.len() == 0 ==> final(self)@ == old(self)@,
            old(self)@.files.len() > 0 ==> final(self)@ == old(self)@.at(after_next(old(self)@)),
            opt_ref_view(r) == final(self)@.current_file(),
            final(self)@.valid(),
    {
        proof {
            use_type_invariant(&*self);
        }
        if self.file_paths.len() == 0 {
            return None;
        }
        let next = match self.current_index {
            Some(c) => if c + 1 < self.file_paths.len() {
                Some(c + 1)
            } else {
                None
            },
            None => Some(0),
        };
        self.current_index = next;
        self.current_file_path()
    }

    /// Moves to the previous file: the one before; none before the first;
    /// the first when nothing was being played. Returns the file now played.
    /// An empty playlist stays as it is.
    pub fn previous_file(&mut self) -> (r: Option<&String>)
        ensures
            old(self)@.files.len() == 0 ==> final(self)@ == old(self)@,
            old(self)@.files.len() > 0 ==> final(self)@ == old(self)@.at(after_previous(old(self)@)),
            opt_ref_view(r) == final(self)@.current_file(),
            final(self)@.valid(),
    {
        proof {
            use_type_invariant(&*self);
        }
        if self.file_paths.len() == 0 {
            return None;
        }
        let prev = match self.current_index {
            Some(c) => if c > 0 {
                Some(c - 1)
            } else {
                None
            },
            None => Some(0),
        };
        self.current_index = prev;
        self.current_file_path()
    }

    /// Moves on at the end of a song, as the play mode says, and returns the
    /// file now played and whether the same song is to start again.
    /// Single loop keeps the current song (and starts it again). List loop
    /// moves to the following file, or to the first after the last. Random
    /// picks a file at random other than the current one, or keeps the only
    /// file there is (and starts it again). An empty playlist gives nothing.
    pub fn next_file_with_mode(&mut self, play_mode: &PlayMode) -> (r: (Option<&String>, bool))
        ensures
            final(self)@.valid(),
            opt_ref_view(r.0) == final(self)@.current_file(),
            old(self)@.files.len() == 0 ==> final(self)@ == old(self)@ && !r.1,
            old(self)@.files.len() > 0 ==> match *play_mode {
                PlayMode::SingleLoop => final(self)@ == old(self)@ && r.1,
                PlayMode::ListLoop => final(self)@ == old(self)@.at(loop_next(old(self)@)) && !r.1,
                PlayMode::Random => if old(self)@.files.len() == 1 {
                    final(self)@ == old(self)@ && r.1
                } else {
                    &&& !r.1
                    &&& final(self)@.current matches Some(k)
                    &&& final(self)@ == old(self)@.at(Some(k))
                    &&& (old(self)@.current matches Some(c) ==> k != c)
                },
            },
    {
        proof {
            use_type_invariant(&*self);
        }
        let len = self.file_paths.len();
        if len == 0 {
            return (None, false);
        }
        match play_mode {
            PlayMode::SingleLoop => (self.current_file_path(), true),
            PlayMode::ListLoop => {
                let next = match self.current_index {
                    Some(c) => if c + 1 < len {
                        c + 1
                    } else {
                        0
                    },
                    None => 0,
                };
                self.current_index = Some(next);
                (self.current_file_path(), false)
            },
            PlayMode::Random => {
                if len == 1 {
                    (self.current_file_path(), true)
                } else {
                    let bound = if self.current_index.is_some() {
                        len - 1
                    } else {
                        len
                    };
                    let draw = random_below(bound);
                    let k = random_pick(draw, len, self.current_index);
                    self.current_index = Some(k);
                    (self.current_file_path(), false)
                }
            },
        }
    }

    /// Moves back, as the play mode says, and returns the file now played
    /// and whether the same song is to start again. Single loop keeps the
    /// current song (and starts it again). List loop moves to the file
    /// before, or to the last before the first or when nothing was being
    /// played. Random picks a file at random other than the current one, or
    /// keeps the only file there is (and starts it again). An empty playlist
    /// gives nothing.
    pub fn previous_file_with_mode(&mut self, play_mode: &PlayMode) -> (r: (Option<&String>, bool))
        ensures
            final(self)@.valid(),
            opt_ref_view(r.0) == final(self)@.current_file(),
            old(self)@.files.len() == 0 ==> final(self)@ == old(self)@ && !r.1,
            old(self)@.files.len() > 0 ==> match *play_mode {
                PlayMode::SingleLoop => final(self)@ == old(self)@ && r.1,
                PlayMode::ListLoop => final(self)@ == old(self)@.at(loop_previous(old(self)@)) && !r.1,
                PlayMode::Random => if old(self)@.files.len() == 1 {
                    final(self)@ == old(self)@ && r.1
                } else {
                    &&& !r.1
                    &&& final(self)@.current matches Some(k)
                    &&& final(self)@ == old(self)@.at(Some(k))
                    &&& (old(self)@.current matches Some(c) ==> k != c)
                },
            },
    {
        proof {
            use_type_invariant(&*self);
        }
        let len = self.file_paths.len();
        if len == 0 {
            return (None, false);
        }
        match play_mode {
            PlayMode::SingleLoop => (self.current_file_path(), true),
            PlayMode::ListLoop => {
                let prev = match self.current_index {
                    Some(c) => if c > 0 {
                        c - 1
                    } else {
                        len - 1
                    },
                    None => len - 1,
                };
                self.current_index = Some(prev);
                (self.current_file_path(), false)
            },
            PlayMode::Random => {
                if len == 1 {
                    (self.current_file_path(), true)
                } else {
                    let bound = if self.current_index.is_some() {
                        len - 1
                    } else {
                        len
                    };
                    let draw = random_below(bound);
                    let k = random_pick(draw, len, self.current_index);
                    self.current_index = Some(k);
                    (self.current_file_path(), false)
                }
            },
        }
    }

    /// Plays the file at `index`, when there is one, and returns it;
    /// otherwise changes nothing and returns nothing.
    pub fn set_current_index(&mut self, index: usize) -> (r: Option<&String>)
        ensures
            final(self)@.valid(),
            index < old(self)@.files.len() ==> final(self)@ == old(self)@.at(Some(index as int)),
            index < old(self)@.files.len() ==> opt_ref_view(r) == Some(old(self)@.files[index as int]),
            index >= old(self)@.files.len() ==> final(self)@ == old(self)@ && r is None,
    {
        proof {
            use_type_invariant(&*self);
        }
        if index < self.file_paths.len() {
            self.current_index = Some(index);
            self.current_file_path()
        } else {
            None
        }
    }

    /// The position of the file being played.
    pub fn current_index(&self) -> (r: Option<usize>)
        ensures
            match r {
                Some(i) => self@.current == Some(i as int),
                None => self@.current is None,
            },
    {
        self.current_index
    }

    /// Whether there is no file.
    pub fn is_empty(&self) -> (r: bool)
        ensures
            r == (self@.files.len() == 0),
    {
        self.file_paths.len() == 0
    }

    /// The number of files.
    pub fn len(&self) -> (r: usize)
        ensures
            r == self@.files.len(),
    {
        self.file_paths.len()
    }

    /// The files, in order.
    pub fn file_paths(&self) -> (r: &[String])
        ensures
            str_views(r@) == self@.files,
    {
        self.file_paths.as_slice()
    }

    /// The playlist's name.
    pub fn name(&self) -> (r: Option<&str>)
        ensures
            match r {
                Some(n) => self@.name == Some(n@),
                None => self@.name is None,
            },
    {
        match &self.name {
            Some(n) => Some(n.as_str()),
            None => None,
        }
    }

    /// The playlist's own file; none for a temporary playlist.
    pub fn file_path(&self) -> (r: Option<&str>)
        ensures
            match r {
                Some(p) => self@.file_path == Some(p@),
                None => self@.file_path is None,
            },
    {
        match &self.file_path {
            Some(p) => Some(p.as_str()),
            None => None,
        }
    }

    /// Whether the playlist has no file of its own.
    pub fn is_temporary(&self) -> (r: bool)
        ensures
            r == (self@.file_path is None),
    {
        self.file_path.is_none()
    }


    /// A temporary playlist of the given files, in order, playing the first
    /// when there is one.
    pub fn create_from_audio_files(file_paths: Vec<String>) -> (r: Self)
        ensures
            r@ == (PlaylistModel {
                files: str_views(file_paths@),
                current: if file_paths@.len() > 0 {
                    Some(0)
                } else {
                    None
                },
                ..empty_playlist(None)
            }),
            r@.valid(),
    {
        let mut playlist = Playlist::new();
        playlist.add_files(file_paths);
        if !playlist.is_empty() {
            playlist.set_current_index(0);
        }
        assert(Seq::<Seq<char>>::empty() + str_views(file_paths@) =~= str_views(file_paths@));
        playlist
    }

    /// Removes the file at `index`, when there is one, and says whether it
    /// did. The file being played stays the one played when another file is
    /// removed; when it is itself removed, the file that takes its place is
    /// played, or the new last file, or none when no file is left.
    pub fn remove_file(&mut self, index: usize) -> (r: bool)
        ensures
            r == (index < old(self)@.files.len()),
            final(self)@.valid(),
            r ==> final(self)@ == (PlaylistModel {
                files: old(self)@.files.remove(index as int),
                current: after_remove(old(self)@.current, index as int, old(self)@.files.len() as int),
                ..old(self)@
            }),
            !r ==> final(self)@ == old(self)@,
    {
        proof {
            use_type_invariant(&*self);
        }
        if index >= self.file_paths.len() {
            return false;
        }
        let mut taken = Playlist::new();
        std::mem::swap(&mut taken, self);
        proof {
            use_type_invariant(&taken);
        }
        let Playlist { file_paths: mut paths, current_index, name, extra_infos, file_path } = taken;
        let ghost before = paths@;
        paths.remove(index);
        assert(str_views(paths@) =~= str_views(before).remove(index as int));
        let len = paths.len();
        let current = match current_index {
            Some(c) => if c == index {
                if len == 0 {
                    None
                } else if c >= len {
                    Some(len - 1)
                } else {
                    Some(c)
                }
            } else if c > index {
                Some(c - 1)
            } else {
                Some(c)
            },
            None => None,
        };
        *self = Playlist { file_paths: paths, current_index: current, name, extra_infos, file_path };
        true
    }

    /// Records extra information on a file, replacing what was recorded
    /// for the same path.
    pub fn set_extra_info(&mut self, extra_info: PlaylistExtraInfo)
        ensures
            final(self)@ == (PlaylistModel {
                extras: extras_insert(old(self)@.extras, extra_info@),
                ..old(self)@
            }),
            final(self)@.valid(),
    {
        let mut taken = Playlist::new();
        std::mem::swap(&mut taken, self);
        proof {
            use_type_invariant(&taken);
            lemma_extras_insert_unique(taken@.extras, extra_info@);
        }
        let Playlist { file_paths, current_index, name, extra_infos: mut extras, file_path } = taken;
        insert_extra(&mut extras, extra_info);
        *self = Playlist { file_paths, current_index, name, extra_infos: extras, file_path };
    }

    /// The extra information recorded for a file.
    pub fn extra_info_for(&self, file_path: &str) -> (r: Option<&PlaylistExtraInfo>)
        ensures
            match r {
                Some(e) => extras_lookup(self@.extras, file_path@) == Some(e@),
                None => extras_lookup(self@.extras, file_path@) is None,
            },
    {
        let ghost ev = self@.extras;
        let mut i: usize = 0;
        while i < self.extra_infos.len()
            invariant
                i <= self.extra_infos@.len(),
                ev == extra_views(self.extra_infos@),
                forall|j: int| 0 <= j < i ==> #[trigger] ev[j].path != file_path@,
            decreases self.extra_infos@.len() - i,
        {
            assert(ev[i as int] == self.extra_infos@[i as int]@);
            if str_eq(self.extra_infos[i].path.as_str(), file_path) {
                proof {
                    lemma_path_position_at(ev, file_path@, i as int);
                }
                return Some(&self.extra_infos[i]);
            }
            i += 1;
        }
        proof {
            lemma_path_position_at(ev, file_path@, ev.len() as int);
        }
        None
    }

    /// Removes every file and all extra information; nothing is played.
    pub fn clear(&mut self)
        ensures
            final(self)@ == (PlaylistModel {
                files: Seq::empty(),
                current: None,
                extras: Seq::empty(),
                ..old(self)@
            }),
            final(self)@.valid(),
    {
        let mut taken = Playlist::new();
        std::mem::swap(&mut taken, self);
        let Playlist { file_paths: _, current_index: _, name, extra_infos: _, file_path } = taken;
        let r = Playlist {
            file_paths: Vec::new(),
            current_index: None,
            name,
            extra_infos: Vec::new(),
            file_path,
        };
        assert(str_views(r.file_paths@) =~= Seq::empty());
        assert(extra_views(r.extra_infos@) =~= Seq::empty());
        *self = r;
    }
}

// ---------------------------------------------------------------------------
// Laws of moving through a playlist
// ---------------------------------------------------------------------------

/// The position after `n` moves of "next" in list loop.
pub open spec fn loop_steps(m: PlaylistModel, n: nat) -> Option<int>
    decreases n,
{
    if n == 0 {
        m.current
    } else {
        loop_next(m.at(loop_steps(m, (n - 1) as nat)))
    }
}

/// In list loop, "previous" undoes "next" and "next" undoes "previous".
pub proof fn lemma_loop_next_previous_inverse(m: PlaylistModel)
    requires
        m.valid(),
        m.files.len() > 0,
        m.current is Some,
    ensures
        loop_previous(m.at(loop_next(m))) == m.current,
        loop_next(m.at(loop_previous(m))) == m.current,
{
}

/// Without a loop, "previous" undoes "next" wherever "next" finds a file.
pub proof fn lemma_next_previous_inverse(m: PlaylistModel)
    requires
        m.valid(),
        m.current matches Some(c) && c + 1 < m.files.len(),
    ensures
        after_previous(m.at(after_next(m))) == m.current,
{
}

/// `n` moves of "next" in list loop from the file at `c` reach the file at
/// `(c + n) mod len`.
proof fn lemma_loop_steps_mod(m: PlaylistModel, n: nat)
    requires
        m.valid(),
        m.current is Some,
    ensures
        loop_steps(m, n) == Some((m.current->0 + n) % (m.files.len() as int)),
    decreases n,
{
    let len = m.files.len() as int;
    let c = m.current->0;
    if n > 0 {
        lemma_loop_steps_mod(m, (n - 1) as nat);
        let x = c + n - 1;
        let k = x % len;
        let q = x / len;
        vstd::arithmetic::div_mod::lemma_fundamental_div_mod(x, len);
        assert(0 <= k < len) by {
            vstd::arithmetic::div_mod::lemma_mod_bound(x, len);
        }
        assert(x + 1 == q * len + (k + 1)) by (nonlinear_arith)
            requires
                x == len * q + k,
        ;
        if k + 1 < len {
            vstd::arithmetic::div_mod::lemma_fundamental_div_mod_converse(x + 1, len, q, k + 1);
        } else {
            assert(x + 1 == (q + 1) * len + 0) by (nonlinear_arith)
                requires
                    x + 1 == q * len + (k + 1),
                    k + 1 == len,
            ;
            vstd::arithmetic::div_mod::lemma_fundamental_div_mod_converse(x + 1, len, q + 1, 0);
        }
    } else {
        vstd::arithmetic::div_mod::lemma_fundamental_div_mod_converse(c, len, 0, c);
    }
}

/// In list loop, `n` moves of "next" from the file at `c` reach the file
/// at `(c + n) mod len`: every file is reached, and after as many moves as
/// there are files the playlist is back where it started.
pub proof fn lemma_loop_steps(m: PlaylistModel, n: nat)
    requires
        m.valid(),
        m.current is Some,
    ensures
        loop_steps(m, n) == Some((m.current->0 + n) % (m.files.len() as int)),
        loop_steps(m, m.files.len()) == m.current,
{
    let len = m.files.len() as int;
    let c = m.current->0;
    lemma_loop_steps_mod(m, n);
    lemma_loop_steps_mod(m, m.files.len());
    vstd::arithmetic::div_mod::lemma_fundamental_div_mod_converse(c + len, len, 1, c);
}

/// Removing another file than the one being played keeps playing the same
/// file; removing the file being played leaves a valid position.
pub proof fn lemma_remove_keeps_current(m: PlaylistModel, index: int)
    requires
        m.valid(),
        0 <= index < m.files.len(),
    ensures
        (PlaylistModel {
            files: m.files.remove(index),
            current: after_remove(m.current, index, m.files.len() as int),
            ..m
        }).valid(),
        m.current matches Some(c) && c != index ==> (PlaylistModel {
            files: m.files.remove(index),
            current: after_remove(m.current, index, m.files.len() as int),
            ..m
        }).current_file() == m.current_file(),
{
}

// ---------------------------------------------------------------------------
// M3U playlists
// ---------------------------------------------------------------------------

/// What a line of an M3U playlist holds.
#[derive(Debug)]
pub enum M3uLine {
    /// Nothing but whitespace.
    Blank,
    /// A directive or comment that is not read.
    Directive,
    /// `#EXTINF:duration,title`: the duration text and the title of the
    /// entry that follows.
    ExtInf { duration: String, title: String },
    /// The path of an entry.
    Path(String),
}

/// What a line of an M3U playlist holds, as values.
pub enum M3uLineModel {
    Blank,
    Directive,
    ExtInf(Seq<char>, Seq<char>),
    Path(Seq<char>),
}

impl View for M3uLine {
    type V = M3uLineModel;

    open spec fn view(&self) -> M3uLineModel {
        match self {
            M3uLine::Blank => M3uLineModel::Blank,
            M3uLine::Directive => M3uLineModel::Directive,
            M3uLine::ExtInf { duration, title } => M3uLineModel::ExtInf(duration@, title@),
            M3uLine::Path(p) => M3uLineModel::Path(p@),
        }
    }
}

/// What a line of an M3U playlist holds: the line is trimmed; an empty line
/// is blank; a line that starts with `#` is a directive, unless it starts
/// with `#EXTINF:` and has a comma after that, which splits it into the
/// duration before the first comma and the title after it; any other line
/// is a path.
pub open spec fn m3u_line(line: Seq<char>) -> M3uLineModel {
    let t = trim(line);
    let info = t.skip("#EXTINF:"@.len() as int);
    if t.len() == 0 {
        M3uLineModel::Blank
    } else if t[0] == '#' {
        if "#EXTINF:"@.is_prefix_of(t) && info.contains(',') {
            M3uLineModel::ExtInf(
                info.take(index_of(info, ',')),
                info.skip(index_of(info, ',') + 1),
            )
        } else {
            M3uLineModel::Directive
        }
    } else {
        M3uLineModel::Path(t)
    }
}

/// Reads a line of an M3U playlist (see [`m3u_line`]).
pub fn parse_m3u_line(line: &str) -> (r: M3uLine)
    ensures
        r@ == m3u_line(line@),
{
    let cs = chars_of(line);
    let t = trim_chars(&cs);
    if t.len() == 0 {
        return M3uLine::Blank;
    }
    if t[0] != '#' {
        return M3uLine::Path(string_of(&t));
    }
    if !starts_with_str(&t, "#EXTINF:") {
        return M3uLine::Directive;
    }
    let plen = chars_of("#EXTINF:").len();
    let info = slice_chars(&t, plen, t.len());
    assert(info@ =~= t@.skip("#EXTINF:"@.len() as int));
    match find_char(&info, ',', 0) {
        Some(k) => {
            proof {
                lemma_index_of_at(info@, ',', k as int);
                assert(info@.contains(','));
            }
            let d = slice_chars(&info, 0, k);
            let ti = slice_chars(&info, k + 1, info.len());
            assert(d@ =~= info@.take(k as int));
            assert(ti@ =~= info@.skip(k + 1));
            M3uLine::ExtInf { duration: string_of(&d), title: string_of(&ti) }
        },
        None => {
            M3uLine::Directive
        },
    }
}

/// What the reader of a playlist file found for an entry, in order.
#[derive(Debug)]
pub enum M3uEntry {
    /// An `#EXTINF` line: the duration, when its text reads as a number of
    /// seconds, and the title.
    Info { duration_ms: Option<i64>, title: String },
    /// A path, made absolute, and whether a file is there.
    File { path: String, exists: bool },
}

/// The state of reading a playlist file.
pub struct M3uState {
    pub files: Seq<Seq<char>>,
    pub extras: Seq<ExtraInfoModel>,
    /// The duration and title that the next file will get.
    pub pending: Option<(i64, Seq<char>)>,
}

/// The extra information that a file gets from the pending `#EXTINF`.
pub open spec fn info_from(path: Seq<char>, pending: Option<(i64, Seq<char>)>) -> ExtraInfoModel {
    match pending {
        Some((d, t)) => ExtraInfoModel { path, name: Some(t), duration_ms: Some(d) },
        None => ExtraInfoModel { path, name: None, duration_ms: None },
    }
}

/// One more entry: an `#EXTINF` with a duration becomes the pending
/// information (one whose duration does not read changes nothing); a file
/// that is there is added with the pending information, which is then
/// used up; a missing file is skipped and leaves the pending information
/// for the next file.
pub open spec fn m3u_step(st: M3uState, e: M3uEntry) -> M3uState {
    match e {
        M3uEntry::Info { duration_ms, title } => match duration_ms {
            Some(d) => M3uState { pending: Some((d, title@)), ..st },
            None => st,
        },
        M3uEntry::File { path, exists } => if exists {
            M3uState {
                files: st.files.push(path@),
                extras: extras_insert(st.extras, info_from(path@, st.pending)),
                pending: None,
            }
        } else {
            st
        },
    }
}

/// The state after the entries `es`, from the start.
pub open spec fn m3u_fold(es: Seq<M3uEntry>) -> M3uState
    decreases es.len(),
{
    if es.len() == 0 {
        M3uState { files: Seq::empty(), extras: Seq::empty(), pending: None }
    } else {
        m3u_step(m3u_fold(es.drop_last()), es.last())
    }
}

impl Playlist {
    /// The playlist stored in the file `file_path` (named after that file),
    /// from what its reader found: the files that are there, in order, with
    /// the duration and title of the `#EXTINF` before them; nothing played.
    pub fn from_m3u_entries(file_path: String, entries: &[M3uEntry]) -> (r: Self)
        ensures
            r@.files == m3u_fold(entries@).files,
            r@.extras == m3u_fold(entries@).extras,
            r@.current is None,
            r@.file_path == Some(file_path@),
            r@.name matches Some(n) && shown_file_name(file_path@, n),
            r@.valid(),
    {
        let name = extract_filename(file_path.as_str());
        let mut files: Vec<String> = Vec::new();
        let mut extras: Vec<PlaylistExtraInfo> = Vec::new();
        let mut pending: Option<(i64, String)> = None;
        let mut i: usize = 0;
        assert(entries@.take(0) =~= Seq::<M3uEntry>::empty());
        while i < entries.len()
            invariant
                i <= entries@.len(),
                str_views(files@) == m3u_fold(entries@.take(i as int)).files,
                extra_views(extras@) == m3u_fold(entries@.take(i as int)).extras,
                m3u_fold(entries@.take(i as int)).pending == match pending {
                    Some((d, t)) => Some((d, t@)),
                    None => None,
                },
                paths_unique(extra_views(extras@)),
            decreases entries@.len() - i,
        {
            assert(entries@.take(i + 1).drop_last() =~= entries@.take(i as int));
            match &entries[i] {
                M3uEntry::Info { duration_ms, title } => {
                    if let Some(d) = duration_ms {
                        pending = Some((*d, title.clone()));
                    }
                },
                M3uEntry::File { path, exists } => {
                    if *exists {
                        let ghost before = files@;
                        files.push(path.clone());
                        assert(str_views(files@) =~= str_views(before).push(path@));
                        let info = match pending {
                            Some((d, t)) => PlaylistExtraInfo {
                                path: path.clone(),
                                name: Some(t),
                                duration_ms: Some(d),
                            },
                            None => PlaylistExtraInfo::new(path.clone()),
                        };
                        proof {
                            lemma_extras_insert_unique(extra_views(extras@), info@);
                        }
                        insert_extra(&mut extras, info);
                        pending = None;
                    }
                },
            }
            i += 1;
        }
        assert(entries@.take(entries@.len() as int) =~= entries@);
        Playlist {
            file_paths: files,
            current_index: None,
            name: Some(name),
            extra_infos: extras,
            file_path: Some(file_path),
        }
    }
}

// ---------------------------------------------------------------------------
// What the playlist view shows
// ---------------------------------------------------------------------------

/// A file of a playlist as the playlist view shows it.
#[derive(Debug, Clone)]
pub struct PlaylistEntryView {
    /// Its position.
    pub index: usize,
    /// Its path.
    pub path: String,
    /// The name shown: the one the playlist gives, else the file name.
    pub display_name: String,
    /// The duration, in milliseconds: the playlist's, else the opened
    /// file's when it is known.
    pub duration_ms: Option<i64>,
    /// Whether it is the file being played.
    pub is_current: bool,
}

/// The duration that the cache of opened files gives for the file at `i`:
/// `cached[i]`, and none past its end.
pub open spec fn cached_at(cached: Seq<Option<i64>>, i: int) -> Option<i64> {
    if 0 <= i < cached.len() {
        cached[i]
    } else {
        None
    }
}

/// Whether `e` shows the file at `i` of the playlist `m`, where `cached`
/// holds the durations, in milliseconds, that the opened files give: the
/// duration is the playlist's, else the opened file's.
pub open spec fn shows_entry_with(m: PlaylistModel, cached: Seq<Option<i64>>, i: int, e: PlaylistEntryView) -> bool {
    let path = m.files[i];
    let extra = extras_lookup(m.extras, path);
    &&& e.index == i
    &&& e.path@ == path
    &&& e.duration_ms == (match extra {
        Some(x) if x.duration_ms is Some => x.duration_ms,
        _ => cached_at(cached, i),
    })
    &&& e.is_current == (m.current == Some(i))
    &&& match extra {
        Some(x) if x.name is Some => e.display_name@ == x.name->0,
        _ => shown_file_name(path, e.display_name@),
    }
}

/// Whether `e` shows the file at `i` of the playlist `m`, with the duration
/// that the playlist gives.
pub open spec fn shows_entry(m: PlaylistModel, i: int, e: PlaylistEntryView) -> bool {
    shows_entry_with(m, Seq::empty(), i, e)
}

/// The icon shown before a file: a note while it plays, a pause sign when
/// it is current but paused, a score for the others.
pub open spec fn entry_icon_text(is_current: bool, is_playing: bool) -> Seq<char> {
    if is_current {
        if is_playing {
            "🎵"@
        } else {
            "⏸"@
        }
    } else {
        "🎼"@
    }
}

/// The icon shown before a file (see [`entry_icon_text`]).
pub fn entry_icon(is_current: bool, is_playing: bool) -> (r: &'static str)
    ensures
        r@ == entry_icon_text(is_current, is_playing),
{
    if is_current {
        if is_playing {
            "🎵"
        } else {
            "⏸"
        }
    } else {
        "🎼"
    }
}

/// The name shown for a playlist entry: the name the playlist gives it,
/// else the title tag of its file, else its file name (see
/// [`crate::utils::extract_filename`]).
pub fn entry_display_name(playlist_name: Option<String>, title: Option<String>, file_path: &str) -> (r: String)
    ensures
        match playlist_name {
            Some(n) => r@ == n@,
            None => match title {
                Some(t) => r@ == t@,
                None => shown_file_name(file_path@, r@),
            },
        },
{
    match playlist_name {
        Some(n) => n,
        None => match title {
            Some(t) => t,
            None => extract_filename(file_path),
        },
    }
}

impl Playlist {
    /// The files as the playlist view shows them, in order, with the
    /// durations the playlist gives.
    pub fn display_entries(&self) -> (r: Vec<PlaylistEntryView>)
        ensures
            r@.len() == self@.files.len(),
            forall|i: int| 0 <= i < r@.len() ==> shows_entry(self@, i, #[trigger] r@[i]),
    {
        let none: Vec<Option<i64>> = Vec::new();
        self.display_entries_with_cache(none.as_slice())
    }

    /// The files as the playlist view shows them, in order; where the
    /// playlist gives no duration, `cached_ms[i]` is the duration in
    /// milliseconds that the opened file at `i` gives, if any.
    pub fn display_entries_with_cache(&self, cached_ms: &[Option<i64>]) -> (r: Vec<PlaylistEntryView>)
        ensures
            r@.len() == self@.files.len(),
            forall|i: int| 0 <= i < r@.len() ==> shows_entry_with(self@, cached_ms@, i, #[trigger] r@[i]),
    {
        proof {
            use_type_invariant(self);
        }
        let ghost m = self@;
        let mut r: Vec<PlaylistEntryView> = Vec::new();
        let mut i: usize = 0;
        while i < self.file_paths.len()
            invariant
                i <= self.file_paths@.len(),
                m == self@,
                r@.len() == i,
                forall|k: int| 0 <= k < i ==> shows_entry_with(m, cached_ms@, k, #[trigger] r@[k]),
            decreases self.file_paths@.len() - i,
        {
            let path = &self.file_paths[i];
            assert(m.files[i as int] == path@);
            let extra = self.extra_info_for(path.as_str());
            let cached = if i < cached_ms.len() {
                cached_ms[i]
            } else {
                None
            };
            let (name, duration) = match extra {
                Some(x) => (
                    match &x.name {
                        Some(n) => n.clone(),
                        None => extract_filename(path.as_str()),
                    },
                    match x.duration_ms {
                        Some(d) => Some(d),
                        None => cached,
                    },
                ),
                None => (extract_filename(path.as_str()), cached),
            };
            let is_current = match self.current_index {
                Some(c) => c == i,
                None => false,
            };
            r.push(
                PlaylistEntryView {
                    index: i,
                    path: path.clone(),
                    display_name: name,
                    duration_ms: duration,
                    is_current,
                },
            );
            i += 1;
        }
        r
    }
}

// ---------------------------------------------------------------------------
// Durations
// ---------------------------------------------------------------------------

/// What the cache of opened audio files knows of a file's duration.
#[derive(Debug, Clone, Copy, PartialEq, Eq, Structural)]
pub enum CachedDuration {
    /// The file is not opened yet.
    NotCached,
    /// The file is opened and its duration is known and positive.
    Known,
    /// The file is opened (or failed to open) and its duration is unknown
    /// or zero.
    Unknown,
}

/// Whether the duration of the file at `i` is to be found by decoding it:
/// when the cache does not know it, or when the file is not opened and the
/// playlist gives no duration for it.
pub open spec fn needs_duration(m: PlaylistModel, cache: Seq<CachedDuration>, i: int) -> bool {
    match cache[i] {
        CachedDuration::Known => false,
        CachedDuration::Unknown => true,
        CachedDuration::NotCached => match extras_lookup(m.extras, m.files[i]) {
            Some(x) => x.duration_ms is None,
            None => true,
        },
    }
}

/// The files whose duration is to be found, in order.
pub open spec fn files_needing_duration_spec(m: PlaylistModel, cache: Seq<CachedDuration>, n: int) -> Seq<Seq<char>>
    decreases n,
{
    if n <= 0 {
        Seq::empty()
    } else {
        let prev = files_needing_duration_spec(m, cache, n - 1);
        if needs_duration(m, cache, n - 1) {
            prev.push(m.files[n - 1])
        } else {
            prev
        }
    }
}

impl Playlist {
    /// Records the duration of a file, keeping the name recorded for it.
    pub fn set_duration(&mut self, file_path: &str, duration_ms: Option<i64>)
        ensures
            final(self)@ == (PlaylistModel {
                extras: extras_insert(
                    old(self)@.extras,
                    ExtraInfoModel {
                        path: file_path@,
                        name: match extras_lookup(old(self)@.extras, file_path@) {
                            Some(x) => x.name,
                            None => None,
                        },
                        duration_ms,
                    },
                ),
                ..old(self)@
            }),
            final(self)@.valid(),
    {
        let name = match self.extra_info_for(file_path) {
            Some(existing) => match &existing.name {
                Some(n) => Some(n.clone()),
                None => None,
            },
            None => None,
        };
        let info = PlaylistExtraInfo { path: file_path.to_owned(), name, duration_ms };
        self.set_extra_info(info);
    }

    /// The files whose duration is to be found by decoding them, in order,
    /// given what the cache knows of each file (see [`needs_duration`]).
    pub fn files_needing_duration(&self, cache: &[CachedDuration]) -> (r: Vec<String>)
        requires
            cache@.len() == self@.files.len(),
        ensures
            str_views(r@) == files_needing_duration_spec(self@, cache@, self@.files.len() as int),
    {
        let ghost m = self@;
        let mut r: Vec<String> = Vec::new();
        let mut i: usize = 0;
        while i < self.file_paths.len()
            invariant
                i <= self.file_paths@.len(),
                m == self@,
                cache@.len() == m.files.len(),
                str_views(r@) == files_needing_duration_spec(m, cache@, i as int),
            decreases self.file_paths@.len() - i,
        {
            let path = &self.file_paths[i];
            assert(m.files[i as int] == path@);
            let needed = match cache[i] {
                CachedDuration::Known => false,
                CachedDuration::Unknown => true,
                CachedDuration::NotCached => match self.extra_info_for(path.as_str()) {
                    Some(x) => x.duration_ms.is_none(),
                    None => true,
                },
            };
            if needed {
                let ghost before = r@;
                r.push(path.clone());
                assert(str_views(r@) =~= str_views(before).push(path@));
            }
            i += 1;
        }
        r
    }
}

// ---------------------------------------------------------------------------
// Choosing files to play
// ---------------------------------------------------------------------------

/// What the user chose to play.
#[derive(Debug, Clone, PartialEq, Eq)]
pub enum FileSelection {
    /// Nothing.
    Nothing,
    /// Audio files and playlists together, which is refused.
    Mixed,
    /// More than one playlist, which is refused.
    SeveralPlaylists,
    /// One playlist file.
    OnePlaylist(String),
    /// Audio files, played as a temporary playlist.
    AudioFiles(Vec<String>),
}

/// The number of `true` among the first `n` flags.
pub open spec fn count_true(flags: Seq<bool>, n: int) -> nat
    decreases n,
{
    if n <= 0 {
        0
    } else {
        count_true(flags, n - 1) + if flags[n - 1] {
            1nat
        } else {
            0nat
        }
    }
}

/// What a choice of files is, given which of them are playlists: nothing;
/// refused when it mixes playlists and audio files or holds several
/// playlists; the playlist when it is one; else the audio files.
pub open spec fn selection_of(paths: Seq<Seq<char>>, is_playlist: Seq<bool>, r: FileSelection) -> bool {
    let n = paths.len() as int;
    let k = count_true(is_playlist, n);
    if n == 0 {
        r == FileSelection::Nothing
    } else if 0 < k < n {
        r == FileSelection::Mixed
    } else if k > 1 {
        r == FileSelection::SeveralPlaylists
    } else if k == 1 {
        r matches FileSelection::OnePlaylist(p) && p@ == paths[0]
    } else {
        r matches FileSelection::AudioFiles(v) && str_views(v@) == paths
    }
}

/// What a choice of files is (see [`selection_of`]); `is_playlist` says of
/// each file whether it is a playlist.
pub fn classify_selection_with(file_paths: &[String], is_playlist: &[bool]) -> (r: FileSelection)
    requires
        is_playlist@.len() == file_paths@.len(),
    ensures
        selection_of(str_views(file_paths@), is_playlist@, r),
{
    let n = file_paths.len();
    if n == 0 {
        return FileSelection::Nothing;
    }
    let mut k: usize = 0;
    let mut i: usize = 0;
    while i < n
        invariant
            i <= n == file_paths@.len() == is_playlist@.len(),
            k == count_true(is_playlist@, i as int),
            k <= i,
        decreases n - i,
    {
        if is_playlist[i] {
            k += 1;
        }
        i += 1;
    }
    if 0 < k && k < n {
        FileSelection::Mixed
    } else if k > 1 {
        FileSelection::SeveralPlaylists
    } else if k == 1 {
        FileSelection::OnePlaylist(file_paths[0].clone())
    } else {
        let mut v: Vec<String> = Vec::new();
        let mut j: usize = 0;
        while j < n
            invariant
                j <= n == file_paths@.len(),
                str_views(v@) == str_views(file_paths@).take(j as int),
            decreases n - j,
        {
            let ghost before = v@;
            v.push(file_paths[j].clone());
            assert(str_views(v@) =~= str_views(before).push(file_paths@[j as int]@));
            assert(str_views(file_paths@).take(j + 1) =~= str_views(file_paths@).take(j as int).push(file_paths@[j as int]@));
            j += 1;
        }
        assert(str_views(file_paths@).take(n as int) =~= str_views(file_paths@));
        FileSelection::AudioFiles(v)
    }
}

/// Whether a path has an extension that reads `m3u` or `m3u8` in lowercase.
pub open spec fn looks_like_m3u(path: Seq<char>) -> bool {
    exists|e: Seq<char>| dotted_part(path, e) && #[trigger] m3u_extension(lowercase_of(e))
}

/// What a choice of files is, telling playlists by their `m3u` or `m3u8`
/// extension (see [`crate::utils::is_m3u_playlist`] and
/// [`crate::utils::m3u_flag`]).
pub fn classify_selection(file_paths: &[String]) -> (r: FileSelection)
    ensures
        exists|flags: Seq<bool>|
            {
                &&& flags.len() == file_paths@.len()
                &&& #[trigger] selection_of(str_views(file_paths@), flags, r)
                &&& forall|i: int| 0 <= i < flags.len() ==> m3u_flag(file_paths@[i]@, #[trigger] flags[i])
            },
{
    let mut flags: Vec<bool> = Vec::new();
    let mut i: usize = 0;
    while i < file_paths.len()
        invariant
            i <= file_paths@.len(),
            flags@.len() == i,
            forall|j: int| 0 <= j < i ==> m3u_flag(file_paths@[j]@, #[trigger] flags@[j]),
        decreases file_paths@.len() - i,
    {
        flags.push(is_m3u_playlist(file_paths[i].as_str()));
        i += 1;
    }
    classify_selection_with(file_paths, &flags)
}

// ---------------------------------------------------------------------------
// Laws of moving through and editing a playlist
// ---------------------------------------------------------------------------

/// "Next" in list loop plays, of a non-empty playlist, the first file when
/// nothing is being played, the following file when there is one, and the
/// first file again after the last.
pub proof fn lemma_list_loop_next_plays(m: PlaylistModel)
    requires
        m.valid(),
        m.files.len() > 0,
    ensures
        m.current is None ==> m.at(loop_next(m)).current == Some(0int) && m.at(loop_next(m)).current_file()
            == Some(m.files[0]),
        m.current matches Some(c) ==> (c + 1 < m.files.len() ==> m.at(loop_next(m)).current_file()
            == Some(m.files[c + 1])),
        m.current matches Some(c) ==> (c + 1 == m.files.len() ==> m.at(loop_next(m)).current_file()
            == Some(m.files[0])),
        m.at(loop_next(m)).valid(),
{
}

/// In list loop, "previous" after "next" comes back to the file that was
/// being played, and "next" after "previous" too.
pub proof fn lemma_list_loop_previous_undoes_next(m: PlaylistModel)
    requires
        m.valid(),
        m.files.len() > 0,
        m.current is Some,
    ensures
        loop_previous(m.at(loop_next(m))) == m.current,
        loop_next(m.at(loop_previous(m))) == m.current,
{
}

/// Removing a file keeps the song being played when another file is
/// removed. When the file being played is removed, the file that takes its
/// place is played (it keeps the position), or the new last file when the
/// last one was removed, or none when no file is left. Nothing is played
/// after a removal when nothing was played before.
pub proof fn lemma_remove_keeps_playing(m: PlaylistModel, index: int)
    requires
        m.valid(),
        0 <= index < m.files.len(),
    ensures
        ({
            let after = PlaylistModel {
                files: m.files.remove(index),
                current: after_remove(m.current, index, m.files.len() as int),
                ..m
            };
            &&& after.valid()
            &&& after.files.len() == m.files.len() - 1
            &&& (m.current matches Some(c) ==> (c != index ==> after.current_file() == m.current_file()))
            &&& (m.current == Some(index) && index + 1 < m.files.len() ==> after.current == Some(index)
                && after.current_file() == Some(m.files[index + 1]))
            &&& (m.current == Some(index) && index + 1 == m.files.len() && index > 0
                ==> after.current_file() == Some(m.files[index - 1]))
            &&& (m.current == Some(index) && m.files.len() == 1 ==> after.current is None)
            &&& (m.current is None ==> after.current is None)
        }),
{
}

} // verus!
