//! The set of playlists that the player keeps loaded: the persistent
//! playlists by the path of their file, the temporary playlist, and which
//! of them is being played.

use vstd::prelude::*;
use crate::error::PlayerError;
use crate::playlist::{Playlist, PlaylistModel, empty_playlist, str_views};
use crate::text::{chars_of, ends_with_str, str_eq, string_of, trim, trim_chars};
use crate::utils::{decimal, decimal_string};

verus! {

// ---------------------------------------------------------------------------
// Association lists as maps
// ---------------------------------------------------------------------------

/// The map that a list of (key, value) pairs stands for (a later pair wins).
pub open spec fn pairs_map<K, V>(s: Seq<(K, V)>) -> Map<K, V>
    decreases s.len(),
{
    if s.len() == 0 {
        Map::empty()
    } else {
        pairs_map(s.drop_last()).insert(s.last().0, s.last().1)
    }
}

/// No key occurs twice among the pairs.
pub open spec fn pair_keys_unique<K, V>(s: Seq<(K, V)>) -> bool {
    forall|i: int, j: int| 0 <= i < j < s.len() ==> #[trigger] s[i].0 != #[trigger] s[j].0
}

/// The keys of the map are the keys of the pairs.
pub proof fn lemma_pairs_map_dom<K, V>(s: Seq<(K, V)>, k: K)
    ensures
        pairs_map(s).contains_key(k) <==> exists|i: int| 0 <= i < s.len() && #[trigger] s[i].0 == k,
    decreases s.len(),
{
    if s.len() > 0 {
        lemma_pairs_map_dom(s.drop_last(), k);
        if pairs_map(s.drop_last()).contains_key(k) {
            let i = choose|i: int| 0 <= i < s.drop_last().len() && #[trigger] s.drop_last()[i].0 == k;
            assert(s[i].0 == k);
        }
        if exists|i: int| 0 <= i < s.len() && #[trigger] s[i].0 == k {
            let i = choose|i: int| 0 <= i < s.len() && #[trigger] s[i].0 == k;
            if i < s.len() - 1 {
                assert(s.drop_last()[i].0 == k);
            }
        }
    }
}

/// With distinct keys, the value of each pair's key is that pair's value.
pub proof fn lemma_pairs_map_index<K, V>(s: Seq<(K, V)>, i: int)
    requires
        pair_keys_unique(s),
        0 <= i < s.len(),
    ensures
        pairs_map(s).contains_key(s[i].0),
        pairs_map(s)[s[i].0] == s[i].1,
    decreases s.len(),
{
    if i < s.len() - 1 {
        let t = s.drop_last();
        assert(pair_keys_unique(t)) by {
            assert forall|a: int, b: int| 0 <= a < b < t.len() implies #[trigger] t[a].0 != #[trigger] t[b].0 by {
                assert(s[a].0 != s[b].0);
            }
        }
        assert(t[i] == s[i]);
        lemma_pairs_map_index(t, i);
        assert(s[i].0 != s.last().0);
    }
}

/// Dropping the last pair keeps the keys distinct.
proof fn lemma_unique_drop_last<K, V>(s: Seq<(K, V)>)
    requires
        pair_keys_unique(s),
        s.len() > 0,
    ensures
        pair_keys_unique(s.drop_last()),
{
    let t = s.drop_last();
    assert forall|a: int, b: int| 0 <= a < b < t.len() implies #[trigger] t[a].0 != #[trigger] t[b].0 by {
        assert(s[a].0 != s[b].0);
    }
}

/// Changing the value of a pair sets that key's value in the map.
pub proof fn lemma_pairs_map_update<K, V>(s: Seq<(K, V)>, i: int, v: V)
    requires
        pair_keys_unique(s),
        0 <= i < s.len(),
    ensures
        pairs_map(s.update(i, (s[i].0, v))) == pairs_map(s).insert(s[i].0, v),
    decreases s.len(),
{
    let k = s[i].0;
    let u = s.update(i, (k, v));
    if i == s.len() - 1 {
        assert(u.drop_last() =~= s.drop_last());
        assert(pairs_map(u) =~= pairs_map(s).insert(k, v));
    } else {
        lemma_unique_drop_last(s);
        lemma_pairs_map_update(s.drop_last(), i, v);
        assert(u.drop_last() =~= s.drop_last().update(i, (k, v)));
        assert(u.last() == s.last());
        assert(s.last().0 != k);
        assert(pairs_map(u) =~= pairs_map(s).insert(k, v));
    }
}

/// Removing a pair removes its key from the map.
pub proof fn lemma_pairs_map_remove<K, V>(s: Seq<(K, V)>, i: int)
    requires
        pair_keys_unique(s),
        0 <= i < s.len(),
    ensures
        pairs_map(s.remove(i)) == pairs_map(s).remove(s[i].0),
        pair_keys_unique(s.remove(i)),
    decreases s.len(),
{
    let k = s[i].0;
    let r = s.remove(i);
    assert(pair_keys_unique(r)) by {
        assert forall|a: int, b: int| 0 <= a < b < r.len() implies #[trigger] r[a].0 != #[trigger] r[b].0 by {
            let a2 = if a < i { a } else { a + 1 };
            let b2 = if b < i { b } else { b + 1 };
            assert(r[a] == s[a2] && r[b] == s[b2]);
        }
    }
    lemma_unique_drop_last(s);
    if i == s.len() - 1 {
        assert(r =~= s.drop_last());
        lemma_pairs_map_dom(s.drop_last(), k);
        if exists|j: int| 0 <= j < s.drop_last().len() && #[trigger] s.drop_last()[j].0 == k {
            let j = choose|j: int| 0 <= j < s.drop_last().len() && #[trigger] s.drop_last()[j].0 == k;
            assert(s[j].0 == k);
        }
        assert(pairs_map(r) =~= pairs_map(s).remove(k));
    } else {
        lemma_pairs_map_remove(s.drop_last(), i);
        assert(r.drop_last() =~= s.drop_last().remove(i));
        assert(r.last() == s.last());
        assert(s.last().0 != k);
        assert(pairs_map(r) =~= pairs_map(s).remove(k));
    }
}

/// Adding a pair with a new key adds it to the map and keeps the keys
/// distinct.
pub proof fn lemma_pairs_map_push<K, V>(s: Seq<(K, V)>, k: K, v: V)
    requires
        pair_keys_unique(s),
        !pairs_map(s).contains_key(k),
    ensures
        pairs_map(s.push((k, v))) == pairs_map(s).insert(k, v),
        pair_keys_unique(s.push((k, v))),
{
    let t = s.push((k, v));
    assert(t.drop_last() =~= s);
    assert(pair_keys_unique(t)) by {
        assert forall|a: int, b: int| 0 <= a < b < t.len() implies #[trigger] t[a].0 != #[trigger] t[b].0 by {
            if b == s.len() {
                lemma_pairs_map_dom(s, k);
                assert(t[a] == s[a]);
            } else {
                assert(t[a] == s[a] && t[b] == s[b]);
            }
        }
    }
}

/// The map has as many keys as there are pairs, when no key occurs twice.
pub proof fn lemma_pairs_map_len<K, V>(s: Seq<(K, V)>)
    requires
        pair_keys_unique(s),
    ensures
        pairs_map(s).dom().finite(),
        pairs_map(s).len() == s.len(),
    decreases s.len(),
{
    if s.len() > 0 {
        lemma_unique_drop_last(s);
        lemma_pairs_map_len(s.drop_last());
        lemma_pairs_map_dom(s.drop_last(), s.last().0);
        if pairs_map(s.drop_last()).contains_key(s.last().0) {
            let j = choose|j: int|
                0 <= j < s.drop_last().len() && #[trigger] s.drop_last()[j].0 == s.last().0;
            assert(s[j].0 == s.last().0);
        }
    }
}

// ---------------------------------------------------------------------------
// The manager
// ---------------------------------------------------------------------------

/// The playlists that are loaded: the persistent ones by the path of their
/// file, a temporary one, and the path of the persistent one being played.
#[derive(Debug)]
pub struct PlaylistManager {
    playlists: Vec<(String, Playlist)>,
    current_playlist_path: Option<String>,
    temporary_playlist: Option<Playlist>,
}

/// The playlists that are loaded, as values.
pub struct ManagerModel {
    /// The persistent playlists by path.
    pub playlists: Map<Seq<char>, PlaylistModel>,
    /// The path of the persistent playlist being played.
    pub current_path: Option<Seq<char>>,
    /// The temporary playlist.
    pub temporary: Option<PlaylistModel>,
}

impl ManagerModel {
    /// The playlist being played: the temporary one when there is one, else
    /// the persistent one at the current path.
    pub open spec fn current(self) -> Option<PlaylistModel> {
        match self.temporary {
            Some(t) => Some(t),
            None => match self.current_path {
                Some(p) => if self.playlists.contains_key(p) {
                    Some(self.playlists[p])
                } else {
                    None
                },
                None => None,
            },
        }
    }
}

/// The (path, playlist) pairs as values.
pub open spec fn entry_models(s: Seq<(String, Playlist)>) -> Seq<(Seq<char>, PlaylistModel)> {
    s.map_values(|e: (String, Playlist)| (e.0@, e.1@))
}

/// Changing a pair changes its view.
pub proof fn lemma_entry_models_update(s: Seq<(String, Playlist)>, i: int, e: (String, Playlist))
    requires
        0 <= i < s.len(),
    ensures
        entry_models(s.update(i, e)) == entry_models(s).update(i, (e.0@, e.1@)),
{
    assert(entry_models(s.update(i, e)) =~= entry_models(s).update(i, (e.0@, e.1@)));
}

/// Whether `v` is the value of some key of `m`.
pub open spec fn is_value_of(m: Map<Seq<char>, PlaylistModel>, v: PlaylistModel) -> bool {
    exists|k: Seq<char>| m.contains_key(k) && #[trigger] m[k] == v
}

/// The view of an optional playlist.
pub open spec fn opt_playlist(o: Option<Playlist>) -> Option<PlaylistModel> {
    match o {
        Some(p) => Some(p@),
        None => None,
    }
}

/// The view of an optional borrowed playlist.
pub open spec fn opt_playlist_ref(o: Option<&Playlist>) -> Option<PlaylistModel> {
    match o {
        Some(p) => Some(p@),
        None => None,
    }
}

/// The characters of an optional string.
pub open spec fn opt_chars(o: Option<String>) -> Option<Seq<char>> {
    match o {
        Some(s) => Some(s@),
        None => None,
    }
}

impl View for PlaylistManager {
    type V = ManagerModel;

    closed spec fn view(&self) -> ManagerModel {
        ManagerModel {
            playlists: pairs_map(entry_models(self.playlists@)),
            current_path: opt_chars(self.current_playlist_path),
            temporary: opt_playlist(self.temporary_playlist),
        }
    }
}

impl PlaylistManager {
    /// The manager's own consistency: no path is stored twice.
    pub closed spec fn wf(&self) -> bool {
        pair_keys_unique(entry_models(self.playlists@))
    }

    /// A manager with no playlist.
    pub fn new() -> (r: Self)
        ensures
            r.wf(),
            r@ == (ManagerModel { playlists: Map::empty(), current_path: None, temporary: None }),
    {
        let r = PlaylistManager {
            playlists: Vec::new(),
            current_playlist_path: None,
            temporary_playlist: None,
        };
        assert(entry_models(r.playlists@) =~= Seq::empty());
        r
    }

    /// The position of the playlist stored under `path`.
    fn position_of(&self, path: &str) -> (r: Option<usize>)
        requires
            self.wf(),
        ensures
            match r {
                Some(i) => i < self.playlists@.len() && self.playlists@[i as int].0@ == path@,
                None => !self@.playlists.contains_key(path@),
            },
    {
        let ghost es = entry_models(self.playlists@);
        let mut i: usize = 0;
        while i < self.playlists.len()
            invariant
                i <= self.playlists@.len(),
                es == entry_models(self.playlists@),
                forall|j: int| 0 <= j < i ==> #[trigger] es[j].0 != path@,
            decreases self.playlists@.len() - i,
        {
            assert(es[i as int].0 == self.playlists@[i as int].0@);
            if str_eq(self.playlists[i].0.as_str(), path) {
                return Some(i);
            }
            i += 1;
        }
        proof {
            lemma_pairs_map_dom(es, path@);
            if exists|j: int| 0 <= j < es.len() && #[trigger] es[j].0 == path@ {
                let j = choose|j: int| 0 <= j < es.len() && #[trigger] es[j].0 == path@;
                assert(es[j].0 != path@);
            }
        }
        None
    }

    /// Whether a persistent playlist is stored under `path`.
    pub fn contains_playlist(&self, playlist_path: &str) -> (r: bool)
        requires
            self.wf(),
        ensures
            r == self@.playlists.contains_key(playlist_path@),
    {
        match self.position_of(playlist_path) {
            Some(i) => {
                proof {
                    lemma_pairs_map_index(entry_models(self.playlists@), i as int);
                }
                true
            },
            None => false,
        }
    }

    /// The persistent playlist stored under `path`.
    pub fn get_playlist(&self, playlist_path: &str) -> (r: Option<&Playlist>)
        requires
            self.wf(),
        ensures
            match r {
                Some(p) => self@.playlists.contains_key(playlist_path@) && self@.playlists[playlist_path@]
                    == p@,
                None => !self@.playlists.contains_key(playlist_path@),
            },
    {
        match self.position_of(playlist_path) {
            Some(i) => {
                proof {
                    lemma_pairs_map_index(entry_models(self.playlists@), i as int);
                }
                Some(&self.playlists[i].1)
            },
            None => None,
        }
    }

    /// Stores `playlist` under `path`, replacing what was stored there.
    pub fn insert_playlist_at(&mut self, playlist_path: String, playlist: Playlist)
        requires
            old(self).wf(),
        ensures
            final(self).wf(),
            final(self)@ == (ManagerModel {
                playlists: old(self)@.playlists.insert(playlist_path@, playlist@),
                ..old(self)@
            }),
    {
        let ghost es = entry_models(self.playlists@);
        let ghost pv = playlist@;
        let ghost kv = playlist_path@;
        match self.position_of(playlist_path.as_str()) {
            Some(i) => {
                proof {
                    lemma_pairs_map_update(es, i as int, pv);
                }
                self.playlists.set(i, (playlist_path, playlist));
                assert(entry_models(self.playlists@) =~= es.update(i as int, (es[i as int].0, pv)));
            },
            None => {
                proof {
                    lemma_pairs_map_push(es, kv, pv);
                }
                self.playlists.push((playlist_path, playlist));
                assert(entry_models(self.playlists@) =~= es.push((kv, pv)));
            },
        }
    }

    /// The persistent playlist stored under `path`, to change it.
    pub fn get_playlist_mut(&mut self, playlist_path: &str) -> (r: Option<&mut Playlist>)
        requires
            old(self).wf(),
        ensures
            final(self).wf(),
            match r {
                Some(p) => {
                    &&& old(self)@.playlists.contains_key(playlist_path@)
                    &&& old(self)@.playlists[playlist_path@] == p@
                    &&& final(self)@ == (ManagerModel {
                        playlists: old(self)@.playlists.insert(playlist_path@, (*final(p))@),
                        ..old(self)@
                    })
                },
                None => !old(self)@.playlists.contains_key(playlist_path@) && final(self)@ == old(
                    self,
                )@,
            },
    {
        match self.position_of(playlist_path) {
            Some(i) => {
                let ghost es = entry_models(self.playlists@);
                proof {
                    lemma_pairs_map_index(es, i as int);
                }
                let ghost old_entries = self.playlists@;
                let ghost key = self.playlists@[i as int].0;
                let entry = &mut self.playlists[i];
                let p = &mut entry.1;
                proof {
                    lemma_pairs_map_update(es, i as int, (*final(p))@);
                    lemma_entry_models_update(old_entries, i as int, (key, *final(p)));
                }
                Some(p)
            },
            None => None,
        }
    }

    /// The playlist being played, to change it: the temporary one when there
    /// is one, else the persistent one at the current path.
    pub fn current_playlist(&mut self) -> (r: Option<&mut Playlist>)
        requires
            old(self).wf(),
        ensures
            final(self).wf(),
            match r {
                Some(p) => {
                    &&& old(self)@.current() == Some(p@)
                    &&& final(self)@ == (match old(self)@.temporary {
                        Some(_) => ManagerModel { temporary: Some((*final(p))@), ..old(self)@ },
                        None => ManagerModel {
                            playlists: old(self)@.playlists.insert(
                                old(self)@.current_path->0,
                                (*final(p))@,
                            ),
                            ..old(self)@
                        },
                    })
                },
                None => old(self)@.current() is None && final(self)@ == old(self)@,
            },
    {
        if self.temporary_playlist.is_some() {
            return self.temporary_playlist.as_mut();
        }
        let path = match &self.current_playlist_path {
            Some(p) => p.clone(),
            None => {
                return None;
            },
        };
        self.get_playlist_mut(path.as_str())
    }

    /// The playlist being played: the temporary one when there is one, else
    /// the persistent one at the current path.
    pub fn current_playlist_ref(&self) -> (r: Option<&Playlist>)
        requires
            self.wf(),
        ensures
            opt_playlist_ref(r) == self@.current(),
    {
        match &self.temporary_playlist {
            Some(t) => Some(t),
            None => match &self.current_playlist_path {
                Some(p) => self.get_playlist(p.as_str()),
                None => None,
            },
        }
    }

    /// The path of the persistent playlist being played.
    pub fn current_playlist_path(&self) -> (r: Option<&str>)
        ensures
            match r {
                Some(p) => self@.current_path == Some(p@),
                None => self@.current_path is None,
            },
    {
        match &self.current_playlist_path {
            Some(p) => Some(p.as_str()),
            None => None,
        }
    }

    /// Plays the persistent playlist stored under `path`, dropping the
    /// temporary playlist; an empty path plays nothing. A path under which
    /// nothing is stored is refused as not found, and nothing changes.
    pub fn set_current_playlist(&mut self, playlist_path: &str) -> (r: Result<(), PlayerError>)
        requires
            old(self).wf(),
        ensures
            final(self).wf(),
            playlist_path@.len() == 0 ==> r is Ok && final(self)@ == (ManagerModel {
                current_path: None,
                temporary: None,
                ..old(self)@
            }),
            playlist_path@.len() > 0 && !old(self)@.playlists.contains_key(playlist_path@) ==> (r matches Err(
                PlayerError::FileNotFound(m),
            ) && m@ == playlist_path@) && final(self)@ == old(self)@,
            playlist_path@.len() > 0 && old(self)@.playlists.contains_key(playlist_path@) ==> r is Ok
                && final(self)@ == (ManagerModel {
                current_path: Some(playlist_path@),
                temporary: None,
                ..old(self)@
            }),
    {
        if playlist_path.is_empty() {
            self.current_playlist_path = None;
            self.temporary_playlist = None;
            return Ok(());
        }
        if !self.contains_playlist(playlist_path) {
            return Err(PlayerError::FileNotFound(playlist_path.to_owned()));
        }
        self.current_playlist_path = Some(playlist_path.to_owned());
        self.temporary_playlist = None;
        Ok(())
    }

    /// Plays a new temporary playlist of the given files (see
    /// [`Playlist::create_from_audio_files`]).
    pub fn set_current_playlist_from_files(&mut self, file_paths: Vec<String>) -> (r: Result<
        (),
        PlayerError,
    >)
        requires
            old(self).wf(),
        ensures
            final(self).wf(),
            r is Ok,
            final(self)@ == (ManagerModel {
                current_path: None,
                temporary: Some(
                    PlaylistModel {
                        files: str_views(file_paths@),
                        current: if file_paths@.len() > 0 {
                            Some(0)
                        } else {
                            None
                        },
                        ..empty_playlist(None)
                    },
                ),
                ..old(self)@
            }),
    {
        let temp = Playlist::create_from_audio_files(file_paths);
        self.temporary_playlist = Some(temp);
        self.current_playlist_path = None;
        Ok(())
    }

    /// Keeps a playlist: a persistent one under the path of its file
    /// (replacing what was stored there), a temporary one as the temporary
    /// playlist.
    pub fn insert_playlist(&mut self, playlist: Playlist)
        requires
            old(self).wf(),
        ensures
            final(self).wf(),
            final(self)@ == (match playlist@.file_path {
                Some(p) => ManagerModel {
                    playlists: old(self)@.playlists.insert(p, playlist@),
                    ..old(self)@
                },
                None => ManagerModel { temporary: Some(playlist@), ..old(self)@ },
            }),
    {
        let path = match playlist.file_path() {
            Some(p) => Some(p.to_owned()),
            None => None,
        };
        match path {
            Some(p) => self.insert_playlist_at(p, playlist),
            None => {
                self.temporary_playlist = Some(playlist);
            },
        }
    }

    /// Keeps a playlist (see [`PlaylistManager::insert_playlist`]) and plays
    /// it.
    pub fn insert_and_set_current_playlist(&mut self, playlist: Playlist)
        requires
            old(self).wf(),
        ensures
            final(self).wf(),
            final(self)@ == (match playlist@.file_path {
                Some(p) => ManagerModel {
                    playlists: old(self)@.playlists.insert(p, playlist@),
                    current_path: Some(p),
                    temporary: None,
                },
                None => ManagerModel {
                    temporary: Some(playlist@),
                    current_path: None,
                    ..old(self)@
                },
            }),
            final(self)@.current() == Some(playlist@),
    {
        let path = match playlist.file_path() {
            Some(p) => Some(p.to_owned()),
            None => None,
        };
        match path {
            Some(p) => {
                let key = p.clone();
                self.insert_playlist_at(p, playlist);
                self.temporary_playlist = None;
                self.current_playlist_path = Some(key);
            },
            None => {
                self.temporary_playlist = Some(playlist);
                self.current_playlist_path = None;
            },
        }
    }

    /// Forgets the persistent playlist stored under `path`; when it was
    /// being played, no persistent playlist is.
    pub fn remove_playlist(&mut self, playlist_path: &str)
        requires
            old(self).wf(),
        ensures
            final(self).wf(),
            final(self)@ == (ManagerModel {
                playlists: old(self)@.playlists.remove(playlist_path@),
                current_path: if old(self)@.current_path == Some(playlist_path@) {
                    None
                } else {
                    old(self)@.current_path
                },
                ..old(self)@
            }),
    {
        let ghost es = entry_models(self.playlists@);
        match self.position_of(playlist_path) {
            Some(i) => {
                proof {
                    lemma_pairs_map_remove(es, i as int);
                }
                self.playlists.remove(i);
                assert(entry_models(self.playlists@) =~= es.remove(i as int));
            },
            None => {
                assert(pairs_map(es).remove(playlist_path@) =~= pairs_map(es));
            },
        }
        let is_current = match &self.current_playlist_path {
            Some(p) => str_eq(p.as_str(), playlist_path),
            None => false,
        };
        if is_current {
            self.current_playlist_path = None;
        }
    }

    /// Forgets every persistent playlist; no persistent playlist is played.
    /// The temporary playlist stays.
    pub fn clear_all(&mut self)
        requires
            old(self).wf(),
        ensures
            final(self).wf(),
            final(self)@ == (ManagerModel {
                playlists: Map::empty(),
                current_path: None,
                ..old(self)@
            }),
    {
        self.playlists = Vec::new();
        self.current_playlist_path = None;
        assert(entry_models(self.playlists@) =~= Seq::empty());
    }

    /// The number of persistent playlists.
    pub fn cached_count(&self) -> (r: usize)
        requires
            self.wf(),
        ensures
            r == self@.playlists.len(),
    {
        proof {
            lemma_pairs_map_len(entry_models(self.playlists@));
        }
        self.playlists.len()
    }

    /// Whether the playlist being played is the temporary one.
    pub fn is_current_temporary(&self) -> (r: bool)
        ensures
            r == (self@.temporary is Some),
    {
        self.temporary_playlist.is_some()
    }

    /// The paths of the persistent playlists, each once.
    pub fn cached_playlist_paths(&self) -> (r: Vec<&str>)
        requires
            self.wf(),
        ensures
            r@.len() == self@.playlists.len(),
            forall|i: int| 0 <= i < r@.len() ==> self@.playlists.contains_key(#[trigger] r@[i]@),
            forall|i: int, j: int| 0 <= i < j < r@.len() ==> #[trigger] r@[i]@ != #[trigger] r@[j]@,
    {
        let pairs = self.get_persistent_playlists_with_paths();
        let mut r: Vec<&str> = Vec::new();
        let mut i: usize = 0;
        while i < pairs.len()
            invariant
                i <= pairs@.len(),
                r@.len() == i,
                forall|k: int| 0 <= k < i ==> #[trigger] r@[k] == pairs@[k].0,
            decreases pairs@.len() - i,
        {
            r.push(pairs[i].0);
            i += 1;
        }
        assert forall|a: int, b: int| 0 <= a < b < r@.len() implies #[trigger] r@[a]@ != #[trigger] r@[b]@ by {
            assert(r@[a] == pairs@[a].0 && r@[b] == pairs@[b].0);
        }
        assert forall|a: int| 0 <= a < r@.len() implies self@.playlists.contains_key(#[trigger] r@[a]@) by {
            assert(r@[a] == pairs@[a].0);
        }
        r
    }

    /// The persistent playlists, each once.
    pub fn get_persistent_playlists(&self) -> (r: Vec<&Playlist>)
        requires
            self.wf(),
        ensures
            r@.len() == self@.playlists.len(),
            forall|i: int| 0 <= i < r@.len() ==> is_value_of(self@.playlists, #[trigger] r@[i]@),
    {
        let pairs = self.get_persistent_playlists_with_paths();
        let mut r: Vec<&Playlist> = Vec::new();
        let mut i: usize = 0;
        while i < pairs.len()
            invariant
                i <= pairs@.len(),
                r@.len() == i,
                forall|k: int| 0 <= k < i ==> #[trigger] r@[k] == pairs@[k].1,
            decreases pairs@.len() - i,
        {
            r.push(pairs[i].1);
            i += 1;
        }
        assert forall|a: int| 0 <= a < r@.len() implies is_value_of(self@.playlists, #[trigger] r@[a]@) by {
            assert(r@[a] == pairs@[a].1);
            let k = pairs@[a].0@;
            assert(self@.playlists.contains_key(k));
            assert(self@.playlists[k] == r@[a]@);
        }
        r
    }

    /// The persistent playlists with their paths, each once.
    pub fn get_persistent_playlists_with_paths(&self) -> (r: Vec<(&str, &Playlist)>)
        requires
            self.wf(),
        ensures
            r@.len() == self@.playlists.len(),
            forall|i: int|
                0 <= i < r@.len() ==> self@.playlists.contains_key(#[trigger] r@[i].0@)
                    && self@.playlists[r@[i].0@] == r@[i].1@,
            forall|i: int, j: int| 0 <= i < j < r@.len() ==> #[trigger] r@[i].0@ != #[trigger] r@[j].0@,
            forall|k: Seq<char>|
                self@.playlists.contains_key(k) ==> exists|i: int| 0 <= i < r@.len() && #[trigger] r@[i].0@ == k,
    {
        let ghost es = entry_models(self.playlists@);
        proof {
            lemma_pairs_map_len(es);
        }
        let mut r: Vec<(&str, &Playlist)> = Vec::new();
        let mut i: usize = 0;
        while i < self.playlists.len()
            invariant
                i <= self.playlists@.len(),
                es == entry_models(self.playlists@),
                pair_keys_unique(es),
                r@.len() == i,
                forall|k: int|
                    0 <= k < i ==> (#[trigger] r@[k]).0@ == es[k].0 && r@[k].1@ == es[k].1,
            decreases self.playlists@.len() - i,
        {
            let e = &self.playlists[i];
            assert(es[i as int] == (e.0@, e.1@));
            r.push((e.0.as_str(), &e.1));
            i += 1;
        }
        assert forall|a: int|
            0 <= a < r@.len() implies self@.playlists.contains_key(#[trigger] r@[a].0@)
                && self@.playlists[r@[a].0@] == r@[a].1@ by {
            lemma_pairs_map_index(es, a);
        }
        assert forall|a: int, b: int| 0 <= a < b < r@.len() implies #[trigger] r@[a].0@ != #[trigger] r@[b].0@ by {
            assert(es[a].0 != es[b].0);
        }
        assert forall|k: Seq<char>| self@.playlists.contains_key(k) implies exists|i: int|
            0 <= i < r@.len() && #[trigger] r@[i].0@ == k by {
            lemma_pairs_map_dom(es, k);
            let i = choose|i: int| 0 <= i < es.len() && #[trigger] es[i].0 == k;
            assert(r@[i].0@ == k);
        }
        r
    }

    /// Takes the renaming of a playlist file into account: the playlist
    /// stored under the old path is forgotten, the reloaded one (when it
    /// could be read) is stored under the new path, and a playlist that was
    /// being played under the old path is played under the new one.
    pub fn replace_renamed_playlist(&mut self, old_path: &str, new_path: String, reloaded: Option<Playlist>)
        requires
            old(self).wf(),
        ensures
            final(self).wf(),
            final(self)@ == (ManagerModel {
                playlists: match reloaded {
                    Some(p) => old(self)@.playlists.remove(old_path@).insert(new_path@, p@),
                    None => old(self)@.playlists.remove(old_path@),
                },
                current_path: if old(self)@.current_path == Some(old_path@) {
                    Some(new_path@)
                } else {
                    old(self)@.current_path
                },
                ..old(self)@
            }),
    {
        let was_current = match &self.current_playlist_path {
            Some(p) => str_eq(p.as_str(), old_path),
            None => false,
        };
        let key = new_path.clone();
        self.remove_playlist(old_path);
        match reloaded {
            Some(p) => self.insert_playlist_at(new_path, p),
            None => {},
        }
        if was_current {
            self.current_playlist_path = Some(key);
        }
    }
}

/// What the manager keeps: a playlist kept under a path is what is found
/// under it afterwards, other paths keep what they had, a forgotten path is
/// not found, and playing a kept persistent playlist makes it the current
/// one.
pub proof fn lemma_manager_store(m: ManagerModel, k: Seq<char>, v: PlaylistModel, other: Seq<char>)
    ensures
        m.playlists.insert(k, v).contains_key(k),
        m.playlists.insert(k, v)[k] == v,
        other != k ==> m.playlists.insert(k, v).contains_key(other) == m.playlists.contains_key(other),
        other != k && m.playlists.contains_key(other) ==> m.playlists.insert(k, v)[other] == m.playlists[other],
        !m.playlists.remove(k).contains_key(k),
        m.playlists.contains_key(k) ==> (ManagerModel {
            current_path: Some(k),
            temporary: None,
            ..m
        }).current() == Some(m.playlists[k]),
{
}

// ---------------------------------------------------------------------------
// Playlist files
// ---------------------------------------------------------------------------

/// Whether a path names a playlist file rather than an audio file: it ends
/// with `.m3u` or `.m3u8`.
pub fn is_playlist_file_path(path: &str) -> (r: bool)
    ensures
        r == (".m3u"@.is_suffix_of(path@) || ".m3u8"@.is_suffix_of(path@)),
{
    ends_with_str(path, ".m3u") || ends_with_str(path, ".m3u8")
}

/// The name a new playlist file is made from: the given name without
/// surrounding whitespace, or `New Playlist` when nothing is left.
pub fn playlist_base_name(name: &str) -> (r: String)
    ensures
        r@ == (if trim(name@).len() == 0 {
            "New Playlist"@
        } else {
            trim(name@)
        }),
{
    let cs = chars_of(name);
    let t = trim_chars(&cs);
    if t.len() == 0 {
        "New Playlist".to_owned()
    } else {
        string_of(&t)
    }
}

/// The file name of a playlist made from `base`: `base.m3u` at the first
/// try, `base (n).m3u` at the try after `n` names were taken.
pub fn playlist_file_name(base: &str, counter: u64) -> (r: String)
    ensures
        r@ == (if counter == 0 {
            base@ + ".m3u"@
        } else {
            base@ + " ("@ + decimal(counter as nat) + ").m3u"@
        }),
{
    let mut r = base.to_owned();
    if counter == 0 {
        r.append(".m3u");
    } else {
        r.append(" (");
        r.append(decimal_string(counter).as_str());
        r.append(").m3u");
    }
    r
}

} // verus!
