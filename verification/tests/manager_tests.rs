use summer_player::error::PlayerError;
use summer_player::playlist::manager::{
    is_playlist_file_path, playlist_base_name, playlist_file_name, PlaylistManager,
};
use summer_player::playlist::{M3uEntry, Playlist};
use summer_player::ui::components::get_playlist_files_info_from_manager;

fn stored(path: &str, files: &[&str]) -> Playlist {
    let entries: Vec<M3uEntry> = files
        .iter()
        .map(|f| M3uEntry::File { path: f.to_string(), exists: true })
        .collect();
    Playlist::from_m3u_entries(path.to_string(), &entries)
}

#[test]
fn playlists_are_kept_by_path() {
    let mut m = PlaylistManager::new();
    assert_eq!(m.cached_count(), 0);
    m.insert_playlist(stored("/l/b.m3u", &["x"]));
    m.insert_playlist(stored("/l/a.m3u", &["y", "z"]));
    m.insert_playlist(stored("/l/b.m3u", &["x", "w"]));
    assert_eq!(m.cached_count(), 2);
    assert!(m.contains_playlist("/l/a.m3u"));
    assert_eq!(m.get_playlist("/l/b.m3u").unwrap().len(), 2);
    let mut keys: Vec<&str> = m.cached_playlist_paths();
    keys.sort();
    assert_eq!(keys, vec!["/l/a.m3u", "/l/b.m3u"]);
    assert_eq!(m.get_persistent_playlists().len(), 2);
    m.remove_playlist("/l/b.m3u");
    assert!(!m.contains_playlist("/l/b.m3u"));
    assert_eq!(m.cached_count(), 1);
}

#[test]
fn the_current_playlist_is_temporary_first() {
    let mut m = PlaylistManager::new();
    m.insert_playlist(stored("/l/a.m3u", &["one"]));
    assert!(m.current_playlist_ref().is_none());
    assert!(m.set_current_playlist("/l/a.m3u").is_ok());
    assert_eq!(m.current_playlist_path(), Some("/l/a.m3u"));
    assert_eq!(m.current_playlist_ref().unwrap().len(), 1);
    m.set_current_playlist_from_files(vec!["t1".to_string(), "t2".to_string()]).unwrap();
    assert!(m.is_current_temporary());
    assert_eq!(m.current_playlist_path(), None);
    assert_eq!(m.current_playlist_ref().unwrap().len(), 2);
    let current = m.current_playlist().unwrap();
    current.next_file();
    assert_eq!(m.current_playlist_ref().unwrap().current_index(), Some(1));
    assert!(m.set_current_playlist("").is_ok());
    assert!(m.current_playlist_ref().is_none());
    assert!(!m.is_current_temporary());
}

#[test]
fn an_unknown_playlist_is_not_found() {
    let mut m = PlaylistManager::new();
    match m.set_current_playlist("/nowhere.m3u") {
        Err(PlayerError::FileNotFound(p)) => assert_eq!(p, "/nowhere.m3u"),
        other => panic!("unexpected {:?}", other),
    }
}

#[test]
fn inserting_and_playing_a_playlist() {
    let mut m = PlaylistManager::new();
    m.insert_and_set_current_playlist(stored("/l/a.m3u", &["one", "two"]));
    assert_eq!(m.current_playlist_path(), Some("/l/a.m3u"));
    m.current_playlist().unwrap().set_current_index(1);
    assert_eq!(m.get_playlist("/l/a.m3u").unwrap().current_index(), Some(1));
    m.insert_and_set_current_playlist(Playlist::create_from_audio_files(vec!["t".to_string()]));
    assert!(m.is_current_temporary());
    assert_eq!(m.current_playlist_path(), None);
    m.remove_playlist("/l/a.m3u");
    assert!(m.is_current_temporary());
    m.clear_all();
    assert_eq!(m.cached_count(), 0);
    assert!(m.is_current_temporary());
}

#[test]
fn a_renamed_playlist_keeps_being_played() {
    let mut m = PlaylistManager::new();
    m.insert_and_set_current_playlist(stored("/l/old.m3u", &["one"]));
    m.replace_renamed_playlist("/l/old.m3u", "/l/new.m3u".to_string(), Some(stored("/l/new.m3u", &["one"])));
    assert!(!m.contains_playlist("/l/old.m3u"));
    assert!(m.contains_playlist("/l/new.m3u"));
    assert_eq!(m.current_playlist_path(), Some("/l/new.m3u"));
    m.replace_renamed_playlist("/l/new.m3u", "/l/gone.m3u".to_string(), None);
    assert_eq!(m.cached_count(), 0);
    assert_eq!(m.current_playlist_path(), Some("/l/gone.m3u"));
}

#[test]
fn playlist_file_names() {
    assert_eq!(playlist_base_name("  Road Trip "), "Road Trip");
    assert_eq!(playlist_base_name("   "), "New Playlist");
    assert_eq!(playlist_file_name("Road Trip", 0), "Road Trip.m3u");
    assert_eq!(playlist_file_name("Road Trip", 2), "Road Trip (2).m3u");
    assert!(is_playlist_file_path("/x/list.m3u8"));
    assert!(is_playlist_file_path("list.m3u"));
    assert!(!is_playlist_file_path("list.M3U"));
    assert!(!is_playlist_file_path("song.mp3"));
}

#[test]
fn the_playlist_page_lists_files_by_name() {
    let mut m = PlaylistManager::new();
    m.insert_playlist(stored("/l/zeta.m3u", &["1", "2", "3"]));
    m.insert_playlist(stored("/l/Alpha.m3u", &[]));
    m.insert_playlist(stored("/l/beta.m3u", &["1"]));
    m.insert_playlist_at("/song.mp3".to_string(), Playlist::create_from_audio_files(vec!["/song.mp3".to_string()]));
    let infos = get_playlist_files_info_from_manager(&m);
    let names: Vec<&str> = infos.iter().map(|i| i.name.as_str()).collect();
    assert_eq!(names, vec!["Alpha.m3u", "beta.m3u", "zeta.m3u"]);
    assert_eq!(infos[2].song_count, 3);
    assert_eq!(infos[0].path, "/l/Alpha.m3u");
}
