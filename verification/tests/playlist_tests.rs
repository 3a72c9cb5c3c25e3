use summer_player::playlist::{classify_selection, classify_selection_with, FileSelection};
use summer_player::playlist::CachedDuration;
use summer_player::playlist::entry_icon;
use summer_player::playlist::{
    parse_m3u_line, random_pick, M3uEntry, M3uLine, Playlist, PlaylistExtraInfo,
};
use summer_player::ui::components::PlayMode;

fn paths(v: &[&str]) -> Vec<String> {
    v.iter().map(|s| s.to_string()).collect()
}

#[test]
fn test_playlist_creation() {
    let playlist = Playlist::new();
    assert!(playlist.is_empty());
    assert_eq!(playlist.len(), 0);
    assert!(playlist.current_file_path().is_none());
}

#[test]
fn test_playlist_operations() {
    let mut playlist = Playlist::new();

    playlist.add_file("test1.mp3".to_string());
    playlist.add_file("test2.mp3".to_string());

    assert_eq!(playlist.len(), 2);
    assert!(!playlist.is_empty());

    assert!(playlist.next_file().is_some());
    assert_eq!(playlist.current_index(), Some(0));

    assert!(playlist.next_file().is_some());
    assert_eq!(playlist.current_index(), Some(1));

    assert!(playlist.next_file().is_none());

    assert!(playlist.previous_file().is_some());
    assert_eq!(playlist.current_index(), Some(0));
}

#[test]
fn test_create_from_multiple_audio_files() {
    let file_paths = vec![
        "song1.mp3".to_string(),
        "song2.flac".to_string(),
        "song3.wav".to_string(),
    ];

    let playlist = Playlist::create_from_audio_files(file_paths);

    assert_eq!(playlist.len(), 3);
    assert!(!playlist.is_empty());
    assert_eq!(playlist.current_index(), Some(0));
    assert!(playlist.is_temporary());

    let paths = playlist.file_paths();
    assert_eq!(paths[0], "song1.mp3");
    assert_eq!(paths[1], "song2.flac");
    assert_eq!(paths[2], "song3.wav");
}

#[test]
fn test_create_from_single_audio_file_convenience() {
    let playlist = Playlist::create_from_audio_files(vec!["single_song.mp3".to_string()]);

    assert_eq!(playlist.len(), 1);
    assert!(!playlist.is_empty());
    assert_eq!(playlist.current_index(), Some(0));
    assert!(playlist.is_temporary());

    let paths = playlist.file_paths();
    assert_eq!(paths[0], "single_song.mp3");
}

#[test]
fn test_create_from_empty_audio_files() {
    let playlist = Playlist::create_from_audio_files(vec![]);

    assert_eq!(playlist.len(), 0);
    assert!(playlist.is_empty());
    assert_eq!(playlist.current_index(), None);
    assert!(playlist.is_temporary());
}

#[test]
fn list_loop_wraps_both_ways() {
    let mut p = Playlist::create_from_audio_files(paths(&["a", "b", "c"]));
    let (f, restart) = p.next_file_with_mode(&PlayMode::ListLoop);
    assert_eq!(f.map(|s| s.as_str()), Some("b"));
    assert!(!restart);
    p.next_file_with_mode(&PlayMode::ListLoop);
    let (f, _) = p.next_file_with_mode(&PlayMode::ListLoop);
    assert_eq!(f.map(|s| s.as_str()), Some("a"));
    let (f, _) = p.previous_file_with_mode(&PlayMode::ListLoop);
    assert_eq!(f.map(|s| s.as_str()), Some("c"));
    assert_eq!(p.current_index(), Some(2));
}

#[test]
fn single_loop_restarts_the_same_song() {
    let mut p = Playlist::create_from_audio_files(paths(&["a", "b"]));
    let (f, restart) = p.next_file_with_mode(&PlayMode::SingleLoop);
    assert_eq!(f.map(|s| s.as_str()), Some("a"));
    assert!(restart);
    let (f, restart) = p.previous_file_with_mode(&PlayMode::SingleLoop);
    assert_eq!(f.map(|s| s.as_str()), Some("a"));
    assert!(restart);
}

#[test]
fn random_never_repeats_the_current_song() {
    let mut p = Playlist::create_from_audio_files(paths(&["a", "b", "c"]));
    for _ in 0..200 {
        let before = p.current_index();
        let (f, restart) = p.next_file_with_mode(&PlayMode::Random);
        assert!(f.is_some());
        assert!(!restart);
        assert_ne!(p.current_index(), before);
        let before = p.current_index();
        p.previous_file_with_mode(&PlayMode::Random);
        assert_ne!(p.current_index(), before);
    }
    let mut one = Playlist::create_from_audio_files(paths(&["only"]));
    let (f, restart) = one.next_file_with_mode(&PlayMode::Random);
    assert_eq!(f.map(|s| s.as_str()), Some("only"));
    assert!(restart);
}

#[test]
fn random_pick_skips_the_current_position() {
    assert_eq!(random_pick(0, 3, Some(0)), 1);
    assert_eq!(random_pick(1, 3, Some(0)), 2);
    assert_eq!(random_pick(0, 3, Some(1)), 0);
    assert_eq!(random_pick(1, 3, Some(1)), 2);
    assert_eq!(random_pick(2, 3, None), 2);
}

#[test]
fn empty_playlist_gives_nothing_in_any_mode() {
    let mut p = Playlist::new();
    assert_eq!(p.next_file_with_mode(&PlayMode::ListLoop), (None, false));
    assert_eq!(p.previous_file_with_mode(&PlayMode::Random), (None, false));
    assert_eq!(p.next_file(), None);
    assert_eq!(p.previous_file(), None);
}

#[test]
fn removing_files_keeps_the_current_song() {
    let mut p = Playlist::create_from_audio_files(paths(&["a", "b", "c", "d"]));
    p.set_current_index(2);
    assert!(p.remove_file(0));
    assert_eq!(p.current_file_path().map(|s| s.as_str()), Some("c"));
    assert_eq!(p.current_index(), Some(1));
    assert!(p.remove_file(2));
    assert_eq!(p.current_file_path().map(|s| s.as_str()), Some("c"));
    assert!(p.remove_file(1));
    assert_eq!(p.current_index(), Some(0));
    assert_eq!(p.current_file_path().map(|s| s.as_str()), Some("b"));
    assert!(!p.remove_file(5));
    assert!(p.remove_file(0));
    assert_eq!(p.current_index(), None);
    assert!(p.is_empty());
}

#[test]
fn removing_the_last_playing_file_plays_the_new_last() {
    let mut p = Playlist::create_from_audio_files(paths(&["a", "b", "c"]));
    p.set_current_index(2);
    assert!(p.remove_file(2));
    assert_eq!(p.current_index(), Some(1));
    assert_eq!(p.set_current_index(7), None);
    assert_eq!(p.current_index(), Some(1));
}

#[test]
fn extra_information_is_replaced_per_path() {
    let mut p = Playlist::with_name("mix".to_string());
    assert_eq!(p.name(), Some("mix"));
    p.set_extra_info(PlaylistExtraInfo::new("a".to_string()).with_name("First".to_string()));
    p.set_extra_info(PlaylistExtraInfo::new("b".to_string()).with_duration(Some(1000)));
    p.set_extra_info(PlaylistExtraInfo::new("a".to_string()).with_duration(Some(2000)));
    let a = p.extra_info_for("a").unwrap();
    assert_eq!(a.name, None);
    assert_eq!(a.duration_ms, Some(2000));
    assert_eq!(p.extra_info_for("b").unwrap().duration_ms, Some(1000));
    assert!(p.extra_info_for("c").is_none());
    p.add_files(paths(&["x", "y"]));
    p.clear();
    assert!(p.is_empty());
    assert!(p.extra_info_for("a").is_none());
    assert_eq!(p.name(), Some("mix"));
}

#[test]
fn m3u_lines_are_classified() {
    match parse_m3u_line("  #EXTINF:123,Artist - Title ") {
        M3uLine::ExtInf { duration, title } => {
            assert_eq!(duration, "123");
            assert_eq!(title, "Artist - Title");
        }
        other => panic!("unexpected {:?}", other),
    }
    assert!(matches!(parse_m3u_line("#EXTM3U"), M3uLine::Directive));
    assert!(matches!(parse_m3u_line("#EXTINF:123"), M3uLine::Directive));
    assert!(matches!(parse_m3u_line("   "), M3uLine::Blank));
    match parse_m3u_line(" music/a.mp3\r") {
        M3uLine::Path(p) => assert_eq!(p, "music/a.mp3"),
        other => panic!("unexpected {:?}", other),
    }
}

#[test]
fn m3u_entries_keep_existing_files_with_their_info() {
    let entries = vec![
        M3uEntry::Info { duration_ms: Some(61_000), title: "One".to_string() },
        M3uEntry::File { path: "/m/missing.mp3".to_string(), exists: false },
        M3uEntry::File { path: "/m/one.mp3".to_string(), exists: true },
        M3uEntry::Info { duration_ms: None, title: "Ignored".to_string() },
        M3uEntry::File { path: "/m/two.mp3".to_string(), exists: true },
    ];
    let p = Playlist::from_m3u_entries("/lists/My List.m3u".to_string(), &entries);
    assert_eq!(p.name(), Some("My List.m3u"));
    assert_eq!(p.file_path(), Some("/lists/My List.m3u"));
    assert!(!p.is_temporary());
    assert_eq!(p.file_paths(), &["/m/one.mp3".to_string(), "/m/two.mp3".to_string()][..]);
    assert_eq!(p.current_index(), None);
    let one = p.extra_info_for("/m/one.mp3").unwrap();
    assert_eq!(one.name.as_deref(), Some("One"));
    assert_eq!(one.duration_ms, Some(61_000));
    let two = p.extra_info_for("/m/two.mp3").unwrap();
    assert_eq!(two.name, None);
    assert_eq!(two.duration_ms, None);
}

#[test]
fn the_view_shows_names_durations_and_the_current_file() {
    let mut p = Playlist::create_from_audio_files(paths(&["/m/a.mp3", "/m/b.mp3"]));
    p.set_extra_info(PlaylistExtraInfo::new("/m/b.mp3".to_string()).with_name("Bee".to_string()).with_duration(Some(90_000)));
    let view = p.display_entries();
    assert_eq!(view.len(), 2);
    assert_eq!(view[0].display_name, "a.mp3");
    assert!(view[0].is_current);
    assert_eq!(view[0].duration_ms, None);
    assert_eq!(view[1].display_name, "Bee");
    assert_eq!(view[1].duration_ms, Some(90_000));
    assert!(!view[1].is_current);
    assert_eq!(entry_icon(true, true), "🎵");
    assert_eq!(entry_icon(true, false), "⏸");
    assert_eq!(entry_icon(false, true), "🎼");
}

#[test]
fn a_new_duration_keeps_the_recorded_name() {
    let mut p = Playlist::create_from_audio_files(paths(&["a", "b", "c"]));
    p.set_extra_info(PlaylistExtraInfo::new("a".to_string()).with_name("Song A".to_string()));
    p.set_duration("a", Some(1234));
    p.set_duration("b", Some(5678));
    let a = p.extra_info_for("a").unwrap();
    assert_eq!(a.name.as_deref(), Some("Song A"));
    assert_eq!(a.duration_ms, Some(1234));
    let b = p.extra_info_for("b").unwrap();
    assert_eq!(b.name, None);
    assert_eq!(b.duration_ms, Some(5678));
}

#[test]
fn durations_are_looked_for_where_nobody_knows_them() {
    let mut p = Playlist::create_from_audio_files(paths(&["a", "b", "c", "d"]));
    p.set_duration("b", Some(1000));
    let cache = [
        CachedDuration::NotCached,
        CachedDuration::NotCached,
        CachedDuration::Unknown,
        CachedDuration::Known,
    ];
    assert_eq!(p.files_needing_duration(&cache), vec!["a".to_string(), "c".to_string()]);
}

#[test]
fn a_choice_of_files_is_one_playlist_or_audio_files() {
    assert_eq!(classify_selection(&[]), FileSelection::Nothing);
    assert_eq!(classify_selection(&paths(&["a.mp3", "b.M3U"])), FileSelection::Mixed);
    assert_eq!(classify_selection(&paths(&["a.m3u", "b.m3u8"])), FileSelection::SeveralPlaylists);
    assert_eq!(classify_selection(&paths(&["list.m3u8"])), FileSelection::OnePlaylist("list.m3u8".to_string()));
    assert_eq!(
        classify_selection(&paths(&["a.mp3", "b.flac"])),
        FileSelection::AudioFiles(paths(&["a.mp3", "b.flac"]))
    );
    assert_eq!(classify_selection_with(&paths(&["x", "y"]), &[true, false]), FileSelection::Mixed);
}

#[test]
fn the_view_falls_back_to_the_opened_files_durations() {
    let mut p = Playlist::create_from_audio_files(paths(&["/m/a.mp3", "/m/b.mp3", "/m/c.mp3"]));
    p.set_extra_info(PlaylistExtraInfo::new("/m/b.mp3".to_string()).with_duration(Some(90_000)));
    let view = p.display_entries_with_cache(&[Some(5_000), Some(1_000)]);
    assert_eq!(view[0].duration_ms, Some(5_000));
    assert_eq!(view[1].duration_ms, Some(90_000));
    assert_eq!(view[2].duration_ms, None);
}
