use summer_player::utils::{
    decimal_string, extract_filename, extract_filename_without_extension, format_duration,
    is_m3u_extension, is_m3u_playlist, is_supported_audio_extension, is_supported_audio_file,
    name_or_unknown, normalize_path,
};

#[test]
fn test_format_duration() {
    assert_eq!(format_duration(0.0 as u64), "00:00");
    assert_eq!(format_duration(65.0 as u64), "01:05");
    assert_eq!(format_duration(3661.0 as u64), "01:01:01");
}

#[test]
fn test_is_m3u_playlist() {
    assert!(is_m3u_playlist("test.m3u"));
    assert!(is_m3u_playlist("test.M3U"));
    assert!(is_m3u_playlist("test.m3u8"));
    assert!(!is_m3u_playlist("test.mp3"));
    assert!(!is_m3u_playlist("test.txt"));
}

#[test]
fn test_is_supported_audio_file() {
    assert!(is_supported_audio_file("test.mp3"));
    assert!(is_supported_audio_file("test.FLAC"));
    assert!(is_supported_audio_file("test.m4a"));
    assert!(!is_supported_audio_file("test.txt"));
    assert!(!is_supported_audio_file("test.m3u"));
}

#[test]
fn test_extract_filename() {
    assert_eq!(extract_filename("/path/to/file.mp3"), "file.mp3");
    assert_eq!(extract_filename("file.mp3"), "file.mp3");
    assert_eq!(extract_filename(""), "Unknown");
}

#[test]
fn durations_pad_and_grow() {
    assert_eq!(format_duration(9), "00:09");
    assert_eq!(format_duration(3599), "59:59");
    assert_eq!(format_duration(3600), "01:00:00");
    assert_eq!(format_duration(360_000), "100:00:00");
    assert_eq!(decimal_string(0), "0");
    assert_eq!(decimal_string(18_446_744_073_709_551_615), "18446744073709551615");
}

#[test]
fn extensions_are_compared_in_lowercase() {
    assert!(is_m3u_extension("m3u8"));
    assert!(!is_m3u_extension("M3U"));
    assert!(is_supported_audio_extension("opus"));
    assert!(is_supported_audio_extension("wma"));
    assert!(!is_supported_audio_extension("mp4"));
    assert!(is_supported_audio_file("/a/b/Song.OgG"));
    assert!(!is_supported_audio_file("noextension"));
    assert!(!is_m3u_playlist("/dir.m3u/file"));
}

#[test]
fn names_and_stems() {
    assert_eq!(extract_filename_without_extension("/path/to/file.mp3"), "file");
    assert_eq!(extract_filename_without_extension(""), "Unknown");
    assert_eq!(extract_filename("/"), "Unknown");
    assert_eq!(name_or_unknown(None), "Unknown");
    assert_eq!(name_or_unknown(Some("x".to_string())), "x");
}

#[test]
fn relative_paths_are_joined_to_the_base() {
    assert_eq!(normalize_path("/abs/song.mp3", Some("/base"), "/work"), "/abs/song.mp3");
    assert_eq!(normalize_path("/abs/song.mp3", None, "/work"), "/abs/song.mp3");
    assert_eq!(normalize_path("song.mp3", Some("/base"), "/work"), "/base/song.mp3");
    assert_eq!(normalize_path("sub/song.mp3", Some("/base/"), "/work"), "/base/sub/song.mp3");
    assert_eq!(normalize_path("song.mp3", None, "/work"), "/work/song.mp3");
    assert_eq!(normalize_path("song.mp3", Some("lists"), "/work"), "/work/lists/song.mp3");
    assert_eq!(normalize_path("song.mp3", Some(""), "/work"), "/work/song.mp3");
}

#[test]
fn extension_is_that_of_the_last_segment() {
    assert!(!is_m3u_playlist(".m3u"));
    assert!(is_m3u_playlist("dir/.list.m3u"));
    assert!(is_m3u_playlist("a.b.M3U8"));
    assert!(!is_supported_audio_file("music/.mp3"));
    assert!(is_supported_audio_file("music/track.live.Opus"));
    assert!(!is_supported_audio_file("track.mp3.txt"));
}

#[test]
fn file_names_of_plain_paths() {
    assert_eq!(extract_filename("/a/b/"), "b");
    assert_eq!(extract_filename("./a.mp3"), "a.mp3");
    assert_eq!(extract_filename("a/.."), "Unknown");
    assert_eq!(extract_filename_without_extension("/music/song.tar.gz"), "song.tar");
    assert_eq!(extract_filename_without_extension("/music/.hidden"), ".hidden");
    assert_eq!(extract_filename_without_extension("noext"), "noext");
    assert!(is_m3u_playlist("list.m3u/"));
    assert!(is_supported_audio_file("x.mp3/."));
}

#[test]
fn an_audio_file_is_never_a_playlist() {
    for p in ["a.mp3", "a.m3u", "b/c.M3U8", "x.OPUS/", "mp3", ".mp3", "a/..", ""] {
        assert!(!(is_supported_audio_file(p) && is_m3u_playlist(p)));
    }
    assert!(!is_supported_audio_file("mp3"));
    assert!(!is_supported_audio_file(".mp3"));
    assert_eq!(extract_filename("a/.."), "Unknown");
    assert_eq!(extract_filename_without_extension("a/../"), "Unknown");
}
