use summer_player::audio::file::{AudioMetadata, EmbeddedLyrics, LyricsType};
use summer_player::lyrics::{
    extract_text_after_timestamps, find_lyrics_file, lrc_content_is_ok, lrc_file_name, lyrics_file_candidate,
    parse_lyric_line, parse_metadata_tag, parse_timestamp, Lyrics,
};

fn seconds(ms: i128) -> f64 {
    ms as f64 / 1000.0
}

#[test]
fn test_parse_timestamp() {
    assert_eq!(parse_timestamp("00:12.34"), Some(12340));
    assert_eq!(parse_timestamp("01:23.456"), Some(83456));
    assert_eq!(parse_timestamp("02:30"), Some(150000));
    assert_eq!(parse_timestamp("invalid"), None);
}

#[test]
fn test_parse_lyric_line() {
    let (timestamps, text) = parse_lyric_line("[00:12.34]Hello world").unwrap();
    assert_eq!(timestamps, vec![12340]);
    assert_eq!(text, "Hello world");

    let (timestamps, text) = parse_lyric_line("[00:12.34][00:56.78]Multiple timestamps").unwrap();
    assert_eq!(timestamps, vec![12340, 56780]);
    assert_eq!(text, "Multiple timestamps");
}

#[test]
fn test_parse_metadata_tag() {
    assert_eq!(
        parse_metadata_tag("[ti:Song Title]"),
        Some(("ti".to_string(), "Song Title".to_string()))
    );
    assert_eq!(
        parse_metadata_tag("[ar:Artist Name]"),
        Some(("ar".to_string(), "Artist Name".to_string()))
    );
    assert_eq!(parse_metadata_tag("[00:12.34]"), None);
}

#[test]
fn test_extract_text_after_timestamps() {
    assert_eq!(
        extract_text_after_timestamps("[00:12.34]Hello World"),
        "Hello World"
    );
    assert_eq!(
        extract_text_after_timestamps("[00:12.34][00:15.67]Multiple timestamps"),
        "Multiple timestamps"
    );
}

#[test]
fn test_from_embedded_lyrics() {
    let lrc_lyrics = EmbeddedLyrics {
        content: "[00:12.34]First line\n[00:15.78]Second line".to_string(),
        language: Some("en".to_string()),
        description: Some("Test LRC".to_string()),
        lyrics_type: LyricsType::Lrc,
    };

    let lyrics = Lyrics::from_embedded_lyrics(&[lrc_lyrics]).unwrap();
    assert_eq!(lyrics.lines.len(), 2);
    assert_eq!(lyrics.lines[0].text, "First line");
    assert_eq!(seconds(lyrics.lines[0].timestamp_ms), 12.34);
}

#[test]
fn test_from_plain_text() {
    let content = "Line 1\nLine 2\nLine 3";
    let lyrics = Lyrics::from_plain_text(content).unwrap();

    assert_eq!(lyrics.lines.len(), 3);
    assert_eq!(lyrics.lines[0].text, "Line 1");
    assert_eq!(seconds(lyrics.lines[0].timestamp_ms), 0.0);
    assert_eq!(lyrics.lines[1].text, "Line 2");
    assert_eq!(seconds(lyrics.lines[1].timestamp_ms), 3.0);
    assert_eq!(lyrics.lines[2].text, "Line 3");
    assert_eq!(seconds(lyrics.lines[2].timestamp_ms), 6.0);
}

#[test]
fn test_embedded_lyrics_priority() {
    let unsync_lyrics = EmbeddedLyrics {
        content: "Unsync lyrics".to_string(),
        language: None,
        description: None,
        lyrics_type: LyricsType::Unsynchronized,
    };

    let lrc_lyrics = EmbeddedLyrics {
        content: "[00:12.34]LRC lyrics".to_string(),
        language: None,
        description: None,
        lyrics_type: LyricsType::Lrc,
    };

    let lyrics = Lyrics::from_embedded_lyrics(&[unsync_lyrics, lrc_lyrics]).unwrap();
    assert_eq!(lyrics.lines.len(), 1);
    assert_eq!(lyrics.lines[0].text, "LRC lyrics");
}

#[test]
fn test_is_lrc_content() {
    assert!(AudioMetadata::is_lrc_content("[00:12.34]Test line"));
    assert!(AudioMetadata::is_lrc_content("[00:12.34]First\n[00:15.67]Second"));
    assert!(!AudioMetadata::is_lrc_content("Plain text without timestamps"));
    assert!(!AudioMetadata::is_lrc_content("Some [text] but not timestamps"));
}

#[test]
fn lrc_lines_are_ordered_merged_and_offset() {
    let content = "[ti:Title]\n[ar:Artist]\n[offset:500]\n[00:05.00]B\n[00:01.00][00:09.00]A\n[00:05.00]C";
    assert!(lrc_content_is_ok(content));
    let lyrics = Lyrics::from_lrc_content(content).unwrap();
    assert_eq!(lyrics.metadata.title.as_deref(), Some("Title"));
    assert_eq!(lyrics.metadata.artist.as_deref(), Some("Artist"));
    assert_eq!(lyrics.metadata.offset, 500);
    let times: Vec<i128> = lyrics.lines.iter().map(|l| l.timestamp_ms).collect();
    assert_eq!(times, vec![1500, 5500, 9500]);
    let texts: Vec<&str> = lyrics.lines.iter().map(|l| l.text.as_str()).collect();
    assert_eq!(texts, vec!["A", "C", "A"]);
}

#[test]
fn current_line_is_the_last_started_line() {
    let lyrics = Lyrics::from_lrc_content("[00:01.00]one\n[00:02.00]two\n[00:03.00]three").unwrap();
    assert_eq!(lyrics.get_current_line_index(500), None);
    assert_eq!(lyrics.get_current_line_index(1000), Some(0));
    assert_eq!(lyrics.get_current_line_index(2500), Some(1));
    assert_eq!(lyrics.get_current_line_index(100_000), Some(2));
    assert_eq!(lyrics.duration(), Some(3000));
    assert!(lyrics.has_lyrics());
    let in_range = lyrics.get_lines_in_range(1500, 3000);
    let idx: Vec<usize> = in_range.iter().map(|(i, _)| *i).collect();
    assert_eq!(idx, vec![1, 2]);
}

#[test]
fn empty_lyrics_have_no_line_and_no_duration() {
    let lyrics = Lyrics::from_embedded_lyrics(&[]).unwrap();
    assert!(!lyrics.has_lyrics());
    assert_eq!(lyrics.duration(), None);
    assert_eq!(lyrics.get_current_line_index(0), None);
}

#[test]
fn plain_text_skips_blank_lines_and_trims() {
    let lyrics = Lyrics::from_plain_text("  first  \n\n   \nsecond\r\n").unwrap();
    let texts: Vec<&str> = lyrics.lines.iter().map(|l| l.text.as_str()).collect();
    assert_eq!(texts, vec!["first", "second"]);
    assert_eq!(lyrics.lines[1].timestamp_ms, 3000);
}

#[test]
fn timestamps_with_one_or_three_fraction_digits() {
    assert_eq!(parse_timestamp("00:01.5"), Some(1500));
    assert_eq!(parse_timestamp("00:01.2345"), Some(1234));
    assert_eq!(parse_timestamp("1:2:3"), None);
    assert_eq!(parse_timestamp("-1:00"), Some(-60000));
}

#[test]
fn lyric_line_without_timestamp_is_not_a_line() {
    assert_eq!(parse_lyric_line("no tags here"), None);
    assert_eq!(parse_lyric_line("[ti:Title]"), None);
}

#[test]
fn lrc_file_is_next_to_the_audio_file() {
    assert_eq!(lrc_file_name("song"), "song.lrc");
    assert_eq!(lyrics_file_candidate("/music/song.mp3"), Some("/music/song.lrc".to_string()));
    assert_eq!(lyrics_file_candidate("/"), None);
}

#[test]
fn lrc_file_of_relative_and_dotted_paths() {
    assert_eq!(lyrics_file_candidate("song.mp3"), Some("song.lrc".to_string()));
    assert_eq!(lyrics_file_candidate("a/b.c.flac"), Some("a/b.c.lrc".to_string()));
    assert_eq!(lyrics_file_candidate("/root.ogg"), Some("/root.lrc".to_string()));
    assert_eq!(lyrics_file_candidate("music/.hidden"), Some("music/.hidden.lrc".to_string()));
    assert_eq!(lyrics_file_candidate("./a.mp3"), Some("./a.lrc".to_string()));
    assert_eq!(lyrics_file_candidate("m/a.mp3/"), Some("m/a.lrc".to_string()));
}

#[test]
fn lrc_file_is_found_only_when_it_is_there() {
    assert_eq!(
        find_lyrics_file("/m/a.mp3", |p: &str| p == "/m/a.lrc"),
        Some("/m/a.lrc".to_string())
    );
    assert_eq!(find_lyrics_file("/m/a.mp3", |_p: &str| false), None);
    assert_eq!(find_lyrics_file("/", |_p: &str| true), None);
}

#[test]
fn lyric_text_is_settled() {
    let lines = ["[00:01.00]  a [x] b ]c ", "[ti:x] plain", "[00:02]open [never closed", "  ] [] x "];
    for line in lines {
        let once = extract_text_after_timestamps(line);
        assert!(!once.contains('[') && !once.contains(']'));
        assert_eq!(once.trim(), once);
        assert_eq!(extract_text_after_timestamps(&once), once);
    }
}
