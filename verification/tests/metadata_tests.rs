use summer_player::audio::playback::seek_timestamp;
use summer_player::audio::stream::{channel_rule, ChannelRule};
use summer_player::audio::file::{
    detect_image_format, duration_source, AudioMetadata, DurationSource, LyricsType,
    MetadataTag, MetadataVisual, StandardTag, TagValue, VisualUsage,
};
use summer_player::audio::playback::{calculate_buffer_size, interleave_channels};

fn tag(key: &str, value: &str, std_key: Option<StandardTag>) -> MetadataTag {
    MetadataTag { key: key.to_string(), value: TagValue::Text(value.to_string()), std_key }
}

#[test]
fn image_formats_are_told_by_their_first_bytes() {
    assert_eq!(detect_image_format(&[0xFF, 0xD8, 0xFF, 0, 0, 0, 0, 0]), "image/jpeg");
    assert_eq!(detect_image_format(&[0x89, 0x50, 0x4E, 0x47, 0x0D, 0x0A, 0x1A, 0x0A]), "image/png");
    assert_eq!(detect_image_format(&[0x47, 0x49, 0x46, 0x38, 0x39, 0x61, 0, 0]), "image/gif");
    assert_eq!(detect_image_format(&[0x42, 0x4D, 0, 0, 0, 0, 0, 0]), "image/bmp");
    assert_eq!(
        detect_image_format(&[0x52, 0x49, 0x46, 0x46, 0, 0, 0, 0, 0x57, 0x45, 0x42, 0x50]),
        "image/webp"
    );
    assert_eq!(detect_image_format(&[0x52, 0x49, 0x46, 0x46, 0, 0, 0, 0]), "");
    assert_eq!(detect_image_format(&[0xFF, 0xD8, 0xFF]), "");
    assert_eq!(detect_image_format(&[1, 2, 3, 4, 5, 6, 7, 8]), "");
}

#[test]
fn lyrics_keys_are_matched_in_uppercase() {
    let l = AudioMetadata::extract_lyrics_from_tag("uslt", "words").unwrap();
    assert_eq!(l.content, "words");
    assert!(matches!(l.lyrics_type, LyricsType::Unsynchronized));
    assert!(l.description.is_none());
    let l = AudioMetadata::extract_lyrics_from_tag("Sylt", "words").unwrap();
    assert!(matches!(l.lyrics_type, LyricsType::Synchronized));
    let l = AudioMetadata::extract_lyrics_from_tag("©lyr", "words").unwrap();
    assert_eq!(l.description.as_deref(), Some("iTunes Lyrics"));
    let l = AudioMetadata::extract_lyrics_from_tag("unsyncedlyrics", "w").unwrap();
    assert!(matches!(l.lyrics_type, LyricsType::Unsynchronized));
    let l = AudioMetadata::extract_lyrics_from_tag("COMMENT", "[00:01.00]la").unwrap();
    assert!(matches!(l.lyrics_type, LyricsType::Lrc));
    assert_eq!(l.description.as_deref(), Some("LRC from COMMENT"));
    assert!(AudioMetadata::extract_lyrics_from_tag("TITLE", "Song").is_none());
}

#[test]
fn metadata_fills_fields_cover_and_lyrics() {
    let visuals = vec![
        MetadataVisual { media_type: String::new(), data: vec![1, 2, 3], usage: None },
        MetadataVisual {
            media_type: String::new(),
            data: vec![0x89, 0x50, 0x4E, 0x47, 0x0D, 0x0A, 0x1A, 0x0A],
            usage: Some(VisualUsage::BackCover),
        },
        MetadataVisual { media_type: "image/jpeg".to_string(), data: vec![9], usage: Some(VisualUsage::FrontCover) },
        MetadataVisual { media_type: "image/gif".to_string(), data: vec![8], usage: Some(VisualUsage::BackCover) },
    ];
    let tags = vec![
        tag("TPE1", "Artist", Some(StandardTag::Artist)),
        tag("TIT2", "Title", Some(StandardTag::TrackTitle)),
        MetadataTag { key: "APIC".to_string(), value: TagValue::Binary, std_key: None },
        tag("USLT", "la la", None),
        tag("CUSTOM", "one", None),
        tag("TBPM", "120", Some(StandardTag::Other("Bpm".to_string()))),
        tag("CUSTOM", "two", None),
        tag("TDRC", "2001", Some(StandardTag::Date)),
    ];
    let m = AudioMetadata::from_symphonia_metadata(&visuals, &tags);
    assert_eq!(m.artist.as_deref(), Some("Artist"));
    assert_eq!(m.title.as_deref(), Some("Title"));
    assert_eq!(m.year.as_deref(), Some("2001"));
    assert!(m.album.is_none());
    let cover = m.cover_art.unwrap();
    assert_eq!(cover.mime_type, "image/jpeg");
    assert_eq!(cover.data, vec![9]);
    assert_eq!(m.embedded_lyrics.len(), 1);
    assert_eq!(m.embedded_lyrics[0].content, "la la");
    assert_eq!(
        m.other_tags,
        vec![("CUSTOM".to_string(), "two".to_string()), ("Bpm".to_string(), "120".to_string())]
    );
}

#[test]
fn a_back_cover_fills_an_empty_cover_only() {
    let visuals = vec![
        MetadataVisual {
            media_type: String::new(),
            data: vec![0x42, 0x4D, 0, 0, 0, 0, 0, 0],
            usage: Some(VisualUsage::BackCover),
        },
        MetadataVisual { media_type: "image/png".to_string(), data: vec![1], usage: Some(VisualUsage::Other) },
    ];
    let m = AudioMetadata::from_symphonia_metadata(&visuals, &[]);
    assert_eq!(m.cover_art.unwrap().mime_type, "image/bmp");
    let empty = AudioMetadata::default();
    assert!(empty.cover_art.is_none() && empty.other_tags.is_empty());
}

#[test]
fn durations_come_from_frames_or_timestamps() {
    assert_eq!(
        duration_source(Some(441000), 44100, Some((1, 44100)), 5),
        Some(DurationSource::Frames { frames: 441000, sample_rate: 44100 })
    );
    assert_eq!(
        duration_source(Some(0), 44100, Some((1, 1000)), 5000),
        Some(DurationSource::Timestamp { ts: 5000, numer: 1, denom: 1000 })
    );
    assert_eq!(duration_source(None, 44100, Some((1, 1000)), 0), None);
    assert_eq!(duration_source(None, 44100, None, 10), None);
}

#[test]
fn buffer_holds_two_seconds_of_all_channels() {
    assert_eq!(calculate_buffer_size(44100, 2), 176400);
    assert_eq!(calculate_buffer_size(48000, 1), 96000);
}

#[test]
fn channels_are_interleaved_frame_by_frame() {
    let data = vec![vec![1.0f32, 2.0, 3.0], vec![10.0, 20.0, 30.0, 40.0]];
    assert_eq!(interleave_channels(&data), vec![1.0, 10.0, 2.0, 20.0, 3.0, 30.0]);
    let mono = vec![vec![5i16, 6]];
    assert_eq!(interleave_channels(&mono), vec![5, 6]);
}

#[test]
fn output_channels_take_their_samples_by_rule() {
    assert_eq!(channel_rule(1, 2, 2), ChannelRule::Source(1));
    assert_eq!(channel_rule(1, 2, 1), ChannelRule::Source(0));
    assert_eq!(channel_rule(2, 6, 2), ChannelRule::Source(0));
    assert_eq!(channel_rule(3, 6, 2), ChannelRule::Source(1));
    assert_eq!(channel_rule(4, 6, 2), ChannelRule::HalfSum);
    assert_eq!(channel_rule(5, 6, 2), ChannelRule::LowSum);
    assert_eq!(channel_rule(6, 8, 2), ChannelRule::Source(0));
    assert_eq!(channel_rule(4, 6, 3), ChannelRule::Source(1));
    assert_eq!(channel_rule(0, 1, 2), ChannelRule::HalfSum);
    assert_eq!(channel_rule(0, 1, 6), ChannelRule::MeanAll);
    assert_eq!(channel_rule(0, 2, 6), ChannelRule::LeftMix);
    assert_eq!(channel_rule(1, 2, 6), ChannelRule::RightMix);
    assert_eq!(channel_rule(2, 3, 8), ChannelRule::Source(5));
}

#[test]
fn seeking_finds_the_sample_position() {
    assert_eq!(seek_timestamp(1500, 44100), 66150);
    assert_eq!(seek_timestamp(0, 48000), 0);
    assert_eq!(seek_timestamp(1, 999), 0);
}
