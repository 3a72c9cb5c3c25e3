use summer_player::audio::device::{
    check_device_index, choose_output_config, ChosenConfig, OutputConfigRange, SampleFormatKind,
};
use summer_player::audio::tag_writer::{tag_track, tag_year, TagUpdate};
use summer_player::audio::file::AudioMetadata;
use summer_player::error::PlayerError;

fn range(channels: u16, min: u32, max: u32, f: SampleFormatKind) -> OutputConfigRange {
    OutputConfigRange { channels, min_sample_rate: min, max_sample_rate: max, sample_format: f }
}

#[test]
fn an_exact_channel_match_wins_with_a_held_rate() {
    let configs = [
        range(6, 8000, 192000, SampleFormatKind::F32),
        range(2, 48000, 96000, SampleFormatKind::I16),
        range(2, 8000, 192000, SampleFormatKind::F32),
    ];
    assert_eq!(
        choose_output_config(&configs, 44100, 2).unwrap(),
        ChosenConfig { index: 1, sample_rate: 48000 }
    );
    assert_eq!(
        choose_output_config(&configs, 200000, 2).unwrap(),
        ChosenConfig { index: 1, sample_rate: 96000 }
    );
}

#[test]
fn otherwise_the_fewest_channels_above() {
    let configs = [
        range(8, 8000, 192000, SampleFormatKind::F32),
        range(4, 8000, 48000, SampleFormatKind::I16),
        range(4, 8000, 96000, SampleFormatKind::F32),
        range(1, 8000, 48000, SampleFormatKind::F32),
    ];
    assert_eq!(
        choose_output_config(&configs, 44100, 3).unwrap(),
        ChosenConfig { index: 1, sample_rate: 44100 }
    );
}

#[test]
fn otherwise_the_best_scored() {
    let configs = [
        range(1, 8000, 48000, SampleFormatKind::I16),
        range(1, 8000, 96000, SampleFormatKind::F32),
        range(1, 8000, 96000, SampleFormatKind::F32),
        range(1, 8000, 192000, SampleFormatKind::U8),
    ];
    assert_eq!(
        choose_output_config(&configs, 44100, 2).unwrap(),
        ChosenConfig { index: 1, sample_rate: 44100 }
    );
    assert_eq!(
        choose_output_config(&configs, 200000, 2).unwrap(),
        ChosenConfig { index: 1, sample_rate: 96000 }
    );
}

#[test]
fn no_configuration_is_refused() {
    match choose_output_config(&[], 44100, 2) {
        Err(PlayerError::AudioDeviceError(m)) => assert_eq!(m, "No supported output configurations available"),
        other => panic!("unexpected {:?}", other),
    }
    assert_eq!(check_device_index(1, 3).unwrap(), 1);
    match check_device_index(3, 3) {
        Err(PlayerError::AudioDeviceError(m)) => assert_eq!(m, "Device index 3 out of range"),
        other => panic!("unexpected {:?}", other),
    }
}

#[test]
fn years_and_tracks_are_read_as_numbers() {
    assert_eq!(tag_year("2001"), Some(2001));
    assert_eq!(tag_year("+2001"), Some(2001));
    assert_eq!(tag_year("2001-05-03"), Some(20010503));
    assert_eq!(tag_year("c. 1999"), Some(1999));
    assert_eq!(tag_year("unknown"), None);
    assert_eq!(tag_year("99999999999"), None);
    assert_eq!(tag_track("7"), Some(7));
    assert_eq!(tag_track("7/12"), None);
    assert_eq!(tag_track("-1"), None);
}

#[test]
fn a_tag_update_takes_the_edited_fields() {
    let mut m = AudioMetadata::default();
    m.title = Some("Song".to_string());
    m.genre = Some("Jazz".to_string());
    m.year = Some("1999".to_string());
    m.track_number = Some("x".to_string());
    let u = TagUpdate::from_metadata(&m);
    assert_eq!(
        u,
        TagUpdate {
            title: Some("Song".to_string()),
            artist: None,
            album: None,
            genre: Some("Jazz".to_string()),
            year: Some(1999),
            track: None,
        }
    );
}
