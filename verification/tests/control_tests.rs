use std::collections::VecDeque;
use summer_player::audio::stream::take_frame;
use summer_player::audio::playback::{
    position_report_due, PlaybackCommand, PlaybackControl, PlaybackReport,
};
use summer_player::config::version_update;
use summer_player::playlist::entry_display_name;

#[test]
fn pause_and_resume_report_the_state() {
    let mut c = PlaybackControl::new(44100);
    assert_eq!(
        c.initial_report(),
        PlaybackReport { is_playing: true, is_paused: false, current_samples: 0, sample_rate: 44100 }
    );
    let r = c.handle_command(PlaybackCommand::Pause, 4410);
    assert_eq!(
        r,
        Some(PlaybackReport { is_playing: false, is_paused: true, current_samples: 4410, sample_rate: 44100 })
    );
    assert!(c.paused);
    let r = c.handle_command(PlaybackCommand::Resume, 4410);
    assert_eq!(
        r,
        Some(PlaybackReport { is_playing: true, is_paused: false, current_samples: 4410, sample_rate: 44100 })
    );
    assert_eq!(c, PlaybackControl::new(44100));
}

#[test]
fn seek_waits_for_the_decoder_and_stop_ends() {
    let mut c = PlaybackControl::new(48000);
    assert_eq!(c.handle_command(PlaybackCommand::Seek(1500), 0), None);
    assert_eq!(c.handle_command(PlaybackCommand::Seek(2500), 0), None);
    assert_eq!(c.take_seek(), Some(2500));
    assert_eq!(c.take_seek(), None);
    assert_eq!(c.handle_command(PlaybackCommand::Stop, 0), None);
    assert!(c.stopped);
    c.handle_command(PlaybackCommand::Resume, 0);
    assert!(c.stopped);
}

#[test]
fn decoder_reports_every_tenth_of_a_second() {
    assert!(position_report_due(0, 44100));
    assert!(position_report_due(4410, 44100));
    assert!(!position_report_due(4411, 44100));
    let mut c = PlaybackControl::new(44100);
    c.handle_command(PlaybackCommand::Pause, 7);
    assert_eq!(
        c.position_report(8820),
        PlaybackReport { is_playing: false, is_paused: true, current_samples: 8820, sample_rate: 44100 }
    );
}

#[test]
fn entry_names_and_versions() {
    assert_eq!(entry_display_name(Some("A".to_string()), Some("T".to_string()), "/m/x.mp3"), "A");
    assert_eq!(entry_display_name(None, Some("T".to_string()), "/m/x.mp3"), "T");
    assert_eq!(entry_display_name(None, None, "/m/x.mp3"), "x.mp3");
    assert_eq!(entry_display_name(None, None, ""), "Unknown");
    assert_eq!(version_update("0.2.0", "0.3.0"), Some("0.3.0".to_string()));
    assert_eq!(version_update("0.3.0", "0.3.0"), None);
}

#[test]
fn a_frame_takes_one_sample_per_track_channel() {
    let mut buf: VecDeque<i32> = VecDeque::from(vec![1, 2, 3]);
    assert_eq!(take_frame(&mut buf, 2, 0), vec![1, 2]);
    assert_eq!(buf, VecDeque::from(vec![3]));
    assert_eq!(take_frame(&mut buf, 2, 0), vec![3, 0]);
    assert!(buf.is_empty());
    assert_eq!(take_frame(&mut buf, 2, 0), vec![0, 0]);
}
