use summer_player::ui::widgets::{card_name_text, playlist_card_name, song_count_key};
use summer_player::config::language_for_locale;
use summer_player::ui::components::{line_emphasis, shown_line_text, visible_lines_range, LineEmphasis};
use summer_player::config::{get_chinese_font, LyricsConfig, PlayModeConfig, ThemeVariant};
use summer_player::error::PlayerError;
use summer_player::ui::components::{
    calculate_display_lines, name_less, sort_playlist_infos, truncate_text, PageType, PlayMode,
    PlaylistFileInfo, ViewType,
};
use summer_player::ui::icons;
use summer_player::ui::messages::{EditTagsData, ModalType, PlaylistRenameData};
use summer_player::ui::theme::AppThemeVariant;
use summer_player::ui::widgets::{ButtonColor, ButtonType};

#[test]
fn play_modes_cycle_through_three() {
    let m = PlayMode::default();
    assert_eq!(m, PlayMode::ListLoop);
    assert_eq!(m.next(), PlayMode::SingleLoop);
    assert_eq!(m.next().next(), PlayMode::Random);
    assert_eq!(m.next().next().next(), m);
    assert_eq!(PlayMode::SingleLoop.icon(), icons::SINGLE_LOOP);
    assert_eq!(PlayMode::Random.icon(), icons::RANDOM_PLAY);
    assert_eq!(PlayMode::ListLoop.icon(), icons::LIST_LOOP);
}

#[test]
fn themes_toggle_and_are_named() {
    let t = AppThemeVariant::default();
    assert_eq!(t.name(), "Light");
    assert_eq!(t.toggle(), AppThemeVariant::Dark);
    assert_eq!(t.toggle().name(), "Dark");
    assert_eq!(t.toggle().toggle(), t);
}

#[test]
fn settings_convert_both_ways() {
    assert_eq!(PlayModeConfig::from(PlayMode::Random), PlayModeConfig::Random);
    assert_eq!(PlayMode::from(PlayModeConfig::SingleLoop), PlayMode::SingleLoop);
    assert_eq!(ThemeVariant::from(AppThemeVariant::Dark), ThemeVariant::Dark);
    assert_eq!(AppThemeVariant::from(ThemeVariant::Light), AppThemeVariant::Light);
    assert_eq!(ThemeVariant::default(), ThemeVariant::Light);
    assert_eq!(PlayModeConfig::default(), PlayModeConfig::ListLoop);
}

#[test]
fn pages_and_views_are_saved_by_name() {
    assert_eq!(PageType::Settings.config_name(), "Settings");
    assert_eq!(PageType::from("Settings".to_string()), PageType::Settings);
    assert_eq!(PageType::from("Home".to_string()), PageType::Home);
    assert_eq!(PageType::from("whatever".to_string()), PageType::Home);
    assert_eq!(PageType::from(PageType::Id3Tag.config_name()), PageType::Home);
    assert_eq!(ViewType::default(), ViewType::Playlist);
    assert_eq!(ViewType::from(ViewType::Lyrics.config_name()), ViewType::Lyrics);
    assert_eq!(ViewType::from("".to_string()), ViewType::Playlist);
    assert_eq!(ViewType::Lyrics.toggle(), ViewType::Playlist);
}

#[test]
fn display_lines_are_odd_and_bounded() {
    assert_eq!(calculate_display_lines(0, 100), 7);
    assert_eq!(calculate_display_lines(3, 2), 7);
    assert_eq!(calculate_display_lines(3, 8), 9);
    assert_eq!(calculate_display_lines(10, 12), 13);
    assert_eq!(calculate_display_lines(10, 100), 15);
    assert_eq!(calculate_display_lines(100, 24), 25);
    assert_eq!(calculate_display_lines(100, 0), 11);
    for total in 0..40 {
        for fit in 0..40 {
            let n = calculate_display_lines(total, fit);
            assert!(n % 2 == 1 && (5..=25).contains(&n));
        }
    }
}

#[test]
fn long_texts_are_cut_with_an_ellipsis() {
    assert_eq!(truncate_text("hello", 10), ("hello".to_string(), false));
    assert_eq!(truncate_text("hello world", 5), ("hello...".to_string(), true));
    assert_eq!(truncate_text("夏天的风", 2), ("夏天...".to_string(), true));
}

#[test]
fn names_sort_like_strings() {
    assert!(name_less("Alpha", "beta"));
    assert!(name_less("ab", "abc"));
    assert!(!name_less("abc", "abc"));
    assert!(!name_less("b", "a"));
    let infos: Vec<PlaylistFileInfo> = ["b", "a", "b", "c"]
        .iter()
        .enumerate()
        .map(|(i, n)| PlaylistFileInfo { path: i.to_string(), name: n.to_string(), song_count: i })
        .collect();
    let sorted = sort_playlist_infos(infos);
    let order: Vec<(&str, &str)> = sorted.iter().map(|i| (i.name.as_str(), i.path.as_str())).collect();
    assert_eq!(order, vec![("a", "1"), ("b", "0"), ("b", "2"), ("c", "3")]);
}

#[test]
fn defaults_of_settings_and_dialogs() {
    let l = LyricsConfig::default();
    assert!(l.enabled && l.auto_search);
    assert_eq!((l.font_size, l.display_lines), (16, 7));
    assert_eq!(l.color_theme, "default");
    assert!(PlaylistRenameData::default().new_name.is_empty());
    assert!(EditTagsData::default().title.is_empty());
    assert_eq!(ButtonType::default(), ButtonType::Default);
    assert_eq!(ButtonColor::default(), ButtonColor::Default);
    assert_ne!(ModalType::NoModal, ModalType::EditTags);
}

#[test]
fn chinese_fonts_per_system() {
    assert_eq!(get_chinese_font("windows"), "Microsoft YaHei");
    assert_eq!(get_chinese_font("macos"), "PingFang SC");
    assert_eq!(get_chinese_font("linux"), "Noto Sans CJK SC");
    assert_eq!(get_chinese_font("freebsd"), "sans-serif");
}

#[test]
fn errors_read_with_their_kind() {
    assert_eq!(PlayerError::FileNotFound("a.mp3".to_string()).message(), "File not found: a.mp3");
    assert_eq!(PlayerError::PlaylistError("bad".to_string()).message(), "Playlist error: bad");
    let io = std::io::Error::new(std::io::ErrorKind::Other, "disk");
    assert_eq!(PlayerError::from(io).message(), "IO error: disk");
}

#[test]
fn the_lyrics_window_follows_the_current_line() {
    assert_eq!(visible_lines_range(Some(10), 7, 30), (7, 14));
    assert_eq!(visible_lines_range(Some(1), 7, 30), (0, 7));
    assert_eq!(visible_lines_range(None, 7, 3), (0, 3));
    assert_eq!(visible_lines_range(Some(28), 7, 30), (25, 30));
    assert_eq!(shown_line_text("  "), "♪");
    assert_eq!(shown_line_text("la"), "la");
    assert_eq!(line_emphasis(3, Some(3), true), LineEmphasis::Playing);
    assert_eq!(line_emphasis(3, Some(3), false), LineEmphasis::Sung);
    assert_eq!(line_emphasis(2, Some(3), true), LineEmphasis::Sung);
    assert_eq!(line_emphasis(4, Some(3), true), LineEmphasis::Upcoming);
    assert_eq!(line_emphasis(0, None, true), LineEmphasis::Upcoming);
}

#[test]
fn the_interface_language_follows_the_locale() {
    assert_eq!(language_for_locale("zh-TW"), "zh-CN");
    assert_eq!(language_for_locale("en-US"), "en");
    assert_eq!(language_for_locale("z"), "en");
}

#[test]
fn playlist_cards_show_short_names() {
    assert_eq!(playlist_card_name("Road Trip.m3u"), "Road Trip");
    assert_eq!(playlist_card_name("A very long playlist name.m3u"), "A very long pla...");
    assert_eq!(card_name_text("exactly eighteen c"), "exactly eighteen c");
    assert_eq!(song_count_key(1), "song");
    assert_eq!(song_count_key(0), "songs");
    assert_eq!(song_count_key(7), "songs");
}
