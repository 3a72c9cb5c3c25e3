//! The settings of the player that are saved between runs, their
//! defaults, and the constants that the audio path uses.

use vstd::prelude::*;
use vstd::std_specs::convert::FromSpecImpl;
use crate::text::{chars_of, starts_with_str, str_eq};
use crate::ui::components::PlayMode;
use crate::ui::theme::AppThemeVariant;

verus! {

/// The version to write into saved settings that were written by
/// `saved`: the current one when they differ; `None` when they are the
/// same and nothing is to be written.
pub fn version_update(saved: &str, current: &str) -> (r: Option<String>)
    ensures
        r is Some <==> saved@ != current@,
        r matches Some(v) ==> v@ == current@,
{
    if str_eq(saved, current) {
        None
    } else {
        Some(current.to_owned())
    }
}

/// How many seconds of audio the playback buffer holds.
pub const DEFAULT_BUFFER_MULTIPLIER: usize = 2;

/// The number of samples above which the buffer counts as full.
pub const BUFFER_CAPACITY_THRESHOLD: usize = 1000;

/// How long to wait before writing to a full buffer, in milliseconds.
pub const BUFFER_WRITE_DELAY: u64 = 10;

/// The most packets read when a duration is estimated by decoding.
pub const MAX_ESTIMATION_PACKETS: u64 = 100000;

/// The sample rate assumed when a track gives none.
pub const DEFAULT_SAMPLE_RATE: u32 = 44100;

/// The number of channels assumed when a track gives none.
pub const DEFAULT_CHANNELS: usize = 2;

/// The font for Chinese text that older settings name.
pub const CHINESE_FONT: &'static str = "Microsoft YaHei";

/// Where the emoji font is.
pub const EMOJI_FONT_PATH: &'static str = "fonts/NotoColorEmoji.ttf";

/// The name of the emoji font.
pub const EMOJI_FONT_NAME: &'static str = "NotoColorEmoji";

/// The font for Chinese text on an operating system (named as
/// `std::env::consts::OS` names it).
pub open spec fn chinese_font_for(os: Seq<char>) -> Seq<char> {
    if os == "windows"@ {
        "Microsoft YaHei"@
    } else if os == "macos"@ {
        "PingFang SC"@
    } else if os == "linux"@ {
        "Noto Sans CJK SC"@
    } else {
        "sans-serif"@
    }
}

/// The font for Chinese text on the operating system `os`: Microsoft YaHei
/// on Windows, PingFang SC on macOS, Noto Sans CJK SC on Linux, the generic
/// sans-serif elsewhere.
pub fn get_chinese_font(os: &str) -> (r: &'static str)
    ensures
        r@ == chinese_font_for(os@),
{
    if str_eq(os, "windows") {
        "Microsoft YaHei"
    } else if str_eq(os, "macos") {
        "PingFang SC"
    } else if str_eq(os, "linux") {
        "Noto Sans CJK SC"
    } else {
        "sans-serif"
    }
}

/// The interface language for a system locale: simplified Chinese for a
/// locale that starts with `zh`, English for any other.
pub fn language_for_locale(locale: &str) -> (r: &'static str)
    ensures
        r@ == (if "zh"@.is_prefix_of(locale@) {
            "zh-CN"@
        } else {
            "en"@
        }),
{
    let cs = chars_of(locale);
    if starts_with_str(&cs, "zh") {
        "zh-CN"
    } else {
        "en"
    }
}

/// The saved theme.
#[derive(Debug, Clone, Copy, PartialEq, Eq, Structural)]
pub enum ThemeVariant {
    Light,
    Dark,
}

impl Default for ThemeVariant {
    fn default() -> (r: Self)
        ensures
            r == ThemeVariant::Light,
    {
        ThemeVariant::Light
    }
}

/// The saved play mode.
#[derive(Debug, Clone, Copy, PartialEq, Eq, Structural)]
pub enum PlayModeConfig {
    ListLoop,
    SingleLoop,
    Random,
}

impl Default for PlayModeConfig {
    fn default() -> (r: Self)
        ensures
            r == PlayModeConfig::ListLoop,
    {
        PlayModeConfig::ListLoop
    }
}

/// The saved form of a play mode.
pub open spec fn mode_config(m: PlayMode) -> PlayModeConfig {
    match m {
        PlayMode::ListLoop => PlayModeConfig::ListLoop,
        PlayMode::SingleLoop => PlayModeConfig::SingleLoop,
        PlayMode::Random => PlayModeConfig::Random,
    }
}

/// The play mode that a saved one stands for.
pub open spec fn config_mode(c: PlayModeConfig) -> PlayMode {
    match c {
        PlayModeConfig::ListLoop => PlayMode::ListLoop,
        PlayModeConfig::SingleLoop => PlayMode::SingleLoop,
        PlayModeConfig::Random => PlayMode::Random,
    }
}

impl From<PlayMode> for PlayModeConfig {
    fn from(mode: PlayMode) -> (r: PlayModeConfig) {
        match mode {
            PlayMode::ListLoop => PlayModeConfig::ListLoop,
            PlayMode::SingleLoop => PlayModeConfig::SingleLoop,
            PlayMode::Random => PlayModeConfig::Random,
        }
    }
}

impl FromSpecImpl<PlayMode> for PlayModeConfig {
    open spec fn obeys_from_spec() -> bool {
        true
    }

    open spec fn from_spec(v: PlayMode) -> PlayModeConfig {
        mode_config(v)
    }
}

impl From<PlayModeConfig> for PlayMode {
    fn from(c: PlayModeConfig) -> (r: PlayMode) {
        match c {
            PlayModeConfig::ListLoop => PlayMode::ListLoop,
            PlayModeConfig::SingleLoop => PlayMode::SingleLoop,
            PlayModeConfig::Random => PlayMode::Random,
        }
    }
}

impl FromSpecImpl<PlayModeConfig> for PlayMode {
    open spec fn obeys_from_spec() -> bool {
        true
    }

    open spec fn from_spec(v: PlayModeConfig) -> PlayMode {
        config_mode(v)
    }
}

/// The saved form of a theme.
pub open spec fn theme_config(t: AppThemeVariant) -> ThemeVariant {
    match t {
        AppThemeVariant::Light => ThemeVariant::Light,
        AppThemeVariant::Dark => ThemeVariant::Dark,
    }
}

/// The theme that a saved one stands for.
pub open spec fn config_theme(c: ThemeVariant) -> AppThemeVariant {
    match c {
        ThemeVariant::Light => AppThemeVariant::Light,
        ThemeVariant::Dark => AppThemeVariant::Dark,
    }
}

impl From<AppThemeVariant> for ThemeVariant {
    fn from(theme: AppThemeVariant) -> (r: ThemeVariant) {
        match theme {
            AppThemeVariant::Light => ThemeVariant::Light,
            AppThemeVariant::Dark => ThemeVariant::Dark,
        }
    }
}

impl FromSpecImpl<AppThemeVariant> for ThemeVariant {
    open spec fn obeys_from_spec() -> bool {
        true
    }

    open spec fn from_spec(v: AppThemeVariant) -> ThemeVariant {
        theme_config(v)
    }
}

impl From<ThemeVariant> for AppThemeVariant {
    fn from(c: ThemeVariant) -> (r: AppThemeVariant) {
        match c {
            ThemeVariant::Light => AppThemeVariant::Light,
            ThemeVariant::Dark => AppThemeVariant::Dark,
        }
    }
}

impl FromSpecImpl<ThemeVariant> for AppThemeVariant {
    open spec fn obeys_from_spec() -> bool {
        true
    }

    open spec fn from_spec(v: ThemeVariant) -> AppThemeVariant {
        config_theme(v)
    }
}

/// Saving a play mode or a theme and reading it back gives it again, both
/// ways round.
pub proof fn lemma_config_round_trip(m: PlayMode, c: PlayModeConfig, t: AppThemeVariant, v: ThemeVariant)
    ensures
        config_mode(mode_config(m)) == m,
        mode_config(config_mode(c)) == c,
        config_theme(theme_config(t)) == t,
        theme_config(config_theme(v)) == v,
{
}

/// The lyrics settings.
#[derive(Debug, Clone)]
pub struct LyricsConfig {
    /// Whether lyrics are shown.
    pub enabled: bool,
    /// The font size of the lyrics.
    pub font_size: u16,
    /// How many lines are shown.
    pub display_lines: usize,
    /// Whether lyrics are looked for on their own.
    pub auto_search: bool,
    /// The colour theme of the lyrics.
    pub color_theme: String,
}

impl Default for LyricsConfig {
    fn default() -> (r: Self)
        ensures
            r.enabled,
            r.font_size == 16,
            r.display_lines == 7,
            r.auto_search,
            r.color_theme@ == "default"@,
    {
        LyricsConfig {
            enabled: true,
            font_size: 16,
            display_lines: 7,
            auto_search: true,
            color_theme: "default".to_owned(),
        }
    }
}

} // verus!
