//! The choice of an output configuration for an audio device: among the
//! configurations that the device supports, the one that suits a track of
//! a given sample rate and number of channels.

use vstd::prelude::*;
use crate::error::PlayerError;
use crate::utils::{decimal, decimal_string};

verus! {

/// The format of the samples of an output configuration.
#[derive(Debug, Clone, Copy, PartialEq, Eq, Structural)]
pub enum SampleFormatKind {
    I8,
    I16,
    I32,
    I64,
    U8,
    U16,
    U32,
    U64,
    F32,
    F64,
    /// A format the player does not name.
    Other,
}

/// A range of output configurations that a device supports: a number of
/// channels, sample rates from `min_sample_rate` to `max_sample_rate`, and a
/// sample format.
#[derive(Debug, Clone, Copy, PartialEq, Eq, Structural)]
pub struct OutputConfigRange {
    pub channels: u16,
    pub min_sample_rate: u32,
    pub max_sample_rate: u32,
    pub sample_format: SampleFormatKind,
}

/// The configuration chosen: the position of the range it comes from and
/// the sample rate to use in it.
#[derive(Debug, Clone, Copy, PartialEq, Eq, Structural)]
pub struct ChosenConfig {
    pub index: usize,
    pub sample_rate: u32,
}

/// How much a sample format is preferred when nothing else decides.
pub open spec fn format_score(f: SampleFormatKind) -> int {
    match f {
        SampleFormatKind::F32 => 6,
        SampleFormatKind::F64 => 5,
        SampleFormatKind::I32 => 4,
        SampleFormatKind::I16 => 3,
        SampleFormatKind::U16 => 2,
        _ => 1,
    }
}

/// The highest sample rate in thousands, as a 32-bit signed division reads
/// it (a rate from 2^31 on reads as negative).
pub open spec fn rate_score(max_rate: u32) -> int {
    if max_rate < 0x8000_0000 {
        max_rate as int / 1000
    } else {
        -((0x1_0000_0000 - max_rate) / 1000)
    }
}

/// The score of a range when neither of the first two rules applies: the
/// format first, then the channels, then the highest rate.
pub open spec fn config_score(c: OutputConfigRange) -> int {
    format_score(c.sample_format) * 100 + c.channels * 10 + rate_score(c.max_sample_rate)
}

/// `rate` held within the range's rates.
pub open spec fn closest_rate(c: OutputConfigRange, rate: u32) -> u32 {
    if rate < c.min_sample_rate {
        c.min_sample_rate
    } else if rate > c.max_sample_rate {
        c.max_sample_rate
    } else {
        rate
    }
}

/// Whether `i` is the first range with exactly `channels` channels.
pub open spec fn is_first_exact(cs: Seq<OutputConfigRange>, channels: int, i: int) -> bool {
    &&& 0 <= i < cs.len()
    &&& cs[i].channels == channels
    &&& forall|j: int| 0 <= j < i ==> #[trigger] cs[j].channels != channels
}

/// Whether `i` is the first of the ranges with the fewest channels among
/// those with at least `channels` channels.
pub open spec fn is_first_wider(cs: Seq<OutputConfigRange>, channels: int, i: int) -> bool {
    &&& 0 <= i < cs.len()
    &&& cs[i].channels >= channels
    &&& forall|j: int| 0 <= j < cs.len() && #[trigger] cs[j].channels >= channels ==> cs[i].channels <= cs[j].channels
    &&& forall|j: int| 0 <= j < i && #[trigger] cs[j].channels >= channels ==> cs[i].channels < cs[j].channels
}

/// Whether `i` is the first of the ranges with the highest score.
pub open spec fn is_first_best(cs: Seq<OutputConfigRange>, i: int) -> bool {
    &&& 0 <= i < cs.len()
    &&& forall|j: int| 0 <= j < cs.len() ==> config_score(#[trigger] cs[j]) <= config_score(cs[i])
    &&& forall|j: int| 0 <= j < i ==> config_score(#[trigger] cs[j]) < config_score(cs[i])
}

/// Whether `r` is the configuration chosen among `cs` for a track of
/// `sample_rate` and `channels`: the first range with exactly those
/// channels; else the first of those with the fewest channels above; else
/// the first of the best scored. In the first two cases the rate is the
/// track's held within the range; in the last, the track's when the range
/// has it, else the range's highest.
pub open spec fn is_chosen_config(cs: Seq<OutputConfigRange>, sample_rate: u32, channels: int, r: ChosenConfig) -> bool {
    let i = r.index as int;
    if exists|k: int| 0 <= k < cs.len() && #[trigger] cs[k].channels == channels {
        is_first_exact(cs, channels, i) && r.sample_rate == closest_rate(cs[i], sample_rate)
    } else if exists|k: int| 0 <= k < cs.len() && #[trigger] cs[k].channels >= channels {
        is_first_wider(cs, channels, i) && r.sample_rate == closest_rate(cs[i], sample_rate)
    } else {
        &&& is_first_best(cs, i)
        &&& r.sample_rate == (if cs[i].min_sample_rate <= sample_rate <= cs[i].max_sample_rate {
            sample_rate
        } else {
            cs[i].max_sample_rate
        })
    }
}

/// The score of a range (see [`config_score`]).
fn score_of(c: &OutputConfigRange) -> (r: i64)
    ensures
        r == config_score(*c),
{
    let f: i64 = match c.sample_format {
        SampleFormatKind::F32 => 6,
        SampleFormatKind::F64 => 5,
        SampleFormatKind::I32 => 4,
        SampleFormatKind::I16 => 3,
        SampleFormatKind::U16 => 2,
        _ => 1,
    };
    let rate: i64 = if c.max_sample_rate < 0x8000_0000 {
        (c.max_sample_rate / 1000) as i64
    } else {
        -(((0x1_0000_0000u64 - c.max_sample_rate as u64) / 1000) as i64)
    };
    f * 100 + (c.channels as i64) * 10 + rate
}

/// The sample rate of a range nearest to `rate`.
fn clamp_rate(c: &OutputConfigRange, rate: u32) -> (r: u32)
    ensures
        r == closest_rate(*c, rate),
{
    if rate < c.min_sample_rate {
        c.min_sample_rate
    } else if rate > c.max_sample_rate {
        c.max_sample_rate
    } else {
        rate
    }
}

/// Chooses the output configuration for a track of `sample_rate` and
/// `source_channels` among the ranges a device supports (see
/// [`is_chosen_config`]); a device with no range is refused.
pub fn choose_output_config(configs: &[OutputConfigRange], sample_rate: u32, source_channels: usize) -> (r: Result<ChosenConfig, PlayerError>)
    ensures
        configs@.len() == 0 <==> r is Err,
        r matches Err(e) ==> (e matches PlayerError::AudioDeviceError(m) && m@
            == "No supported output configurations available"@),
        r matches Ok(c) ==> is_chosen_config(configs@, sample_rate, source_channels as int, c),
{
    let n = configs.len();
    if n == 0 {
        return Err(PlayerError::AudioDeviceError("No supported output configurations available".to_owned()));
    }
    let mut i: usize = 0;
    while i < n
        invariant
            i <= n == configs@.len(),
            forall|j: int| 0 <= j < i ==> #[trigger] configs@[j].channels != source_channels,
        decreases n - i,
    {
        if configs[i].channels as usize == source_channels {
            return Ok(ChosenConfig { index: i, sample_rate: clamp_rate(&configs[i], sample_rate) });
        }
        i += 1;
    }
    let mut best: Option<usize> = None;
    let mut k: usize = 0;
    while k < n
        invariant
            k <= n == configs@.len(),
            forall|j: int| 0 <= j < n ==> #[trigger] configs@[j].channels != source_channels,
            match best {
                Some(b) => {
                    &&& b < k
                    &&& configs@[b as int].channels >= source_channels
                    &&& forall|j: int| 0 <= j < k && #[trigger] configs@[j].channels >= source_channels ==> configs@[b as int].channels <= configs@[j].channels
                    &&& forall|j: int| 0 <= j < b && #[trigger] configs@[j].channels >= source_channels ==> configs@[b as int].channels < configs@[j].channels
                },
                None => forall|j: int| 0 <= j < k ==> #[trigger] configs@[j].channels < source_channels,
            },
        decreases n - k,
    {
        let ch = configs[k].channels as usize;
        if ch >= source_channels {
            match best {
                Some(b) => {
                    if (configs[k].channels as usize) < (configs[b].channels as usize) {
                        best = Some(k);
                    }
                },
                None => {
                    best = Some(k);
                },
            }
        }
        k += 1;
    }
    if let Some(b) = best {
        return Ok(ChosenConfig { index: b, sample_rate: clamp_rate(&configs[b], sample_rate) });
    }
    let mut top: usize = 0;
    let mut top_score = score_of(&configs[0]);
    let mut m: usize = 1;
    while m < n
        invariant
            1 <= m <= n == configs@.len(),
            top < m,
            top_score == config_score(configs@[top as int]),
            forall|j: int| 0 <= j < m ==> config_score(#[trigger] configs@[j]) <= top_score,
            forall|j: int| 0 <= j < top ==> config_score(#[trigger] configs@[j]) < top_score,
        decreases n - m,
    {
        let s = score_of(&configs[m]);
        if s > top_score {
            top = m;
            top_score = s;
        }
        m += 1;
    }
    let c = &configs[top];
    let rate = if c.min_sample_rate <= sample_rate && sample_rate <= c.max_sample_rate {
        sample_rate
    } else {
        c.max_sample_rate
    };
    Ok(ChosenConfig { index: top, sample_rate: rate })
}

/// The device at `index` among `count` devices; an index past the end is
/// refused.
pub fn check_device_index(index: usize, count: usize) -> (r: Result<usize, PlayerError>)
    ensures
        index < count ==> r == Ok::<usize, PlayerError>(index),
        index >= count ==> (r matches Err(PlayerError::AudioDeviceError(m)) && m@ == "Device index "@
            + decimal(index as nat) + " out of range"@),
{
    if index < count {
        Ok(index)
    } else {
        let mut m = "Device index ".to_owned();
        m.append(decimal_string(index as u64).as_str());
        m.append(" out of range");
        Err(PlayerError::AudioDeviceError(m))
    }
}

/// Whether the sample format `f` is preferred to `g`: the order is F32,
/// F64, I32, I16, U16, then all others alike.
pub open spec fn format_preferred(f: SampleFormatKind, g: SampleFormatKind) -> bool {
    match f {
        SampleFormatKind::F32 => g != SampleFormatKind::F32,
        SampleFormatKind::F64 => g != SampleFormatKind::F32 && g != SampleFormatKind::F64,
        SampleFormatKind::I32 => g != SampleFormatKind::F32 && g != SampleFormatKind::F64 && g
            != SampleFormatKind::I32,
        SampleFormatKind::I16 => g != SampleFormatKind::F32 && g != SampleFormatKind::F64 && g
            != SampleFormatKind::I32 && g != SampleFormatKind::I16,
        SampleFormatKind::U16 => g != SampleFormatKind::F32 && g != SampleFormatKind::F64 && g
            != SampleFormatKind::I32 && g != SampleFormatKind::I16 && g != SampleFormatKind::U16,
        _ => false,
    }
}

/// When no range of the device has the track's channels or more, of two
/// ranges alike in channels and highest rate the one with the preferred
/// sample format (see [`format_preferred`]) wins over the other: the other
/// is never the one chosen.
pub proof fn lemma_preferred_format_wins(
    cs: Seq<OutputConfigRange>,
    sample_rate: u32,
    channels: int,
    r: ChosenConfig,
    a: int,
    b: int,
)
    requires
        is_chosen_config(cs, sample_rate, channels, r),
        forall|k: int| 0 <= k < cs.len() ==> #[trigger] cs[k].channels < channels,
        0 <= a < cs.len(),
        0 <= b < cs.len(),
        cs[a].channels == cs[b].channels,
        cs[a].max_sample_rate == cs[b].max_sample_rate,
        format_preferred(cs[a].sample_format, cs[b].sample_format),
    ensures
        r.index != b,
{
    if r.index == b {
        assert(!exists|k: int| 0 <= k < cs.len() && #[trigger] cs[k].channels == channels);
        assert(!exists|k: int| 0 <= k < cs.len() && #[trigger] cs[k].channels >= channels);
        assert(config_score(cs[a]) <= config_score(cs[b]));
    }
}

} // verus!
