//! How the samples of a track's channels feed the channels of the output
//! device: copied, duplicated, or mixed, whichever side has more channels.
//! The mixing arithmetic itself is done on the samples by the caller.
//! Each frame takes one sample per track channel from the front of the
//! playback buffer.

use vstd::prelude::*;
use std::collections::VecDeque;

verus! {

/// What an output channel plays, from the samples of one frame of the
/// track (`s[j]` is the sample of track channel `j`).
#[derive(Debug, Clone, Copy, PartialEq, Eq, Structural)]
pub enum ChannelRule {
    /// `s[j]`.
    Source(usize),
    /// `(s[0] + s[1]) * 0.5`.
    HalfSum,
    /// `(s[0] + s[1]) * 0.3`.
    LowSum,
    /// The mean of all the samples.
    MeanAll,
    /// `s[0] + s[2] * 0.7`, plus `s[4] * 0.5` with a fifth channel and
    /// `s[5] * 0.3` with a sixth, held within [-1, 1].
    LeftMix,
    /// `s[1]`, plus `s[3] * 0.7` with a fourth channel, `s[4] * 0.5` with a
    /// fifth and `s[5] * 0.3` with a sixth, held within [-1, 1].
    RightMix,
}

/// What output channel `i` of `out` plays from a track of `src` channels:
/// with at least as many output channels, the track's channels in order,
/// then a mono track repeated, a stereo track spread over front, back,
/// centre and low-frequency channels, or the track's channels again in
/// turn; with fewer, a stereo or wider track averaged into mono, a wider
/// track mixed into stereo, or else the track channel at the same relative
/// place.
pub open spec fn channel_rule_spec(i: int, out: int, src: int) -> ChannelRule {
    if out >= src {
        if i < src {
            ChannelRule::Source(i as usize)
        } else if src == 1 {
            ChannelRule::Source(0)
        } else if src == 2 && out > 2 {
            if i == 0 || i == 2 {
                ChannelRule::Source(0)
            } else if i == 1 || i == 3 {
                ChannelRule::Source(1)
            } else if i == 4 {
                ChannelRule::HalfSum
            } else if i == 5 {
                ChannelRule::LowSum
            } else {
                ChannelRule::Source((i % src) as usize)
            }
        } else {
            ChannelRule::Source((i % src) as usize)
        }
    } else if out == 1 && src == 2 {
        ChannelRule::HalfSum
    } else if out == 1 {
        ChannelRule::MeanAll
    } else if out == 2 && src > 2 {
        if i == 0 {
            ChannelRule::LeftMix
        } else if i == 1 {
            ChannelRule::RightMix
        } else {
            ChannelRule::Source((i % src) as usize)
        }
    } else {
        let j = (i * src) / out;
        ChannelRule::Source((if j < src - 1 { j } else { src - 1 }) as usize)
    }
}

/// Whether every sample that a rule reads is among the `src` samples of a
/// frame.
pub open spec fn reads_within(r: ChannelRule, src: int) -> bool {
    match r {
        ChannelRule::Source(j) => j < src,
        ChannelRule::HalfSum => src >= 2,
        ChannelRule::LowSum => src >= 2,
        ChannelRule::MeanAll => src >= 1,
        ChannelRule::LeftMix => src >= 3,
        ChannelRule::RightMix => src >= 3,
    }
}

/// What output channel `i` of `out_channels` plays from a track of
/// `source_channels` channels (see [`channel_rule_spec`]); it never reads
/// past the track's channels.
pub fn channel_rule(i: usize, out_channels: usize, source_channels: usize) -> (r: ChannelRule)
    requires
        i < out_channels,
        source_channels > 0,
        out_channels * source_channels <= usize::MAX,
    ensures
        r == channel_rule_spec(i as int, out_channels as int, source_channels as int),
        reads_within(r, source_channels as int),
{
    let out = out_channels;
    let src = source_channels;
    if out >= src {
        if i < src {
            ChannelRule::Source(i)
        } else if src == 1 {
            ChannelRule::Source(0)
        } else if src == 2 && out > 2 {
            if i == 0 || i == 2 {
                ChannelRule::Source(0)
            } else if i == 1 || i == 3 {
                ChannelRule::Source(1)
            } else if i == 4 {
                ChannelRule::HalfSum
            } else if i == 5 {
                ChannelRule::LowSum
            } else {
                ChannelRule::Source(i % src)
            }
        } else {
            ChannelRule::Source(i % src)
        }
    } else if out == 1 && src == 2 {
        ChannelRule::HalfSum
    } else if out == 1 {
        ChannelRule::MeanAll
    } else if out == 2 && src > 2 {
        if i == 0 {
            ChannelRule::LeftMix
        } else if i == 1 {
            ChannelRule::RightMix
        } else {
            ChannelRule::Source(i % src)
        }
    } else {
        assert(i * src < out * src) by (nonlinear_arith)
            requires
                i < out,
                src > 0,
        ;
        let j = (i * src) / out;
        ChannelRule::Source(if j < src - 1 { j } else { src - 1 })
    }
}

/// The samples of one frame of the track as the buffer `buf` gives them:
/// one per track channel, from its front, and `silence` for each that the
/// buffer no longer holds.
pub open spec fn frame_from<T>(buf: Seq<T>, channels: nat, silence: T) -> Seq<T> {
    Seq::new(channels, |i: int| if i < buf.len() { buf[i] } else { silence })
}

/// Takes the samples of one frame of the track from the front of the
/// playback buffer (see [`frame_from`]); the buffer keeps what follows them.
pub fn take_frame<T: Copy>(buffer: &mut VecDeque<T>, source_channels: usize, silence: T) -> (r: Vec<T>)
    ensures
        r@ == frame_from(old(buffer)@, source_channels as nat, silence),
        final(buffer)@ == old(buffer)@.skip(
            if source_channels < old(buffer)@.len() {
                source_channels as int
            } else {
                old(buffer)@.len() as int
            },
        ),
{
    let ghost start = buffer@;
    let mut r: Vec<T> = Vec::new();
    let mut i: usize = 0;
    while i < source_channels
        invariant
            i <= source_channels,
            r@.len() == i,
            forall|k: int| 0 <= k < i ==> #[trigger] r@[k] == (if k < start.len() { start[k] } else { silence }),
            buffer@ == start.skip(if i < start.len() { i as int } else { start.len() as int }),
        decreases source_channels - i,
    {
        match buffer.pop_front() {
            Some(x) => r.push(x),
            None => r.push(silence),
        }
        i += 1;
    }
    assert(r@ =~= frame_from(start, source_channels as nat, silence));
    r
}

} // verus!
