//! The sizes that the playback path works with, and the decisions of the
//! control loop of a playing track (what each command changes and
//! reports).

use vstd::prelude::*;
use crate::config::DEFAULT_BUFFER_MULTIPLIER;

verus! {

/// The number of samples that the playback buffer holds: the samples of
/// two seconds of audio over all channels.
pub fn calculate_buffer_size(sample_rate: u32, channels: usize) -> (r: usize)
    requires
        sample_rate * channels * DEFAULT_BUFFER_MULTIPLIER <= usize::MAX,
    ensures
        r == sample_rate * channels * DEFAULT_BUFFER_MULTIPLIER,
{
    (sample_rate as usize) * channels * DEFAULT_BUFFER_MULTIPLIER
}

/// The samples of several channels interleaved frame by frame: the first
/// sample of each channel in channel order, then the second, and so on, for
/// as many frames as the first channel has.
pub fn interleave_channels<T: Copy>(channel_data: &[Vec<T>]) -> (r: Vec<T>)
    requires
        channel_data@.len() > 0,
        forall|c: int|
            0 <= c < channel_data@.len() ==> #[trigger] channel_data@[c]@.len() >= channel_data@[0]@.len(),
        channel_data@[0]@.len() * channel_data@.len() <= usize::MAX,
    ensures
        r@.len() == channel_data@[0]@.len() * channel_data@.len(),
        forall|k: int|
            0 <= k < r@.len() ==> #[trigger] r@[k] == channel_data@[k % (channel_data@.len() as int)]@[k
                / (channel_data@.len() as int)],
{
    let n = channel_data.len();
    let frames = channel_data[0].len();
    let mut r: Vec<T> = Vec::new();
    let mut f: usize = 0;
    while f < frames
        invariant
            n == channel_data@.len() > 0,
            frames == channel_data@[0]@.len(),
            frames * n <= usize::MAX,
            forall|c: int| 0 <= c < n ==> #[trigger] channel_data@[c]@.len() >= frames,
            f <= frames,
            r@.len() == f * n,
            forall|k: int| 0 <= k < r@.len() ==> #[trigger] r@[k] == channel_data@[k % (n as int)]@[k / (n as int)],
        decreases frames - f,
    {
        let mut c: usize = 0;
        while c < n
            invariant
                n == channel_data@.len() > 0,
                frames == channel_data@[0]@.len(),
                forall|c2: int| 0 <= c2 < n ==> #[trigger] channel_data@[c2]@.len() >= frames,
                f < frames,
                c <= n,
                r@.len() == f * n + c,
                forall|k: int| 0 <= k < r@.len() ==> #[trigger] r@[k] == channel_data@[k % (n as int)]@[k / (n as int)],
            decreases n - c,
        {
            proof {
                vstd::arithmetic::div_mod::lemma_fundamental_div_mod_converse(
                    (f * n + c) as int,
                    n as int,
                    f as int,
                    c as int,
                );
            }
            assert(f < channel_data@[c as int]@.len());
            r.push(channel_data[c][f]);
            c += 1;
        }
        assert((f + 1) * n == f * n + n) by (nonlinear_arith);
        f += 1;
    }
    r
}

/// The position, in samples, of a time given in milliseconds (the
/// timestamp a seek asks for, and the position playback goes on from).
pub fn seek_timestamp(target_time_ms: u64, sample_rate: u32) -> (r: u64)
    requires
        target_time_ms * sample_rate <= u64::MAX,
    ensures
        r == target_time_ms * sample_rate / 1000,
{
    target_time_ms * (sample_rate as u64) / 1000
}

// ---------------------------------------------------------------------------
// Playback control
// ---------------------------------------------------------------------------

/// A command for the playing track. The seek target is in milliseconds.
#[derive(Debug, Clone, Copy, PartialEq, Eq, Structural)]
pub enum PlaybackCommand {
    Pause,
    Resume,
    Stop,
    Seek(u64),
}

/// What the control loop of a playing track holds: whether it is paused,
/// whether it was told to stop, the seek that the decoder has not yet
/// carried out, and the sample rate of the track.
#[derive(Debug, Clone, Copy, PartialEq, Eq, Structural)]
pub struct PlaybackControl {
    pub paused: bool,
    pub stopped: bool,
    pub pending_seek_ms: Option<u64>,
    pub sample_rate: u32,
}

/// A report of the playback state: playing or paused, the position in
/// samples, and the sample rate of the track (the times in seconds are the
/// position and the duration divided by it).
#[derive(Debug, Clone, Copy, PartialEq, Eq, Structural)]
pub struct PlaybackReport {
    pub is_playing: bool,
    pub is_paused: bool,
    pub current_samples: u64,
    pub sample_rate: u32,
}

/// The control after a command: a pause or a resume sets the pause, a stop
/// ends the loop, a seek waits for the decoder (a later seek replaces an
/// earlier one).
pub open spec fn control_after(c: PlaybackControl, cmd: PlaybackCommand) -> PlaybackControl {
    match cmd {
        PlaybackCommand::Pause => PlaybackControl { paused: true, ..c },
        PlaybackCommand::Resume => PlaybackControl { paused: false, ..c },
        PlaybackCommand::Stop => PlaybackControl { stopped: true, ..c },
        PlaybackCommand::Seek(ms) => PlaybackControl { pending_seek_ms: Some(ms), ..c },
    }
}

/// The report that a command sends at position `samples` of a track of
/// `c`: a pause and a resume report the new state; a stop and a seek report
/// nothing.
pub open spec fn report_after(c: PlaybackControl, cmd: PlaybackCommand, samples: u64) -> Option<
    PlaybackReport,
> {
    match cmd {
        PlaybackCommand::Pause => Some(
            PlaybackReport {
                is_playing: false,
                is_paused: true,
                current_samples: samples,
                sample_rate: c.sample_rate,
            },
        ),
        PlaybackCommand::Resume => Some(
            PlaybackReport {
                is_playing: true,
                is_paused: false,
                current_samples: samples,
                sample_rate: c.sample_rate,
            },
        ),
        _ => None,
    }
}

impl PlaybackControl {
    /// The control of a track of `sample_rate` that has just started:
    /// playing, no seek.
    pub fn new(sample_rate: u32) -> (r: Self)
        ensures
            r == (PlaybackControl { paused: false, stopped: false, pending_seek_ms: None, sample_rate }),
    {
        PlaybackControl { paused: false, stopped: false, pending_seek_ms: None, sample_rate }
    }

    /// The report sent when the track starts: playing from the first sample.
    pub fn initial_report(&self) -> (r: PlaybackReport)
        ensures
            r == (PlaybackReport {
                is_playing: true,
                is_paused: false,
                current_samples: 0,
                sample_rate: self.sample_rate,
            }),
    {
        PlaybackReport { is_playing: true, is_paused: false, current_samples: 0, sample_rate: self.sample_rate }
    }

    /// Carries out a command at position `current_samples` (see
    /// [`control_after`]) and returns the report to send, if any (see
    /// [`report_after`]).
    pub fn handle_command(&mut self, cmd: PlaybackCommand, current_samples: u64) -> (r: Option<
        PlaybackReport,
    >)
        ensures
            *final(self) == control_after(*old(self), cmd),
            r == report_after(*old(self), cmd, current_samples),
    {
        let sample_rate = self.sample_rate;
        match cmd {
            PlaybackCommand::Pause => {
                self.paused = true;
                Some(PlaybackReport { is_playing: false, is_paused: true, current_samples, sample_rate })
            },
            PlaybackCommand::Resume => {
                self.paused = false;
                Some(PlaybackReport { is_playing: true, is_paused: false, current_samples, sample_rate })
            },
            PlaybackCommand::Stop => {
                self.stopped = true;
                None
            },
            PlaybackCommand::Seek(ms) => {
                self.pending_seek_ms = Some(ms);
                None
            },
        }
    }

    /// The seek that the decoder is to carry out, taken from the control so
    /// that it is carried out once.
    pub fn take_seek(&mut self) -> (r: Option<u64>)
        ensures
            r == old(self).pending_seek_ms,
            *final(self) == (PlaybackControl { pending_seek_ms: None, ..*old(self) }),
    {
        let r = self.pending_seek_ms;
        self.pending_seek_ms = None;
        r
    }

    /// The report that the decoder sends at `current_samples`.
    pub fn position_report(&self, current_samples: u64) -> (r: PlaybackReport)
        ensures
            r == (PlaybackReport {
                is_playing: !self.paused,
                is_paused: self.paused,
                current_samples,
                sample_rate: self.sample_rate,
            }),
    {
        PlaybackReport {
            is_playing: !self.paused,
            is_paused: self.paused,
            current_samples,
            sample_rate: self.sample_rate,
        }
    }
}

/// Whether the decoder reports its position after reaching `current_samples`:
/// every tenth of a second of samples.
pub fn position_report_due(current_samples: u64, sample_rate: u32) -> (r: bool)
    requires
        sample_rate >= 10,
    ensures
        r == (current_samples % ((sample_rate / 10) as u64) == 0),
{
    current_samples % ((sample_rate / 10) as u64) == 0
}

/// Pausing and then resuming a playing track leaves its control as it was,
/// and the two reports say paused, then playing, at the same position and
/// with the track's sample rate.
pub proof fn lemma_pause_then_resume(c: PlaybackControl, samples: u64)
    requires
        !c.paused,
    ensures
        control_after(control_after(c, PlaybackCommand::Pause), PlaybackCommand::Resume) == c,
        report_after(c, PlaybackCommand::Pause, samples) matches Some(p) && p.is_paused && !p.is_playing
            && p.sample_rate == c.sample_rate,
        report_after(c, PlaybackCommand::Resume, samples) matches Some(q) && q.is_playing && !q.is_paused
            && q.sample_rate == c.sample_rate,
{
}

/// A stop is never undone: whatever command follows, the loop stays
/// stopped.
pub proof fn lemma_stop_is_final(c: PlaybackControl, cmd: PlaybackCommand)
    ensures
        control_after(control_after(c, PlaybackCommand::Stop), cmd).stopped,
{
}

/// A seek waits until the decoder takes it, and the latest one wins.
pub proof fn lemma_latest_seek_wins(c: PlaybackControl, a: u64, b: u64)
    ensures
        control_after(control_after(c, PlaybackCommand::Seek(a)), PlaybackCommand::Seek(b)).pending_seek_ms
            == Some(b),
{
}

} // verus!
