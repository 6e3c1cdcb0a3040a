//! Playback control: the playback state machine, the commands that reach the
//! audio output, remote (MPRIS) commands, keyboard shortcuts and the progress
//! of background loading.
use vstd::prelude::*;
use crate::text::{decimal, push_char, push_decimal, push_text};
use crate::track::TrackRecord;

verus! {

/// Whether audio is playing.
#[derive(Clone, Copy, PartialEq, Eq, Debug, Structural)]
pub enum PlaybackState {
    Stopped,
    Playing,
    Paused,
}

impl Default for PlaybackState {
    fn default() -> (s: Self)
        ensures
            s == PlaybackState::Stopped,
    {
        PlaybackState::Stopped
    }
}

/// The state after one poll of the output and whether a track finished: a
/// playing output whose queue ran empty has finished its track and stops.
pub open spec fn polled(s: PlaybackState, queue_empty: bool) -> (PlaybackState, bool) {
    if s == PlaybackState::Playing && queue_empty {
        (PlaybackState::Stopped, true)
    } else {
        (s, false)
    }
}

impl PlaybackState {
    /// The state after the output was asked to toggle pause, given whether
    /// the output reports itself paused afterwards.
    pub fn after_toggle(paused: bool) -> (s: PlaybackState)
        ensures
            s == (if paused {
                PlaybackState::Paused
            } else {
                PlaybackState::Playing
            }),
    {
        if paused {
            PlaybackState::Paused
        } else {
            PlaybackState::Playing
        }
    }

    /// One poll of the output: a playing output whose queue ran empty has
    /// finished its track; the state becomes `Stopped` and the second result
    /// says that the track finished. Any other state is kept.
    pub fn after_poll(self, queue_empty: bool) -> (r: (PlaybackState, bool))
        ensures
            r == polled(self, queue_empty),
    {
        if self == PlaybackState::Playing && queue_empty {
            (PlaybackState::Stopped, true)
        } else {
            (self, false)
        }
    }
}

/// What happens to the shown playback position in one frame.
#[derive(Clone, Copy, PartialEq, Eq, Debug, Structural)]
pub enum PositionUpdate {
    Keep,
    /// Back to the start.
    Zero,
    /// Take the output's position.
    FromOutput,
}

/// The outcome of one frame of the audio system.
#[derive(Clone, Copy, PartialEq, Eq, Debug, Structural)]
pub struct AudioStep {
    pub state: PlaybackState,
    /// The track finished this frame.
    pub finished: bool,
    pub position: PositionUpdate,
}

/// The state after the frame's commands, before polling the output: a play
/// command plays, a toggle leaves the state the output reports, a stop stops.
pub open spec fn commanded_state(
    state: PlaybackState,
    play: bool,
    paused_after_toggle: Option<bool>,
    stop: bool,
) -> PlaybackState {
    if stop {
        PlaybackState::Stopped
    } else {
        match paused_after_toggle {
            Some(paused) => if paused {
                PlaybackState::Paused
            } else {
                PlaybackState::Playing
            },
            None => if play {
                PlaybackState::Playing
            } else {
                state
            },
        }
    }
}

/// One frame of the audio system: the commands (see `commanded_state`), then
/// a poll of the output (see `polled`). The position follows the output
/// while playing, goes back to the start when a track finishes, is started
/// or stopped, and is kept otherwise.
pub open spec fn audio_step_result(
    state: PlaybackState,
    play: bool,
    paused_after_toggle: Option<bool>,
    stop: bool,
    queue_empty: bool,
) -> AudioStep {
    let before = commanded_state(state, play, paused_after_toggle, stop);
    let after = polled(before, queue_empty);
    AudioStep {
        state: after.0,
        finished: after.1,
        position: if before == PlaybackState::Playing {
            if after.1 {
                PositionUpdate::Zero
            } else {
                PositionUpdate::FromOutput
            }
        } else if play || stop {
            PositionUpdate::Zero
        } else {
            PositionUpdate::Keep
        },
    }
}

/// One frame of the audio system, given the state, whether a track was
/// started, whether the output reports itself paused after a toggle (none
/// without a toggle), whether it was stopped, and whether its queue is empty.
pub fn audio_step(
    state: PlaybackState,
    play: bool,
    paused_after_toggle: Option<bool>,
    stop: bool,
    queue_empty: bool,
) -> (r: AudioStep)
    ensures
        r == audio_step_result(state, play, paused_after_toggle, stop, queue_empty),
{
    let mut s = state;
    if play {
        s = PlaybackState::Playing;
    }
    match paused_after_toggle {
        Some(paused) => {
            s = PlaybackState::after_toggle(paused);
        },
        None => {},
    }
    if stop {
        s = PlaybackState::Stopped;
    }
    let playing = s == PlaybackState::Playing;
    let (after, finished) = s.after_poll(queue_empty);
    let position = if playing {
        if finished {
            PositionUpdate::Zero
        } else {
            PositionUpdate::FromOutput
        }
    } else if play || stop {
        PositionUpdate::Zero
    } else {
        PositionUpdate::Keep
    };
    AudioStep { state: after, finished, position }
}

/// What the audio output is asked to do.
#[derive(Clone, Debug, PartialEq, Eq)]
pub enum Transport {
    /// Load and play the file at this path.
    Play(String),
    TogglePause,
    Stop,
    /// Seek to this many microseconds from the start.
    SeekMicros(u64),
    /// Nothing to do.
    Idle,
}

/// A command from the desktop media-control interface (MPRIS).
#[derive(Clone, Copy, PartialEq, Eq, Debug, Structural)]
pub enum MprisCommand {
    PlayPause,
    Play,
    Pause,
    Next,
    Previous,
    Stop,
    /// Seek to a position given in microseconds (it may be negative).
    Seek(i64),
}

/// A seek position in microseconds as the output takes it: negative
/// positions become the start.
pub open spec fn seek_position(micros: i64) -> u64 {
    if micros < 0 {
        0
    } else {
        micros as u64
    }
}

/// The non-negative seek target for a remote seek to `micros`.
pub fn clamp_seek(micros: i64) -> (r: u64)
    ensures
        r == seek_position(micros),
{
    if micros < 0 {
        0
    } else {
        micros as u64
    }
}

// ---------------------------------------------------------------------------
// Keyboard shortcuts

/// The keys the shortcut handler looks at in one frame.
#[derive(Clone, Copy, PartialEq, Eq, Debug, Structural)]
pub struct Keys {
    /// A text field has the keyboard: no shortcut applies.
    pub typing: bool,
    /// Either control key is held.
    pub ctrl: bool,
    /// Either shift key is held.
    pub shift: bool,
    /// Space or the media play/pause key was just pressed.
    pub play_pause: bool,
    /// The right arrow is held.
    pub arrow_right: bool,
    /// The left arrow is held.
    pub arrow_left: bool,
    /// `J` was just pressed.
    pub key_j: bool,
    /// `L` was just pressed.
    pub key_l: bool,
    /// The media next-track key was just pressed.
    pub media_next: bool,
    /// The media previous-track key was just pressed.
    pub media_previous: bool,
    /// `O` was just pressed.
    pub key_o: bool,
    /// `S` was just pressed.
    pub key_s: bool,
}

/// What a keyboard shortcut asks for.
#[derive(Clone, Copy, PartialEq, Eq, Debug, Structural)]
pub enum Shortcut {
    PlayPause,
    /// Move the position forward by this many milliseconds (saturating).
    SeekForward(u64),
    /// Move the position back by this many milliseconds (saturating at zero).
    SeekBackward(u64),
    Next,
    Previous,
    /// Ctrl+Shift+O: add a directory recursively.
    AddDirectory,
    /// Ctrl+O: add files.
    AddFiles,
    /// Ctrl+S: shuffle the playlist.
    Shuffle,
}

/// The shortcut a frame's keys select: the first that applies, in this order
/// of precedence.
pub open spec fn selected_shortcut(k: Keys) -> Option<Shortcut> {
    if k.typing {
        None
    } else if k.play_pause {
        Some(Shortcut::PlayPause)
    } else if k.arrow_right {
        Some(Shortcut::SeekForward(500))
    } else if k.arrow_left {
        Some(Shortcut::SeekBackward(500))
    } else if k.key_j {
        Some(Shortcut::SeekForward(10_000))
    } else if k.key_l {
        Some(Shortcut::SeekBackward(10_000))
    } else if k.media_next {
        Some(Shortcut::Next)
    } else if k.media_previous {
        Some(Shortcut::Previous)
    } else if k.ctrl && k.shift && k.key_o {
        Some(Shortcut::AddDirectory)
    } else if k.ctrl && k.key_o {
        Some(Shortcut::AddFiles)
    } else if k.ctrl && k.key_s {
        Some(Shortcut::Shuffle)
    } else {
        None
    }
}

/// The shortcut that the keys of this frame trigger, if any.
pub fn pick_shortcut(k: Keys) -> (r: Option<Shortcut>)
    ensures
        r == selected_shortcut(k),
{
    if k.typing {
        None
    } else if k.play_pause {
        Some(Shortcut::PlayPause)
    } else if k.arrow_right {
        Some(Shortcut::SeekForward(500))
    } else if k.arrow_left {
        Some(Shortcut::SeekBackward(500))
    } else if k.key_j {
        Some(Shortcut::SeekForward(10_000))
    } else if k.key_l {
        Some(Shortcut::SeekBackward(10_000))
    } else if k.media_next {
        Some(Shortcut::Next)
    } else if k.media_previous {
        Some(Shortcut::Previous)
    } else if k.ctrl && k.shift && k.key_o {
        Some(Shortcut::AddDirectory)
    } else if k.ctrl && k.key_o {
        Some(Shortcut::AddFiles)
    } else if k.ctrl && k.key_s {
        Some(Shortcut::Shuffle)
    } else {
        None
    }
}

/// The largest playback position in nanoseconds: that of `Duration::MAX`.
pub const MAX_POSITION_NANOS: u128 = 18_446_744_073_709_551_615_999_999_999u128;

/// The position a seek shortcut moves to from `pos` nanoseconds: forward
/// saturating at the largest position, backward saturating at zero. Other
/// shortcuts do not seek.
pub open spec fn seek_result(pos: int, s: Shortcut) -> Option<int> {
    match s {
        Shortcut::SeekForward(ms) => Some(
            if pos + ms * 1_000_000 > MAX_POSITION_NANOS {
                MAX_POSITION_NANOS as int
            } else {
                pos + ms * 1_000_000
            },
        ),
        Shortcut::SeekBackward(ms) => Some(
            if pos < ms * 1_000_000 {
                0
            } else {
                pos - ms * 1_000_000
            },
        ),
        _ => None,
    }
}

/// The position, in nanoseconds, that the shortcut `s` seeks to from the
/// position `position_nanos`; none for a shortcut that does not seek.
pub fn seek_target(position_nanos: u128, s: Shortcut) -> (r: Option<u128>)
    requires
        position_nanos <= MAX_POSITION_NANOS,
    ensures
        match seek_result(position_nanos as int, s) {
            Some(v) => r == Some(v as u128),
            None => r is None,
        },
{
    match s {
        Shortcut::SeekForward(ms) => {
            let delta = (ms as u128) * 1_000_000;
            if delta > MAX_POSITION_NANOS - position_nanos {
                Some(MAX_POSITION_NANOS)
            } else {
                Some(position_nanos + delta)
            }
        },
        Shortcut::SeekBackward(ms) => {
            let delta = (ms as u128) * 1_000_000;
            if position_nanos < delta {
                Some(0)
            } else {
                Some(position_nanos - delta)
            }
        },
        _ => None,
    }
}

// ---------------------------------------------------------------------------
// Background loading

/// A message from the tag-reading worker.
#[derive(Clone, Debug)]
pub enum LoadResult {
    /// Tag reading done for one track, ready to insert into the library.
    Record(TrackRecord),
    /// The worker finished a batch of paths.
    BatchDone,
}

/// At most this many worker messages are taken in per frame, so that a
/// large batch cannot stall the interface.
pub const DRAIN_LIMIT: usize = 500;

/// Progress of background loading.
#[derive(Clone, Copy, PartialEq, Eq, Debug, Structural)]
pub struct LoadingState {
    pub is_loading: bool,
    pub queued: usize,
    pub loaded: usize,
}

/// The status line while loading: `Loading… <loaded>/<queued>`.
pub open spec fn loading_text(loaded: nat, queued: nat) -> Seq<char> {
    "Loading… "@ + decimal(loaded) + seq!['/'] + decimal(queued)
}

impl Default for LoadingState {
    fn default() -> (s: Self)
        ensures
            s == (LoadingState { is_loading: false, queued: 0, loaded: 0 }),
    {
        LoadingState { is_loading: false, queued: 0, loaded: 0 }
    }
}

impl LoadingState {
    /// The status line: empty unless loading, else `Loading… loaded/queued`.
    pub fn status_text(&self) -> (s: String)
        ensures
            s@ == (if self.is_loading {
                loading_text(self.loaded as nat, self.queued as nat)
            } else {
                Seq::<char>::empty()
            }),
    {
        let mut s = String::new();
        if !self.is_loading {
            return s;
        }
        push_text(&mut s, "Loading… ");
        push_decimal(&mut s, self.loaded as u64);
        push_char(&mut s, '/');
        push_decimal(&mut s, self.queued as u64);
        s
    }

    /// `count` more files were handed to the worker: they add to the queue,
    /// the loaded count restarts and loading is on.
    pub fn files_queued(&mut self, count: usize)
        requires
            old(self).queued + count <= usize::MAX,
        ensures
            *final(self) == (LoadingState {
                is_loading: true,
                queued: (old(self).queued + count) as usize,
                loaded: 0,
            }),
    {
        self.queued = self.queued + count;
        self.loaded = 0;
        self.is_loading = true;
    }

    /// A directory's `count` files were handed to the worker: they replace the
    /// queue, the loaded count restarts and loading is on.
    pub fn directory_queued(&mut self, count: usize)
        ensures
            *final(self) == (LoadingState { is_loading: true, queued: count, loaded: 0 }),
    {
        self.queued = count;
        self.loaded = 0;
        self.is_loading = true;
    }

    /// One more single file was handed to the worker: the queue grows by one
    /// and loading is on; the loaded count is kept.
    pub fn file_queued(&mut self)
        requires
            old(self).queued < usize::MAX,
        ensures
            *final(self) == (LoadingState {
                is_loading: true,
                queued: (old(self).queued + 1) as usize,
                loaded: old(self).loaded,
            }),
    {
        self.queued = self.queued + 1;
        self.is_loading = true;
    }

    /// Takes in one message of the worker. A record is kept in `pending` and
    /// counted as loaded, and draining goes on (`true`); the end of a batch
    /// turns loading off and stops draining (`false`).
    pub fn absorb(&mut self, msg: LoadResult, pending: &mut Vec<TrackRecord>) -> (more: bool)
        requires
            msg is Record ==> old(self).loaded < usize::MAX,
        ensures
            match msg {
                LoadResult::Record(r) => {
                    &&& more
                    &&& final(pending)@ == old(pending)@.push(r)
                    &&& *final(self) == (LoadingState {
                        loaded: (old(self).loaded + 1) as usize,
                        ..*old(self)
                    })
                },
                LoadResult::BatchDone => {
                    &&& !more
                    &&& final(pending)@ == old(pending)@
                    &&& *final(self) == (LoadingState { is_loading: false, ..*old(self) })
                },
            },
    {
        match msg {
            LoadResult::Record(r) => {
                pending.push(r);
                self.loaded = self.loaded + 1;
                true
            },
            LoadResult::BatchDone => {
                self.is_loading = false;
                false
            },
        }
    }

    /// One step of taking in the worker's messages during a frame: `taken`
    /// messages were taken in before, and `msg` is the next one, or none when
    /// the channel is empty. An empty channel ends the frame's draining and
    /// changes nothing. A message is absorbed (see `absorb`), and draining
    /// goes on when `absorb` asks for more and the frame's limit of
    /// `DRAIN_LIMIT` messages is not reached.
    pub fn drain_step(
        &mut self,
        taken: usize,
        msg: Option<LoadResult>,
        pending: &mut Vec<TrackRecord>,
    ) -> (more: bool)
        requires
            taken < DRAIN_LIMIT,
            msg matches Some(LoadResult::Record(_)) ==> old(self).loaded < usize::MAX,
        ensures
            match msg {
                None => {
                    &&& !more
                    &&& final(pending)@ == old(pending)@
                    &&& *final(self) == *old(self)
                },
                Some(LoadResult::Record(r)) => {
                    &&& more == (taken + 1 < DRAIN_LIMIT)
                    &&& final(pending)@ == old(pending)@.push(r)
                    &&& *final(self) == (LoadingState {
                        loaded: (old(self).loaded + 1) as usize,
                        ..*old(self)
                    })
                },
                Some(LoadResult::BatchDone) => {
                    &&& !more
                    &&& final(pending)@ == old(pending)@
                    &&& *final(self) == (LoadingState { is_loading: false, ..*old(self) })
                },
            },
    {
        match msg {
            Some(m) => {
                let go_on = self.absorb(m, pending);
                go_on && taken + 1 < DRAIN_LIMIT
            },
            None => false,
        }
    }
}

} // verus!
