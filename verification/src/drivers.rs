//! The playback driver: it moves a playhead as time passes, and reacts when
//! the sequence under the playhead completes.
use vstd::prelude::*;
use crate::lerp::{clamp_i64, scale, scaled, UNIT};
use crate::playhead::{AnimationPlayhead, SequenceEvent};

verus! {

#[derive(Debug, PartialEq, Eq, Clone, Copy, Structural)]
pub enum PlaybackState {
    Play,
    Pause,
}

#[derive(Debug, PartialEq, Eq, Clone, Copy, Structural)]
pub enum PlaybackMode {
    Once,
    Repeat(RepeatMode),
}

#[derive(Debug, PartialEq, Eq, Clone, Copy, Structural)]
pub enum RepeatMode {
    /// Restart the animation.
    Restart,
    /// Reverse the animation direction at each end.
    PingPong,
}

/// Drives a playhead by the time that passes, while it plays. The state is
/// set by `play`, by `pause` and by the completion of a sequence that plays
/// once.
#[derive(Debug, PartialEq, Eq, Clone, Copy, Structural)]
pub struct TimeDriver {
    /// How fast the playhead moves, in millionths of the time that passes:
    /// `UNIT` is real time, a negative speed runs backwards.
    pub speed: i64,
    pub state: PlaybackState,
    pub mode: PlaybackMode,
}

impl Default for TimeDriver {
    fn default() -> (driver: Self)
        ensures
            driver == (TimeDriver { speed: UNIT, state: PlaybackState::Play, mode: PlaybackMode::Once }),
    {
        TimeDriver { speed: UNIT, state: PlaybackState::Play, mode: PlaybackMode::Once }
    }
}

/// The driver after the sequence that it drives has completed: a driver
/// that plays once pauses, one that goes back and forth turns around, one
/// that restarts stays as it is.
pub open spec fn after_completion(driver: TimeDriver) -> TimeDriver {
    match driver.mode {
        PlaybackMode::Once => TimeDriver { state: PlaybackState::Pause, ..driver },
        PlaybackMode::Repeat(RepeatMode::Restart) => driver,
        PlaybackMode::Repeat(RepeatMode::PingPong) => TimeDriver { speed: clamp_i64(-driver.speed), ..driver },
    }
}

impl TimeDriver {
    pub fn play(&mut self)
        ensures
            *final(self) == (TimeDriver { state: PlaybackState::Play, ..*old(self) }),
    {
        self.state = PlaybackState::Play;
    }

    pub fn pause(&mut self)
        ensures
            *final(self) == (TimeDriver { state: PlaybackState::Pause, ..*old(self) }),
    {
        self.state = PlaybackState::Pause;
    }

    /// Move `playhead` by the time `delta` that has passed, in nanoseconds,
    /// at the speed of this driver; the position stays within what an `i64`
    /// holds. A paused driver leaves its playhead where it is. The position
    /// as of the last trace is not touched.
    pub fn drive_playhead(&self, playhead: &mut AnimationPlayhead, delta: u64)
        ensures
            self.state == PlaybackState::Pause ==> *final(playhead) == *old(playhead),
            self.state == PlaybackState::Play ==> final(playhead).position() == clamp_i64(
                old(playhead).position() + scaled(delta as int, self.speed as int),
            ),
            final(playhead).previous() == old(playhead).previous(),
    {
        match self.state {
            PlaybackState::Pause => {
                return ;
            },
            PlaybackState::Play => {},
        }
        let moved: i128 = playhead.get() as i128 + scale(delta as i128, self.speed);
        let position: i64 = if moved > i64::MAX as i128 {
            i64::MAX
        } else if moved < i64::MIN as i128 {
            i64::MIN
        } else {
            moved as i64
        };
        playhead.set(position);
    }

    /// React to a signal of the sequence that this driver drives. Only its
    /// completion matters: a driver that plays once pauses, one that restarts
    /// puts the playhead back to zero without any movement, and one that goes
    /// back and forth turns its speed around.
    pub fn observe_sequence(&mut self, event: SequenceEvent, playhead: &mut AnimationPlayhead)
        ensures
            event != SequenceEvent::SequenceCompleted ==> *final(self) == *old(self) && *final(playhead) == *old(playhead),
            event == SequenceEvent::SequenceCompleted ==> *final(self) == after_completion(*old(self)),
            event == SequenceEvent::SequenceCompleted && old(self).mode == PlaybackMode::Repeat(RepeatMode::Restart)
                ==> final(playhead).position() == 0 && final(playhead).previous() == 0,
            event == SequenceEvent::SequenceCompleted && old(self).mode != PlaybackMode::Repeat(RepeatMode::Restart)
                ==> *final(playhead) == *old(playhead),
    {
        match event {
            SequenceEvent::SequenceCompleted => {},
            SequenceEvent::SequenceStarted => {
                return ;
            },
        }
        match self.mode {
            PlaybackMode::Once => {
                self.pause();
            },
            PlaybackMode::Repeat(RepeatMode::Restart) => {
                playhead.jump_to(0);
            },
            PlaybackMode::Repeat(RepeatMode::PingPong) => {
                self.speed = if self.speed == i64::MIN {
                    i64::MAX
                } else {
                    -self.speed
                };
            },
        }
    }
}

} // verus!
