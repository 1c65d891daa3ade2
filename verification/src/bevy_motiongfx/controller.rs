//! Players that move the playhead of a timeline.
use crate::bevy_motiongfx::manager::{MotionGfxManager, TimelineId, Timelines};
use crate::time::{saturated, ticks_add, Ticks, TICKS_PER_SECOND};
use crate::timeline::{clamped_time, TimelineModel};
use vstd::prelude::*;

verus! {

/// The bits of the single-precision number one.
pub const TIME_SCALE_ONE: u32 = 0x3F80_0000;

/// A minimal controller for a [`Timeline`] that increments the target
/// time based on the time that has passed.
///
/// [`Timeline`]: crate::timeline::Timeline
#[derive(Debug, Clone, Copy, PartialEq, Eq, Structural)]
pub struct RealtimePlayer {
    /// Determines if the timeline is currently playing.
    pub is_playing: bool,
    /// The time scale of the player, as the bits of a single-precision
    /// number. Set this to negative to play backwards.
    pub time_scale: u32,
}

impl RealtimePlayer {
    /// A player that stands still.
    pub fn new() -> (player: Self)
        ensures
            player == (RealtimePlayer { is_playing: false, time_scale: TIME_SCALE_ONE }),
    {
        RealtimePlayer { is_playing: false, time_scale: TIME_SCALE_ONE }
    }

    /// Builder method for setting [`Self::is_playing`].
    pub fn with_playing(self, playing: bool) -> (player: Self)
        ensures
            player == (RealtimePlayer { is_playing: playing, ..self }),
    {
        RealtimePlayer { is_playing: playing, ..self }
    }

    /// Builder method for setting [`Self::time_scale`].
    pub fn with_time_scale(self, time_scale: u32) -> (player: Self)
        ensures
            player == (RealtimePlayer { time_scale, ..self }),
    {
        RealtimePlayer { time_scale, ..self }
    }

    /// Setter method for setting [`Self::is_playing`].
    pub fn set_playing(&mut self, playing: bool)
        ensures
            *final(self) == (RealtimePlayer { is_playing: playing, ..*old(self) }),
    {
        self.is_playing = playing;
    }

    /// Setter method for setting [`Self::time_scale`].
    pub fn set_time_scale(&mut self, time_scale: u32)
        ensures
            *final(self) == (RealtimePlayer { time_scale, ..*old(self) }),
    {
        self.time_scale = time_scale;
    }
}

impl Default for RealtimePlayer {
    fn default() -> (player: Self)
        ensures
            player == (RealtimePlayer { is_playing: false, time_scale: TIME_SCALE_ONE }),
    {
        Self::new()
    }
}

/// A controller for [`Timeline`] that increments the sequence time
/// based on based on a specified fps. This is helpful for scene recording.
///
/// [`Timeline`]: crate::timeline::Timeline
#[derive(Debug, Clone, Copy, PartialEq, Eq, Structural)]
pub struct FixedRatePlayer {
    /// Determines how many snapshots per second to take.
    pub fps: u16,
    /// Which frame are we currently at now
    pub curr_frame: u64,
    /// Determines if the timeline is currently playing.
    pub is_playing: bool,
}

/// How long a frame takes. Frames of no rate take for ever.
pub open spec fn frame_ticks(fps: u16) -> Ticks {
    if fps == 0 {
        i64::MAX
    } else {
        (TICKS_PER_SECOND / fps as i64) as i64
    }
}

impl FixedRatePlayer {
    /// A player at its first frame that stands still.
    pub fn new(fps: u16) -> (player: Self)
        ensures
            player == (FixedRatePlayer { fps, curr_frame: 0, is_playing: false }),
    {
        FixedRatePlayer { fps, curr_frame: 0, is_playing: false }
    }

    /// Builder method for setting [`Self::fps`].
    pub fn with_fps(self, fps: u16) -> (player: Self)
        ensures
            player == (FixedRatePlayer { fps, ..self }),
    {
        FixedRatePlayer { fps, ..self }
    }

    /// Calculates the duration of a frame based on [`Self::fps`].
    pub fn delta_secs(&self) -> (delta: Ticks)
        ensures
            delta == frame_ticks(self.fps),
    {
        if self.fps == 0 {
            i64::MAX
        } else {
            (705_600_000u64 / self.fps as u64) as i64
        }
    }

    /// Setter method for setting [`Self::is_playing`].
    pub fn set_playing(&mut self, is_playing: bool)
        ensures
            *final(self) == (FixedRatePlayer { is_playing, ..*old(self) }),
    {
        self.is_playing = is_playing;
    }
}

impl Default for FixedRatePlayer {
    fn default() -> (player: Self)
        ensures
            player == (FixedRatePlayer { fps: 30, curr_frame: 0, is_playing: false }),
    {
        Self::new(30)
    }
}

/// The timeline with its target time moved by `delta`, held inside the target
/// track.
pub open spec fn advanced(model: TimelineModel, delta: Ticks) -> TimelineModel {
    TimelineModel {
        target_time: clamped_time(
            saturated(model.target_time + delta),
            model.tracks[model.target_index as int].duration(),
        ),
        ..model
    }
}

/// Whether the timeline can be moved along its target track.
pub open spec fn advanceable(timelines: Timelines, id: TimelineId) -> bool {
    timelines.contains_key(id) ==> {
        let model = timelines[id];
        model.playable() && model.tracks[model.target_index as int].duration() >= 0
    }
}

/// Moves the target time of a timeline. Returns whether there is such a
/// timeline.
fn advance(manager: &mut MotionGfxManager, id: TimelineId, delta: Ticks) -> (moved: bool)
    requires
        advanceable(old(manager)@, id),
    ensures
        moved == old(manager)@.contains_key(id),
        moved ==> final(manager)@ == old(manager)@.insert(id, advanced(old(manager)@[id], delta)),
        !moved ==> final(manager)@ == old(manager)@,
        final(manager).registry() == old(manager).registry(),
{
    let ghost before = manager@;
    match manager.take(&id) {
        Some(mut timeline) => {
            timeline.set_target_time(ticks_add(timeline.target_time(), delta));
            manager.put(id, timeline);
            assert(manager@ =~= before.insert(id, advanced(before[id], delta)));
            true
        },
        None => {
            assert(manager@ =~= before);
            false
        },
    }
}

/// Moves the timeline of a realtime player that plays by `delta`, the scaled
/// time that has passed.
pub fn realtime_player_timing(
    manager: &mut MotionGfxManager,
    id: TimelineId,
    player: &RealtimePlayer,
    delta: Ticks,
)
    requires
        advanceable(old(manager)@, id),
    ensures
        final(manager)@ == (if player.is_playing && old(manager)@.contains_key(id) {
            old(manager)@.insert(id, advanced(old(manager)@[id], delta))
        } else {
            old(manager)@
        }),
        final(manager).registry() == old(manager).registry(),
{
    if player.is_playing {
        advance(manager, id, delta);
    }
}

/// Moves the timeline of a fixed rate player that plays by one frame, and
/// counts the frame.
pub fn fixed_rate_player_timing(
    manager: &mut MotionGfxManager,
    id: TimelineId,
    player: &mut FixedRatePlayer,
)
    requires
        advanceable(old(manager)@, id),
    ensures
        old(player).is_playing && old(manager)@.contains_key(id) ==> {
            &&& final(manager)@ == old(manager)@.insert(
                id,
                advanced(old(manager)@[id], frame_ticks(old(player).fps)),
            )
            &&& *final(player) == (FixedRatePlayer {
                curr_frame: next_frame(old(player).curr_frame),
                ..*old(player)
            })
        },
        !(old(player).is_playing && old(manager)@.contains_key(id)) ==> final(manager)@
            == old(manager)@ && *final(player) == *old(player),
        final(manager).registry() == old(manager).registry(),
{
    if player.is_playing {
        // Each frame we update the timeline according to the fps.
        if advance(manager, id, player.delta_secs()) {
            player.curr_frame = player.curr_frame.saturating_add(1);
        }
    }
}

/// The frame after a frame, as long as the count holds it.
pub open spec fn next_frame(frame: u64) -> u64 {
    if frame < u64::MAX {
        (frame + 1) as u64
    } else {
        frame
    }
}

} // verus!
