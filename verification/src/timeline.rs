//! Timelines: tracks, the actions on them, and a playhead.
use crate::action::world::ActionModel;
use crate::action::{ActionId, ActionKey, ActionWorld};
use crate::pipeline::PipelineKey;
use crate::subject::Tagged;
use crate::table::Table;
use crate::time::Ticks;
use crate::track::Track;
use core::marker::PhantomData;
use vstd::prelude::*;

pub mod bake_laws;
pub mod builder;
pub mod builder_laws;
pub mod chain_laws;
pub mod edit;
pub mod end_laws;
pub mod laws;
pub mod pick_laws;
pub mod play;
pub mod queue;
pub mod queue_laws;
pub mod relabel_laws;
pub mod sample_laws;
pub mod seek_laws;

pub use builder::TimelineBuilder;
pub use queue::QueueCache;

verus! {

/// Tracks, the actions on them, and a playhead.
pub struct Timeline<W: Tagged> {
    action_world: ActionWorld,
    /// How many actions go through each pipeline.
    pipeline_counts: Table<PipelineKey, u32>,
    tracks: Vec<Track>,
    /// Cached actions that are queued to be sampled.
    ///
    /// This cache will be cleared everytime [`Timeline::queue_actions`]
    /// is called.
    queue_cache: QueueCache,
    /// The current time of the current track.
    curr_time: Ticks,
    /// The target time of the target track.
    target_time: Ticks,
    /// The index of the current track.
    curr_index: usize,
    /// The index of the target track.
    target_index: usize,
    marker: PhantomData<W>,
}

/// What a timeline holds.
#[verifier::ext_equal]
pub struct TimelineModel {
    pub actions: ActionModel,
    pub counts: Map<PipelineKey, u32>,
    pub tracks: Seq<Track>,
    pub queue: Map<ActionKey, ActionId>,
    pub curr_time: Ticks,
    pub target_time: Ticks,
    pub curr_index: usize,
    pub target_index: usize,
}

impl TimelineModel {
    /// Whether there is a track and the playhead is on one.
    pub open spec fn playable(self) -> bool {
        &&& self.tracks.len() >= 1
        &&& self.curr_index < self.tracks.len()
        &&& self.target_index < self.tracks.len()
    }

    /// Whether no track has a negative duration.
    pub open spec fn forward(self) -> bool {
        forall|i: int| 0 <= i < self.tracks.len() ==> (#[trigger] self.tracks[i]).duration() >= 0
    }
}

impl<W: Tagged> View for Timeline<W> {
    type V = TimelineModel;

    closed spec fn view(&self) -> TimelineModel {
        TimelineModel {
            actions: self.action_world@,
            counts: self.pipeline_counts@,
            tracks: self.tracks@,
            queue: self.queue_cache@,
            curr_time: self.curr_time,
            target_time: self.target_time,
            curr_index: self.curr_index,
            target_index: self.target_index,
        }
    }
}

impl<W: Tagged> Timeline<W> {
    /// Number of tracks in this timeline.
    pub fn track_count(&self) -> (count: usize)
        ensures
            count == self@.tracks.len(),
    {
        self.tracks.len()
    }

    /// Immutable access to the underlying [`ActionWorld`].
    pub fn action_world(&self) -> (world: &ActionWorld)
        ensures
            world@ == self@.actions,
    {
        &self.action_world
    }

    /// The actions of the timeline, to change them.
    pub fn action_world_mut(&mut self) -> (world: &mut ActionWorld)
        ensures
            world@ == old(self)@.actions,
            final(self)@ == (TimelineModel { actions: final(world)@, ..old(self)@ }),
    {
        &mut self.action_world
    }

    /// Returns the current queue cache.
    pub fn queue_cache(&self) -> (cache: &QueueCache)
        ensures
            cache@ == self@.queue,
    {
        &self.queue_cache
    }

    /// Returns the current playback time.
    pub fn curr_time(&self) -> (time: Ticks)
        ensures
            time == self@.curr_time,
    {
        self.curr_time
    }

    /// Returns the target playback time.
    pub fn target_time(&self) -> (time: Ticks)
        ensures
            time == self@.target_time,
    {
        self.target_time
    }

    /// Returns the current track index.
    pub fn curr_index(&self) -> (index: usize)
        ensures
            index == self@.curr_index,
    {
        self.curr_index
    }

    /// Returns the target track index.
    pub fn target_index(&self) -> (index: usize)
        ensures
            index == self@.target_index,
    {
        self.target_index
    }

    /// Returns a reference slice to all tracks.
    pub fn tracks(&self) -> (tracks: &[Track])
        ensures
            tracks@ == self@.tracks,
    {
        self.tracks.as_slice()
    }

    /// Returns a reference the current playing track.
    pub fn curr_track(&self) -> (track: &Track)
        requires
            self@.playable(),
        ensures
            *track == self@.tracks[self@.curr_index as int],
    {
        &self.tracks[self.curr_index]
    }

    /// Get the index of the last track. This is essentially the largest
    /// index you can provide in [`Timeline::set_target_track`].
    pub fn last_track_index(&self) -> (index: usize)
        requires
            self@.playable(),
        ensures
            index == self@.tracks.len() - 1,
    {
        self.tracks.len() - 1
    }

    /// Returns `true` if the current track is the last track.
    pub fn is_last_track(&self) -> (is_last: bool)
        requires
            self@.playable(),
        ensures
            is_last == (self@.curr_index == self@.tracks.len() - 1),
    {
        self.curr_index == self.last_track_index()
    }

    /// Has [`Self::curr_time()`] reached the end of the track at
    /// [`Self::curr_index()`]?
    pub fn is_track_end(&self) -> (is_end: bool)
        requires
            self@.playable(),
        ensures
            is_end == (self@.curr_time >= self@.tracks[self@.curr_index as int].duration()),
    {
        self.curr_time >= self.tracks[self.curr_index].duration()
    }

    /// Is [`Self::is_last_track()`] and [`Self::is_track_end()`].
    pub fn is_complete(&self) -> (is_complete: bool)
        requires
            self@.playable(),
        ensures
            is_complete == completed(self@),
    {
        self.is_last_track() && self.is_track_end()
    }

    /// Set the target time of the current track, clamping the value
    /// within \[0..=track.duration\]
    pub fn set_target_time(&mut self, target_time: Ticks)
        requires
            old(self)@.playable(),
            old(self)@.tracks[old(self)@.target_index as int].duration() >= 0,
        ensures
            final(self)@ == (TimelineModel {
                target_time: clamped_time(
                    target_time,
                    old(self)@.tracks[old(self)@.target_index as int].duration(),
                ),
                ..old(self)@
            }),
            old(self)@.playable() ==> final(self)@.playable(),
            0 <= target_time <= old(self)@.tracks[old(self)@.target_index as int].duration()
                ==> final(self)@.target_time == target_time,
            target_time <= 0 ==> final(self)@.target_time == 0,
            target_time >= old(self)@.tracks[old(self)@.target_index as int].duration()
                ==> final(self)@.target_time
                == old(self)@.tracks[old(self)@.target_index as int].duration(),
    {
        let duration = self.tracks[self.target_index].duration();
        self.target_time = if target_time < 0 {
            0
        } else if target_time > duration {
            duration
        } else {
            target_time
        };
    }

    /// Set the target track index, clamping the value within
    /// \[0..=track_count - 1\].
    pub fn set_target_track(&mut self, target_index: usize)
        requires
            old(self)@.playable(),
        ensures
            final(self)@ == (TimelineModel {
                target_index: clamped_index(target_index, old(self)@.tracks.len() as int),
                ..old(self)@
            }),
            final(self)@.playable(),
            target_index < old(self)@.tracks.len() ==> final(self)@.target_index == target_index,
            target_index >= old(self)@.tracks.len() ==> final(self)@.target_index
                == old(self)@.tracks.len() - 1,
    {
        let max_index = self.last_track_index();
        self.target_index = if target_index > max_index {
            max_index
        } else {
            target_index
        };
    }
}

/// Whether the playhead is at the end of the last track.
pub open spec fn completed(model: TimelineModel) -> bool {
    &&& model.curr_index == model.tracks.len() - 1
    &&& model.curr_time >= model.tracks[model.curr_index as int].duration()
}

/// A time held between zero and a duration.
pub open spec fn clamped_time(time: Ticks, duration: Ticks) -> Ticks {
    if time < 0 {
        0
    } else if time > duration {
        duration
    } else {
        time
    }
}

/// An index held inside a list that is not empty.
pub open spec fn clamped_index(index: usize, len: int) -> usize {
    if index > len - 1 {
        (len - 1) as usize
    } else {
        index
    }
}

} // verus!
