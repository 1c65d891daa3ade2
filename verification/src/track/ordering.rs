//! Running fragments one after another or side by side.
use crate::action::{ActionClip, ActionKey};
use crate::sequence::delayed;
use crate::time::{earlier, later, saturated, ticks_add, ticks_max, ticks_min, Ticks};
use crate::track::{delayed_lanes, joined, lane, lanes_join, Lanes, TrackFragment};
use vstd::prelude::*;

verus! {

/// The duration of fragments that run one after another.
pub open spec fn chain_duration(tracks: Seq<TrackFragment>) -> Ticks
    decreases tracks.len(),
{
    if tracks.len() == 0 {
        0
    } else {
        saturated(chain_duration(tracks.drop_last()) + tracks.last().duration())
    }
}

/// The lanes of fragments that run one after another.
pub open spec fn chain_lanes(tracks: Seq<TrackFragment>) -> Lanes
    decreases tracks.len(),
{
    if tracks.len() == 0 {
        Map::empty()
    } else {
        joined(
            chain_lanes(tracks.drop_last()),
            delayed_lanes(tracks.last().lanes(), chain_duration(tracks.drop_last())),
        )
    }
}

/// Whether fragments can run one after another without an overlap.
pub open spec fn chain_fits(tracks: Seq<TrackFragment>) -> bool
    decreases tracks.len(),
{
    tracks.len() > 0 ==> {
        &&& chain_fits(tracks.drop_last())
        &&& lanes_join(
            chain_lanes(tracks.drop_last()),
            delayed_lanes(tracks.last().lanes(), chain_duration(tracks.drop_last())),
        )
    }
}

/// The lanes of fragments that run at the same time.
pub open spec fn all_lanes(tracks: Seq<TrackFragment>) -> Lanes
    decreases tracks.len(),
{
    if tracks.len() == 0 {
        Map::empty()
    } else {
        joined(all_lanes(tracks.drop_last()), tracks.last().lanes())
    }
}

/// Whether fragments can run at the same time without an overlap.
pub open spec fn all_fit(tracks: Seq<TrackFragment>) -> bool
    decreases tracks.len(),
{
    tracks.len() > 0 ==> {
        &&& all_fit(tracks.drop_last())
        &&& lanes_join(all_lanes(tracks.drop_last()), tracks.last().lanes())
    }
}

/// The longest duration of the fragments, zero if there is none.
pub open spec fn longest(tracks: Seq<TrackFragment>) -> Ticks
    decreases tracks.len(),
{
    if tracks.len() == 0 {
        0
    } else if tracks.len() == 1 {
        tracks[0].duration()
    } else {
        later(longest(tracks.drop_last()), tracks.last().duration())
    }
}

/// The shortest duration of the fragments, zero if there is none.
pub open spec fn shortest(tracks: Seq<TrackFragment>) -> Ticks
    decreases tracks.len(),
{
    if tracks.len() == 0 {
        0
    } else if tracks.len() == 1 {
        tracks[0].duration()
    } else {
        earlier(shortest(tracks.drop_last()), tracks.last().duration())
    }
}

/// How late the fragment at `index` of a flow starts.
pub open spec fn flow_delay(delay: Ticks, index: nat) -> Ticks
    decreases index,
{
    if index == 0 {
        0
    } else {
        saturated(flow_delay(delay, (index - 1) as nat) + delay)
    }
}

/// The lanes of fragments that start one `delay` after another.
pub open spec fn flow_lanes(delay: Ticks, tracks: Seq<TrackFragment>) -> Lanes
    decreases tracks.len(),
{
    if tracks.len() == 0 {
        Map::empty()
    } else {
        joined(
            flow_lanes(delay, tracks.drop_last()),
            delayed_lanes(tracks.last().lanes(), flow_delay(delay, (tracks.len() - 1) as nat)),
        )
    }
}

/// Whether fragments can start one `delay` after another without an overlap.
pub open spec fn flow_fits(delay: Ticks, tracks: Seq<TrackFragment>) -> bool
    decreases tracks.len(),
{
    tracks.len() > 0 ==> {
        &&& flow_fits(delay, tracks.drop_last())
        &&& lanes_join(
            flow_lanes(delay, tracks.drop_last()),
            delayed_lanes(tracks.last().lanes(), flow_delay(delay, (tracks.len() - 1) as nat)),
        )
    }
}

/// The duration of fragments that start one `delay` after another.
pub open spec fn flow_duration(delay: Ticks, tracks: Seq<TrackFragment>) -> Ticks
    decreases tracks.len(),
{
    if tracks.len() == 0 {
        0
    } else if tracks.len() == 1 {
        tracks[0].duration()
    } else {
        later(
            saturated(
                flow_delay(delay, (tracks.len() - 1) as nat) + tracks.last().duration(),
            ),
            flow_duration(delay, tracks.drop_last()),
        )
    }
}

/// Moving by nothing changes nothing.
proof fn delayed_by_zero(lanes: Lanes)
    ensures
        delayed_lanes(lanes, 0) == lanes,
{
    assert forall|key: ActionKey| #[trigger] lanes.contains_key(key) implies delayed_lanes(
        lanes,
        0,
    )[key] == lanes[key] by {
        assert(delayed(lanes[key], 0) =~= lanes[key]);
    }
    assert(delayed_lanes(lanes, 0) =~= lanes);
}

/// What stands behind nothing is all there is.
proof fn joined_to_nothing(lanes: Lanes)
    ensures
        joined(Map::empty(), lanes) == lanes,
{
    let nothing = Map::<ActionKey, Seq<ActionClip>>::empty();
    assert forall|key: ActionKey| #[trigger] lanes.contains_key(key) implies joined(
        nothing,
        lanes,
    )[key] == lanes[key] by {
        assert(lane(nothing, key) + lane(lanes, key) =~= lanes[key]);
    }
    assert(joined(nothing, lanes) =~= lanes);
}

/// Run all [`TrackFragment`]s one after another.
pub fn chain(tracks: Vec<TrackFragment>) -> (track: TrackFragment)
    requires
        chain_fits(tracks@),
    ensures
        track.lanes() == chain_lanes(tracks@),
        track.duration() == chain_duration(tracks@),
{
    let ghost all = tracks@;
    let mut rest = tracks;
    let mut track = TrackFragment::new();
    let mut chain_duration: Ticks = 0;
    let ghost mut n: int = 0;
    assert(rest@ =~= all.skip(0));
    assert(all.take(0) =~= Seq::empty());
    while rest.len() > 0
        invariant
            0 <= n <= all.len(),
            rest@ == all.skip(n),
            chain_fits(all),
            track.lanes() == chain_lanes(all.take(n)),
            chain_duration == self::chain_duration(all.take(n)),
        decreases rest@.len(),
    {
        let other_track = rest.remove(0);
        proof {
            assert(other_track == all[n]);
            assert(rest@ =~= all.skip(n + 1));
            assert(all.take(n + 1).drop_last() =~= all.take(n));
            assert(all.take(n + 1).last() == other_track);
            chain_fits_prefix(all, n + 1);
        }
        let duration = other_track.duration;
        track = track.absorb(other_track, chain_duration);
        chain_duration = ticks_add(chain_duration, duration);
        proof {
            n = n + 1;
        }
    }
    assert(all.take(n) =~= all);
    track.duration = chain_duration;
    track
}

proof fn chain_fits_prefix(tracks: Seq<TrackFragment>, n: int)
    requires
        chain_fits(tracks),
        0 <= n <= tracks.len(),
    ensures
        chain_fits(tracks.take(n)),
    decreases tracks.len(),
{
    if n == tracks.len() {
        assert(tracks.take(n) =~= tracks);
    } else {
        chain_fits_prefix(tracks.drop_last(), n);
        assert(tracks.drop_last().take(n) =~= tracks.take(n));
    }
}

proof fn all_fit_prefix(tracks: Seq<TrackFragment>, n: int)
    requires
        all_fit(tracks),
        0 <= n <= tracks.len(),
    ensures
        all_fit(tracks.take(n)),
    decreases tracks.len(),
{
    if n == tracks.len() {
        assert(tracks.take(n) =~= tracks);
    } else {
        all_fit_prefix(tracks.drop_last(), n);
        assert(tracks.drop_last().take(n) =~= tracks.take(n));
    }
}

proof fn flow_fits_prefix(delay: Ticks, tracks: Seq<TrackFragment>, n: int)
    requires
        flow_fits(delay, tracks),
        0 <= n <= tracks.len(),
    ensures
        flow_fits(delay, tracks.take(n)),
    decreases tracks.len(),
{
    if n == tracks.len() {
        assert(tracks.take(n) =~= tracks);
    } else {
        flow_fits_prefix(delay, tracks.drop_last(), n);
        assert(tracks.drop_last().take(n) =~= tracks.take(n));
    }
}

/// Puts all fragments together as they are.
fn merge(tracks: Vec<TrackFragment>) -> (track: TrackFragment)
    requires
        all_fit(tracks@),
    ensures
        track.lanes() == all_lanes(tracks@),
        track.duration() == 0,
{
    let ghost all = tracks@;
    let mut rest = tracks;
    let mut track = TrackFragment::new();
    let ghost mut n: int = 0;
    assert(rest@ =~= all.skip(0));
    assert(all.take(0) =~= Seq::empty());
    while rest.len() > 0
        invariant
            0 <= n <= all.len(),
            rest@ == all.skip(n),
            all_fit(all),
            track.lanes() == all_lanes(all.take(n)),
            track.duration() == 0,
        decreases rest@.len(),
    {
        let other_track = rest.remove(0);
        proof {
            assert(other_track == all[n]);
            assert(rest@ =~= all.skip(n + 1));
            assert(all.take(n + 1).drop_last() =~= all.take(n));
            assert(all.take(n + 1).last() == other_track);
            all_fit_prefix(all, n + 1);
            delayed_by_zero(other_track.lanes());
        }
        track = track.absorb(other_track, 0);
        proof {
            n = n + 1;
        }
    }
    assert(all.take(n) =~= all);
    track
}

/// Run all [`Track`]s concurrently and wait for all of them to finish.
pub fn all(tracks: Vec<TrackFragment>) -> (track: TrackFragment)
    requires
        all_fit(tracks@),
    ensures
        track.lanes() == all_lanes(tracks@),
        track.duration() == longest(tracks@),
{
    let mut max_duration: Ticks = 0;
    let mut i: usize = 0;
    while i < tracks.len()
        invariant
            i <= tracks@.len(),
            max_duration == longest(tracks@.take(i as int)),
        decreases tracks@.len() - i,
    {
        let duration = tracks[i].duration;
        proof {
            assert(tracks@.take(i + 1).drop_last() =~= tracks@.take(i as int));
            assert(tracks@.take(i + 1).last() == tracks@[i as int]);
        }
        max_duration = if i == 0 {
            duration
        } else {
            ticks_max(max_duration, duration)
        };
        i += 1;
    }
    assert(tracks@.take(i as int) =~= tracks@);
    let mut track = merge(tracks);
    track.duration = max_duration;
    track
}

/// Run all [`Track`]s concurrently and wait for any of them to finish.
pub fn any(tracks: Vec<TrackFragment>) -> (track: TrackFragment)
    requires
        all_fit(tracks@),
    ensures
        track.lanes() == all_lanes(tracks@),
        track.duration() == shortest(tracks@),
{
    let mut min_duration: Ticks = 0;
    let mut i: usize = 0;
    while i < tracks.len()
        invariant
            i <= tracks@.len(),
            min_duration == shortest(tracks@.take(i as int)),
        decreases tracks@.len() - i,
    {
        let duration = tracks[i].duration;
        proof {
            assert(tracks@.take(i + 1).drop_last() =~= tracks@.take(i as int));
            assert(tracks@.take(i + 1).last() == tracks@[i as int]);
        }
        min_duration = if i == 0 {
            duration
        } else {
            ticks_min(min_duration, duration)
        };
        i += 1;
    }
    assert(tracks@.take(i as int) =~= tracks@);
    let mut track = merge(tracks);
    track.duration = min_duration;
    track
}

/// Run one [`Track`] after another with a fixed delay time.
pub fn flow(delay: Ticks, tracks: Vec<TrackFragment>) -> (track: TrackFragment)
    requires
        flow_fits(delay, tracks@),
    ensures
        track.lanes() == flow_lanes(delay, tracks@),
        track.duration() == flow_duration(delay, tracks@),
{
    let ghost all = tracks@;
    let mut rest = tracks;
    let mut track = TrackFragment::new();
    let mut final_duration: Ticks = 0;
    let mut next_delay: Ticks = 0;
    let mut first = true;
    let ghost mut n: int = 0;
    assert(rest@ =~= all.skip(0));
    assert(all.take(0) =~= Seq::empty());
    while rest.len() > 0
        invariant
            0 <= n <= all.len(),
            first == (n == 0),
            rest@ == all.skip(n),
            flow_fits(delay, all),
            track.lanes() == flow_lanes(delay, all.take(n)),
            final_duration == flow_duration(delay, all.take(n)),
            next_delay == flow_delay(delay, n as nat),
        decreases rest@.len(),
    {
        let other_track = rest.remove(0);
        proof {
            assert(other_track == all[n]);
            assert(rest@ =~= all.skip(n + 1));
            assert(all.take(n + 1).drop_last() =~= all.take(n));
            assert(all.take(n + 1).last() == other_track);
            flow_fits_prefix(delay, all, n + 1);
        }
        let duration = other_track.duration;
        track = track.absorb(other_track, next_delay);
        final_duration = if first {
            duration
        } else {
            ticks_max(ticks_add(next_delay, duration), final_duration)
        };
        next_delay = ticks_add(next_delay, delay);
        first = false;
        proof {
            n = n + 1;
        }
    }
    assert(all.take(n) =~= all);
    track.duration = final_duration;
    track
}

/// Run a [`Track`] after a fixed delay time.
pub fn delay(by: Ticks, track: TrackFragment) -> (moved: TrackFragment)
    ensures
        moved.lanes() == delayed_lanes(track.lanes(), by),
        moved.duration() == track.duration(),
{
    let duration = track.duration;
    let mut moved = TrackFragment::new();
    proof {
        assert(lanes_join(moved.lanes(), delayed_lanes(track.lanes(), by)));
        joined_to_nothing(delayed_lanes(track.lanes(), by));
    }
    moved = moved.absorb(track, by);
    moved.duration = duration;
    moved
}

/// The orders in which fragments can be run.
pub trait TrackOrdering: Sized {
    /// The fragments.
    spec fn fragments(self) -> Seq<TrackFragment>;

    /// Run all [`TrackFragment`]s one after another.
    fn ord_chain(self) -> (track: TrackFragment)
        requires
            chain_fits(self.fragments()),
        ensures
            track.lanes() == chain_lanes(self.fragments()),
            track.duration() == chain_duration(self.fragments()),
    ;

    /// Run all [`TrackFragment`]s concurrently and wait for all of them.
    fn ord_all(self) -> (track: TrackFragment)
        requires
            all_fit(self.fragments()),
        ensures
            track.lanes() == all_lanes(self.fragments()),
            track.duration() == longest(self.fragments()),
    ;

    /// Run all [`TrackFragment`]s concurrently and wait for any of them.
    fn ord_any(self) -> (track: TrackFragment)
        requires
            all_fit(self.fragments()),
        ensures
            track.lanes() == all_lanes(self.fragments()),
            track.duration() == shortest(self.fragments()),
    ;

    /// Run one [`TrackFragment`] after another with a fixed delay time.
    fn ord_flow(self, delay: Ticks) -> (track: TrackFragment)
        requires
            flow_fits(delay, self.fragments()),
        ensures
            track.lanes() == flow_lanes(delay, self.fragments()),
            track.duration() == flow_duration(delay, self.fragments()),
    ;
}

impl TrackOrdering for Vec<TrackFragment> {
    open spec fn fragments(self) -> Seq<TrackFragment> {
        self@
    }

    fn ord_chain(self) -> (track: TrackFragment) {
        chain(self)
    }

    fn ord_all(self) -> (track: TrackFragment) {
        all(self)
    }

    fn ord_any(self) -> (track: TrackFragment) {
        any(self)
    }

    fn ord_flow(self, delay: Ticks) -> (track: TrackFragment) {
        flow(delay, self)
    }
}

} // verus!
