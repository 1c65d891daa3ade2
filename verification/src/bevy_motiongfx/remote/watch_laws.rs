//! What watchers of a timeline are told.
use crate::bevy_motiongfx::manager::TimelineId;
use crate::bevy_motiongfx::remote::fault::Fault;
use crate::bevy_motiongfx::remote::state::events::{event_models, StreamEvent};
use crate::bevy_motiongfx::remote::state::markers::{by_name, is_at, Marker};
use crate::bevy_motiongfx::remote::state::EditsModel;
use crate::bevy_motiongfx::remote::studio::StudioModel;
use crate::bevy_motiongfx::remote::transport::{state_of, PlayerSlot, TimelineState};
use crate::bevy_motiongfx::remote::watch::{
    crossed_markers, goes_over, has_news, journal_watched, missed_since, news_told,
    nothing_passes_unnoticed, state_watched, watch_key, watcher_name, JournalCursor,
    JournalWatchParams, WatchEvent, WatchRef, JOURNAL_CURSOR_CAP,
};
use crate::name_table::NamePair;
use crate::time::Ticks;
use std::sync::Arc;
use vstd::prelude::*;

verus! {

/// A playhead goes over a marker on its way back where it went over it on its way, and
/// over none while it stands still. Going on, it goes over every marker once: over those
/// of the first part or of the second, and over none in both. A marker strictly
/// between two times is always gone over, and one of another track never.
pub proof fn markers_are_gone_over_once(
    marker: Marker,
    track: usize,
    a: Ticks,
    b: Ticks,
    c: Ticks,
)
    ensures
        goes_over(marker, track, a, b) == goes_over(marker, track, b, a),
        !goes_over(marker, track, a, a),
        a <= b <= c ==> {
            &&& goes_over(marker, track, a, c) <==> goes_over(marker, track, a, b) || goes_over(
                marker,
                track,
                b,
                c,
            )
            &&& !(goes_over(marker, track, a, b) && goes_over(marker, track, b, c))
        },
        marker.track == track && a < marker.time < b ==> goes_over(marker, track, a, b),
        marker.track == track && a < b && marker.time == b ==> goes_over(marker, track, a, b),
        marker.track != track ==> !goes_over(marker, track, a, b),
        a <= b && (marker.time < a || marker.time > b) ==> !goes_over(marker, track, a, b),
{
}

/// The markers that are told are those of the timeline that the playhead went over on the
/// track that it is on, at the times that they have. None is where it changed its track.
pub proof fn told_markers_were_gone_over(
    markers: Map<Seq<char>, Marker>,
    cursor: JournalCursor,
    time: Ticks,
    track: usize,
    name: Seq<char>,
)
    ensures
        crossed_markers(markers, cursor, time, track).contains_key(name) <==> {
            &&& markers.contains_key(name)
            &&& cursor.last_track == track
            &&& goes_over(markers[name], track, cursor.last_time, time)
        },
        crossed_markers(markers, cursor, time, track).contains_key(name) ==> crossed_markers(
            markers,
            cursor,
            time,
            track,
        )[name] == markers[name],
{
}

/// Whether two states read the same, field by field.
pub open spec fn reads_same(a: TimelineState, b: TimelineState) -> bool {
    &&& a.id == b.id
    &&& a.name is Some == b.name is Some
    &&& a.name is Some ==> a.name->0@ == b.name->0@
    &&& a.curr_time == b.curr_time
    &&& a.target_time == b.target_time
    &&& a.curr_track == b.curr_track
    &&& a.target_track == b.target_track
    &&& a.track_count == b.track_count
    &&& a.is_complete == b.is_complete
    &&& a.version == b.version
    &&& a.is_playing == b.is_playing
    &&& a.time_scale is Some == b.time_scale is Some
}

/// A watcher is told the state that there is, or nothing where that reads the same as what
/// it was last told. Told or not, asking again without a change tells nothing.
pub proof fn states_are_told_once(
    studio: StudioModel,
    slots: Seq<PlayerSlot>,
    p: WatchRef,
    before: Map<NamePair, TimelineState>,
    after: Map<NamePair, TimelineState>,
    again: Map<NamePair, TimelineState>,
    result: Result<Option<TimelineState>, Fault>,
    second: Result<Option<TimelineState>, Fault>,
)
    requires
        state_watched(studio, slots, p, before, after, result),
        state_watched(studio, slots, p, after, again, second),
        after.dom().len() <= JOURNAL_CURSOR_CAP,
        before.dom().len() <= JOURNAL_CURSOR_CAP,
    ensures
        result matches Ok(Some(state)) ==> state_of(studio, slots, p.id) == Some(state),
        result == Ok::<Option<TimelineState>, Fault>(None) ==> {
            let key = watch_key(p.id, watcher_name(p.watcher));
            &&& before.contains_key(key)
            &&& state_of(studio, slots, p.id) is Some
            &&& reads_same(before[key], state_of(studio, slots, p.id)->0)
        },
        result is Ok ==> second == Ok::<Option<TimelineState>, Fault>(None),
        result is Err <==> !studio.timelines.contains_key(TimelineId { raw: p.id }),
{
}

/// A watcher that has come to the latest event and whose playhead has not moved is told
/// nothing.
pub proof fn no_news_is_told_of_nothing(
    edits: EditsModel,
    cursor: JournalCursor,
    track: usize,
    marker_events: bool,
    told: Seq<WatchEvent>,
)
    requires
        edits.events.without_gaps(),
        edits.events.seq < u64::MAX,
        cursor.seq == edits.events.seq,
        has_news(edits, cursor, cursor.last_time, track, marker_events, told),
    ensures
        told.len() == 0,
{
    let (events, crossed) = choose|events: Seq<Arc<StreamEvent>>, crossed: Seq<(String, Marker)>|
        #[trigger]
        news_told(
            events,
            crossed,
            edits,
            cursor,
            cursor.last_time,
            track,
            marker_events,
            told,
        );
    nothing_passes_unnoticed(edits.events, cursor.seq);
    assert(missed_since(edits.events, cursor.seq) == 0);
    assert(event_models(events).len() == 0);
    assert(events.len() == 0);
    if crossed.len() > 0 {
        let name = crossed[0].0@;
        assert(is_at(crossed, 0, name));
        assert(by_name(crossed).contains_key(name));
        assert(!crossed_markers(
            edits.markers,
            cursor,
            cursor.last_time,
            track,
        ).contains_key(name));
    }
}

/// Once a watcher was told, it has come to the latest event, and to where the playhead is
/// if it is told of markers.
pub proof fn watchers_come_to_the_latest(
    studio: StudioModel,
    p: JournalWatchParams,
    before: Map<NamePair, JournalCursor>,
    after: Map<NamePair, JournalCursor>,
    told: Option<Vec<WatchEvent>>,
)
    requires
        journal_watched(studio, p, before, after, Ok(told)),
        before.dom().len() <= JOURNAL_CURSOR_CAP,
    ensures
        ({
            let id = TimelineId { raw: p.id };
            let key = watch_key(p.id, watcher_name(p.watcher));
            let model = studio.timelines[id];
            &&& studio.timelines.contains_key(id)
            &&& after.contains_key(key)
            &&& after[key].seq == studio.edits_of(id).events.seq
            &&& p.marker_events || !before.contains_key(key) ==> after[key].last_time
                == model.curr_time && after[key].last_track == model.curr_index
            &&& !p.marker_events && before.contains_key(key) ==> after[key].last_time
                == before[key].last_time && after[key].last_track == before[key].last_track
            &&& forall|other: NamePair|
                other != key ==> #[trigger] after.contains_key(other) == before.contains_key(other)
            &&& !before.contains_key(key) ==> told is Some && told->0@ == seq![
                WatchEvent::Hello {
                    version: studio.edits_of(id).version,
                    seq: studio.edits_of(id).events.seq,
                },
            ]
        }),
{
}

/// Whether what a watcher is told stands in order: what was lost, then the events, then
/// the markers.
pub open spec fn rank_told(event: WatchEvent) -> int {
    match event {
        WatchEvent::Hello { .. } => 0,
        WatchEvent::Lost { .. } => 1,
        WatchEvent::Event(_) => 2,
        WatchEvent::Marker { .. } => 3,
    }
}

/// A watcher is told first of what it missed, then of the events that it did not, the
/// oldest first, then of markers. All events that are told come after its cursor.
pub proof fn news_are_told_in_order(
    edits: EditsModel,
    cursor: JournalCursor,
    time: Ticks,
    track: usize,
    marker_events: bool,
    told: Seq<WatchEvent>,
)
    requires
        has_news(edits, cursor, time, track, marker_events, told),
    ensures
        forall|i: int, j: int|
            0 <= i < j < told.len() ==> rank_told(#[trigger] told[i]) <= rank_told(
                #[trigger] told[j],
            ),
        forall|i: int|
            0 <= i < told.len() ==> ((#[trigger] told[i]) matches WatchEvent::Event(event)
                ==> event.seq > cursor.seq),
        forall|i: int|
            0 <= i < told.len() ==> ((#[trigger] told[i]) matches WatchEvent::Marker {
                name,
                time: at,
                playhead,
            } ==> playhead == time && marker_events),
{
    let (events, crossed) = choose|events: Seq<Arc<StreamEvent>>, crossed: Seq<(String, Marker)>|
        #[trigger]
        news_told(events, crossed, edits, cursor, time, track, marker_events, told);
    let newer = |event: StreamEvent| event.seq > cursor.seq;
    edits.events.events.filter_lemma(newer);
    assert forall|k: int| 0 <= k < events.len() implies (#[trigger] events[k]).seq > cursor.seq by {
        assert(event_models(events)[k] == *events[k]);
        assert(newer(edits.events.since(cursor.seq)[k]));
    }
    let lost = missed_since(edits.events, cursor.seq);
    let first = if lost > 0 {
        1int
    } else {
        0
    };
    assert forall|i: int| 0 <= i < told.len() implies {
        &&& i < first ==> rank_told(#[trigger] told[i]) == 1
        &&& first <= i < first + events.len() ==> told[i] == WatchEvent::Event(events[i - first])
        &&& i >= first + events.len() ==> rank_told(told[i]) == 3
    } by {}
    if !marker_events && crossed.len() > 0 {
        assert(is_at(crossed, 0, crossed[0].0@));
        assert(by_name(crossed).contains_key(crossed[0].0@));
    }
    assert forall|i: int| 0 <= i < told.len() implies ((#[trigger] told[i]) matches WatchEvent::Event(
        event,
    ) ==> event.seq > cursor.seq) by {
        if first <= i < first + events.len() {
            assert(events[i - first].seq > cursor.seq);
        }
    }
}

} // verus!
