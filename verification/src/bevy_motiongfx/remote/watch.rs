//! Watching a timeline.
use crate::bevy_motiongfx::manager::TimelineId;
use crate::bevy_motiongfx::remote::fault::Fault;
use crate::bevy_motiongfx::remote::state::events::{
    event_models, since_misses_nothing, EventsModel, StreamEvent,
};
use crate::bevy_motiongfx::remote::state::markers::{
    by_name, found_by_name, is_at, names_ascend, Marker,
};
use crate::bevy_motiongfx::remote::state::EditsModel;
use crate::bevy_motiongfx::remote::studio::{Studio, StudioModel};
use crate::bevy_motiongfx::remote::transport::{
    playable_if_any, snapshot, state_of, PlayerSlot, TimelineState,
};
use crate::name_table::{NamePair, NameTable};
use crate::text::{decimal, decimal_is_injective, decimal_text, name_before, same_text};
use crate::time::Ticks;
use std::sync::Arc;
use vstd::prelude::*;

verus! {

/// How many watchers are remembered before the table of them starts anew.
pub const JOURNAL_CURSOR_CAP: usize = 64;

/// A watcher of a timeline.
#[derive(Debug)]
pub struct WatchRef {
    pub id: u64,
    /// Distinguishes concurrent watchers of the same timeline.
    pub watcher: Option<String>,
}

/// The name of a watcher.
pub open spec fn watcher_name(watcher: Option<String>) -> Seq<char> {
    match watcher {
        Some(name) => name@,
        None => Seq::empty(),
    }
}

/// What a watcher of a timeline is remembered by.
pub open spec fn watch_key(id: u64, watcher: Seq<char>) -> NamePair {
    (decimal(id as nat), watcher)
}

/// Watchers of different timelines, and different watchers of one, are
/// remembered apart.
pub proof fn watchers_are_apart(a: u64, first: Seq<char>, b: u64, second: Seq<char>)
    ensures
        watch_key(a, first) == watch_key(b, second) <==> a == b && first == second,
{
    if decimal(a as nat) == decimal(b as nat) {
        decimal_is_injective(a as nat, b as nat);
    }
}

/// The name of a watcher.
fn name_of_watcher(watcher: &Option<String>) -> (name: String)
    ensures
        name@ == watcher_name(*watcher),
{
    match watcher {
        Some(name) => name.clone(),
        None => {
            let name = String::new();
            assert(name@ =~= Seq::<char>::empty());
            name
        },
    }
}

/// The table, or an empty one where it has grown too large.
pub open spec fn remembered<V>(table: Map<NamePair, V>) -> Map<NamePair, V> {
    if table.dom().len() > JOURNAL_CURSOR_CAP {
        Map::empty()
    } else {
        table
    }
}

/// Starts the table anew where it has grown too large.
fn forget_many<V>(table: &mut NameTable<V>)
    ensures
        final(table)@ == remembered(old(table)@),
{
    if table.len() > JOURNAL_CURSOR_CAP {
        table.clear();
    }
}

/// Whether two names, or the lack of them, read the same.
pub open spec fn same_name(a: Option<String>, b: Option<String>) -> bool {
    match (a, b) {
        (Some(a), Some(b)) => a@ == b@,
        (None, None) => true,
        _ => false,
    }
}

/// Whether two single-precision numbers, given by their bits, are written the
/// same: zeros are, whatever their sign, and so are all that are not finite.
pub open spec fn same_scale(a: u32, b: u32) -> bool {
    let a_size = a % 0x8000_0000;
    let b_size = b % 0x8000_0000;
    ||| a == b
    ||| a_size == 0 && b_size == 0
    ||| a_size >= 0x7f80_0000 && b_size >= 0x7f80_0000
}

/// Whether two states read the same.
pub open spec fn same_state(a: TimelineState, b: TimelineState) -> bool {
    &&& a.id == b.id
    &&& same_name(a.name, b.name)
    &&& a.curr_time == b.curr_time
    &&& a.target_time == b.target_time
    &&& a.curr_track == b.curr_track
    &&& a.target_track == b.target_track
    &&& a.track_count == b.track_count
    &&& a.is_complete == b.is_complete
    &&& a.version == b.version
    &&& a.is_playing == b.is_playing
    &&& match (a.time_scale, b.time_scale) {
        (Some(x), Some(y)) => same_scale(x, y),
        (None, None) => true,
        _ => false,
    }
}

/// Whether two states read the same.
fn states_match(a: &TimelineState, b: &TimelineState) -> (same: bool)
    ensures
        same == same_state(*a, *b),
{
    let names = match (&a.name, &b.name) {
        (Some(x), Some(y)) => same_text(x.as_str(), y.as_str()),
        (None, None) => true,
        _ => false,
    };
    let playing = match (a.is_playing, b.is_playing) {
        (Some(x), Some(y)) => x == y,
        (None, None) => true,
        _ => false,
    };
    let scales = match (a.time_scale, b.time_scale) {
        (Some(x), Some(y)) => {
            let x_size: u32 = x % 0x8000_0000;
            let y_size: u32 = y % 0x8000_0000;
            x == y || (x_size == 0 && y_size == 0) || (x_size >= 0x7f80_0000 && y_size
                >= 0x7f80_0000)
        },
        (None, None) => true,
        _ => false,
    };
    a.id == b.id && names && a.curr_time == b.curr_time && a.target_time == b.target_time
        && a.curr_track == b.curr_track && a.target_track == b.target_track && a.track_count
        == b.track_count && a.is_complete == b.is_complete && a.version == b.version && playing
        && scales
}

impl TimelineState {
    /// A copy of the state.
    pub fn copy(&self) -> (copy: Self)
        ensures
            copy == *self,
    {
        TimelineState {
            id: self.id,
            name: match &self.name {
                Some(name) => Some(name.clone()),
                None => None,
            },
            curr_time: self.curr_time,
            target_time: self.target_time,
            curr_track: self.curr_track,
            target_track: self.target_track,
            track_count: self.track_count,
            is_complete: self.is_complete,
            version: self.version,
            is_playing: self.is_playing,
            time_scale: self.time_scale,
        }
    }
}

/// Whether a watcher was told of the state of a timeline as it should be: only
/// where it reads otherwise than the state it was last told of.
pub open spec fn state_watched(
    studio: StudioModel,
    slots: Seq<PlayerSlot>,
    p: WatchRef,
    before: Map<NamePair, TimelineState>,
    after: Map<NamePair, TimelineState>,
    result: Result<Option<TimelineState>, Fault>,
) -> bool {
    let key = watch_key(p.id, watcher_name(p.watcher));
    let last = remembered(before);
    match state_of(studio, slots, p.id) {
        None => {
            &&& result == Err::<Option<TimelineState>, Fault>(Fault::NoTimeline { id: p.id })
            &&& after == before
        },
        Some(state) => if last.contains_key(key) && same_state(last[key], state) {
            &&& result == Ok::<Option<TimelineState>, Fault>(None)
            &&& after == last
        } else {
            &&& result == Ok::<Option<TimelineState>, Fault>(Some(state))
            &&& after == last.insert(key, state)
        },
    }
}

/// Tells a watcher of the state of a timeline, if it changed since the last
/// time. The watch ends with the timeline.
pub fn get_timeline_watching(
    studio: &Studio,
    slots: &Vec<PlayerSlot>,
    last: &mut NameTable<TimelineState>,
    p: &WatchRef,
) -> (result: Result<Option<TimelineState>, Fault>)
    requires
        playable_if_any(studio@, TimelineId { raw: p.id }),
    ensures
        state_watched(studio@, slots@, *p, old(last)@, final(last)@, result),
{
    let state = match snapshot(studio, slots, p.id) {
        Some(state) => state,
        None => {
            return Err(Fault::NoTimeline { id: p.id });
        },
    };
    forget_many(last);
    let id = decimal_text(p.id);
    let watcher = name_of_watcher(&p.watcher);
    let same = match last.get(id.as_str(), watcher.as_str()) {
        Some(told) => states_match(told, &state),
        None => false,
    };
    if same {
        return Ok(None);
    }
    last.insert(id, watcher, state.copy());
    Ok(Some(state))
}

/// How far a watcher of the journal of a timeline has come.
#[derive(Debug, Clone, Copy, PartialEq, Eq, Structural)]
pub struct JournalCursor {
    pub seq: u64,
    pub last_time: Ticks,
    pub last_track: usize,
}

/// What a watcher of a journal is told.
#[derive(Debug)]
pub enum WatchEvent {
    /// The watch begins.
    Hello { version: u64, seq: u64 },
    /// Events that the watcher cannot be told of any more.
    Lost { missed: u64 },
    /// Something happened to the timeline.
    Event(Arc<StreamEvent>),
    /// The playhead went over a marker.
    Marker { name: String, time: Ticks, playhead: Ticks },
}

/// A request to watch a journal.
#[derive(Debug)]
pub struct JournalWatchParams {
    pub id: u64,
    /// Distinguishes concurrent watchers of the same timeline.
    pub watcher: Option<String>,
    /// Whether to tell of markers that the playhead goes over.
    pub marker_events: bool,
}

/// How many events behind a number have left the buffer.
pub open spec fn missed_since(log: EventsModel, after: u64) -> int {
    if log.events.len() > 0 && after + 1 < log.events[0].seq {
        log.events[0].seq - after - 1
    } else {
        0
    }
}

/// A watcher is told of everything: the events that it missed are counted, and
/// it gets all others.
pub proof fn nothing_passes_unnoticed(log: EventsModel, after: u64)
    requires
        log.without_gaps(),
        log.seq < u64::MAX,
        after <= log.seq,
    ensures
        missed_since(log, after) + log.since(after).len() == log.seq - after,
{
    reveal(Seq::filter);
    if log.events.len() > 0 {
        let first = log.events[0].seq;
        if after + 1 < first {
            let before: u64 = (first - 1) as u64;
            since_misses_nothing(log, before);
            all_are_newer(log.events, before, after);
        } else {
            since_misses_nothing(log, after);
        }
    }
}

/// Where all events are behind both numbers, the same ones are told.
proof fn all_are_newer(events: Seq<StreamEvent>, a: u64, b: u64)
    requires
        forall|i: int| 0 <= i < events.len() ==> (#[trigger] events[i]).seq > a && events[i].seq > b,
    ensures
        events.filter(|event: StreamEvent| event.seq > a) == events.filter(
            |event: StreamEvent| event.seq > b,
        ),
    decreases events.len(),
{
    reveal(Seq::filter);
    if events.len() > 0 {
        assert(events.last() == events[events.len() - 1]);
        assert forall|i: int| 0 <= i < events.drop_last().len() implies (#[trigger] events.drop_last()[i]).seq
            > a && events.drop_last()[i].seq > b by {
            assert(events.drop_last()[i] == events[i]);
        }
        all_are_newer(events.drop_last(), a, b);
    }
}

/// Whether a playhead that goes from one time of a track to another goes over
/// the marker: the later end counts, the earlier does not.
pub open spec fn goes_over(marker: Marker, track: usize, from: Ticks, to: Ticks) -> bool {
    marker.track == track && if to > from {
        from < marker.time <= to
    } else {
        to < marker.time <= from
    }
}

/// The markers that the playhead went over.
pub open spec fn crossed_markers(
    markers: Map<Seq<char>, Marker>,
    cursor: JournalCursor,
    time: Ticks,
    track: usize,
) -> Map<Seq<char>, Marker> {
    Map::new(
        |name: Seq<char>|
            markers.contains_key(name) && track == cursor.last_track && goes_over(
                markers[name],
                track,
                cursor.last_time,
                time,
            ),
        |name: Seq<char>| markers[name],
    )
}

/// What is told of lost events.
pub open spec fn lost_part(missed: int) -> Seq<WatchEvent> {
    if missed > 0 {
        seq![WatchEvent::Lost { missed: missed as u64 }]
    } else {
        Seq::empty()
    }
}

/// What is told of events.
pub open spec fn event_part(events: Seq<Arc<StreamEvent>>) -> Seq<WatchEvent> {
    events.map_values(|event: Arc<StreamEvent>| WatchEvent::Event(event))
}

/// What is told of markers.
pub open spec fn marker_part(crossed: Seq<(String, Marker)>, playhead: Ticks) -> Seq<WatchEvent> {
    crossed.map_values(
        |entry: (String, Marker)|
            WatchEvent::Marker { name: entry.0, time: entry.1.time, playhead },
    )
}

/// Whether a watcher is told of what happened since its cursor: of what was
/// lost, then of the events, the oldest first, then of the markers that the
/// playhead went over, in the order of their names.
pub open spec fn news_told(
    events: Seq<Arc<StreamEvent>>,
    crossed: Seq<(String, Marker)>,
    edits: EditsModel,
    cursor: JournalCursor,
    time: Ticks,
    track: usize,
    marker_events: bool,
    told: Seq<WatchEvent>,
) -> bool {
    &&& event_models(events) == edits.events.since(cursor.seq)
    &&& names_ascend(crossed)
    &&& by_name(crossed) == if marker_events {
        crossed_markers(edits.markers, cursor, time, track)
    } else {
        Map::empty()
    }
    &&& told == lost_part(missed_since(edits.events, cursor.seq)) + event_part(events)
        + marker_part(crossed, time)
}

/// Whether a watcher is told of what happened since its cursor.
pub open spec fn has_news(
    edits: EditsModel,
    cursor: JournalCursor,
    time: Ticks,
    track: usize,
    marker_events: bool,
    told: Seq<WatchEvent>,
) -> bool {
    exists|events: Seq<Arc<StreamEvent>>, crossed: Seq<(String, Marker)>| #[trigger]
        news_told(events, crossed, edits, cursor, time, track, marker_events, told)
}

/// The cursor after the watcher was told.
pub open spec fn moved_cursor(
    cursor: JournalCursor,
    seq: u64,
    time: Ticks,
    track: usize,
    marker_events: bool,
) -> JournalCursor {
    if marker_events {
        JournalCursor { seq, last_time: time, last_track: track }
    } else {
        JournalCursor { seq, ..cursor }
    }
}

/// Whether a watcher of a journal was told as it should be: first a greeting,
/// and from then on what happened since the last time, if anything did.
pub open spec fn journal_watched(
    studio: StudioModel,
    p: JournalWatchParams,
    before: Map<NamePair, JournalCursor>,
    after: Map<NamePair, JournalCursor>,
    result: Result<Option<Vec<WatchEvent>>, Fault>,
) -> bool {
    let id = TimelineId { raw: p.id };
    let model = studio.timelines[id];
    let edits = studio.edits_of(id);
    let key = watch_key(p.id, watcher_name(p.watcher));
    let cursors = remembered(before);
    if !studio.timelines.contains_key(id) {
        &&& result == Err::<Option<Vec<WatchEvent>>, Fault>(Fault::NoTimeline { id: p.id })
        &&& after == before
    } else if !cursors.contains_key(key) {
        &&& result matches Ok(Some(told)) && told@ == seq![
            WatchEvent::Hello { version: edits.version, seq: edits.events.seq },
        ]
        &&& after == cursors.insert(
            key,
            JournalCursor {
                seq: edits.events.seq,
                last_time: model.curr_time,
                last_track: model.curr_index,
            },
        )
    } else {
        &&& result matches Ok(news) && has_news(
            edits,
            cursors[key],
            model.curr_time,
            model.curr_index,
            p.marker_events,
            told_of(news),
        ) && (news matches Some(told) ==> told@.len() > 0)
        &&& after == cursors.insert(
            key,
            moved_cursor(
                cursors[key],
                edits.events.seq,
                model.curr_time,
                model.curr_index,
                p.marker_events,
            ),
        )
    }
}

/// What a watcher is told, if it is told anything.
pub open spec fn told_of(news: Option<Vec<WatchEvent>>) -> Seq<WatchEvent> {
    match news {
        Some(told) => told@,
        None => Seq::empty(),
    }
}

/// The markers that the playhead went over, in the order of their names.
fn find_crossed(
    markers: &Vec<(String, Marker)>,
    cursor: &JournalCursor,
    time: Ticks,
    track: usize,
) -> (crossed: Vec<(String, Marker)>)
    requires
        names_ascend(markers@),
    ensures
        names_ascend(crossed@),
        by_name(crossed@) == crossed_markers(by_name(markers@), *cursor, time, track),
{
    let mut crossed: Vec<(String, Marker)> = Vec::new();
    let ghost mut places: Seq<int> = Seq::empty();
    let mut i: usize = 0;
    while i < markers.len()
        invariant
            i <= markers@.len(),
            places.len() == crossed@.len(),
            forall|k: int|
                #![trigger places[k]]
                0 <= k < places.len() ==> 0 <= places[k] < i && crossed@[k] == markers@[places[k]]
                    && track == cursor.last_track && goes_over(
                    crossed@[k].1,
                    track,
                    cursor.last_time,
                    time,
                ),
            forall|k: int, l: int|
                #![trigger places[k], places[l]]
                0 <= k < l < places.len() ==> places[k] < places[l],
            forall|j: int|
                0 <= j < i && track == cursor.last_track && goes_over(
                    (#[trigger] markers@[j]).1,
                    track,
                    cursor.last_time,
                    time,
                ) ==> places.contains(j),
        decreases markers@.len() - i,
    {
        let marker = markers[i].1;
        let over = if time > cursor.last_time {
            marker.time > cursor.last_time && marker.time <= time
        } else {
            marker.time > time && marker.time <= cursor.last_time
        };
        let ghost before = places;
        let ghost picked = crossed@;
        if track == cursor.last_track && marker.track == track && over {
            crossed.push((markers[i].0.clone(), marker));
            proof {
                places = places.push(i as int);
                assert(crossed@[before.len() as int] == markers@[i as int]);
                assert(goes_over(marker, track, cursor.last_time, time));
                assert forall|k: int| 0 <= k < before.len() implies before[k] == #[trigger] places[k]
                    && picked[k] == crossed@[k] by {}
                assert(places[before.len() as int] == i);
                assert forall|j: int| before.contains(j) implies places.contains(j) by {
                    let k = choose|k: int| 0 <= k < before.len() && before[k] == j;
                    assert(places[k] == j);
                }
            }
        }
        i += 1;
    }
    proof {
        crossed_by_name(markers@, crossed@, places, *cursor, time, track);
    }
    crossed
}

/// Entries picked in order make up the part of the map that they were picked
/// for.
proof fn crossed_by_name(
    markers: Seq<(String, Marker)>,
    crossed: Seq<(String, Marker)>,
    places: Seq<int>,
    cursor: JournalCursor,
    time: Ticks,
    track: usize,
)
    requires
        names_ascend(markers),
        places.len() == crossed.len(),
        forall|k: int|
            #![trigger places[k]]
            0 <= k < places.len() ==> 0 <= places[k] < markers.len() && crossed[k]
                == markers[places[k]] && track == cursor.last_track && goes_over(
                crossed[k].1,
                track,
                cursor.last_time,
                time,
            ),
        forall|k: int, l: int|
            #![trigger places[k], places[l]]
            0 <= k < l < places.len() ==> places[k] < places[l],
        forall|j: int|
            0 <= j < markers.len() && track == cursor.last_track && goes_over(
                (#[trigger] markers[j]).1,
                track,
                cursor.last_time,
                time,
            ) ==> places.contains(j),
    ensures
        names_ascend(crossed),
        by_name(crossed) == crossed_markers(by_name(markers), cursor, time, track),
{
    let all = by_name(markers);
    let wanted = crossed_markers(all, cursor, time, track);
    let found = by_name(crossed);
    assert forall|k: int, l: int| 0 <= k < l < crossed.len() implies name_before(
        (#[trigger] crossed[k]).0@,
        (#[trigger] crossed[l]).0@,
    ) by {
        assert(places[k] < places[l]);
    }
    assert forall|name: Seq<char>| #[trigger] found.contains_key(name) implies wanted.contains_key(
        name,
    ) && wanted[name] == found[name] by {
        let k = choose|k: int| is_at(crossed, k, name);
        found_by_name(crossed, k);
        assert(crossed[k] == markers[places[k]]);
        found_by_name(markers, places[k]);
    }
    assert forall|name: Seq<char>| #[trigger] wanted.contains_key(name) implies found.contains_key(
        name,
    ) by {
        let j = choose|j: int| is_at(markers, j, name);
        found_by_name(markers, j);
        assert(goes_over(markers[j].1, track, cursor.last_time, time));
        let k = choose|k: int| 0 <= k < places.len() && places[k] == j;
        assert(crossed[k] == markers[places[k]]);
        assert(is_at(crossed, k, name));
    }
    assert(found =~= wanted);
}

/// What a watcher is told since its cursor.
fn collect_news(
    studio: &Studio,
    id: &TimelineId,
    cursor: &JournalCursor,
    time: Ticks,
    track: usize,
    marker_events: bool,
) -> (told: Vec<WatchEvent>)
    ensures
        has_news(studio@.edits_of(*id), *cursor, time, track, marker_events, told@),
{
    let ghost edits = studio@.edits_of(*id);
    let mut told: Vec<WatchEvent> = Vec::new();
    match studio.state.oldest_event_seq(id) {
        Some(oldest) => {
            if oldest > 0 && cursor.seq < oldest - 1 {
                told.push(WatchEvent::Lost { missed: oldest - cursor.seq - 1 });
            }
        },
        None => {},
    }
    let ghost lost = lost_part(missed_since(edits.events, cursor.seq));
    assert(told@ =~= lost);
    let events = studio.state.events_since(id, cursor.seq);
    let mut i: usize = 0;
    assert(event_part(events@.take(0)) =~= Seq::<WatchEvent>::empty());
    while i < events.len()
        invariant
            i <= events@.len(),
            told@ == lost + event_part(events@.take(i as int)),
        decreases events@.len() - i,
    {
        let ghost before = told@;
        told.push(WatchEvent::Event(events[i].clone()));
        assert(event_part(events@.take(i + 1)) =~= event_part(events@.take(i as int)).push(
            WatchEvent::Event(events@[i as int]),
        ));
        assert(told@ =~= lost + event_part(events@.take(i + 1)));
        i += 1;
    }
    assert(events@.take(i as int) =~= events@);
    let crossed: Vec<(String, Marker)> = if marker_events {
        let markers = studio.state.markers(id);
        find_crossed(&markers, cursor, time, track)
    } else {
        Vec::new()
    };
    proof {
        if !marker_events {
            assert(by_name(crossed@) =~= Map::<Seq<char>, Marker>::empty());
        }
    }
    let ghost front = told@;
    let mut j: usize = 0;
    assert(marker_part(crossed@.take(0), time) =~= Seq::<WatchEvent>::empty());
    while j < crossed.len()
        invariant
            j <= crossed@.len(),
            told@ == front + marker_part(crossed@.take(j as int), time),
        decreases crossed@.len() - j,
    {
        told.push(
            WatchEvent::Marker {
                name: crossed[j].0.clone(),
                time: crossed[j].1.time,
                playhead: time,
            },
        );
        assert(told@ =~= front + marker_part(crossed@.take(j + 1), time));
        j += 1;
    }
    assert(crossed@.take(j as int) =~= crossed@);
    assert(news_told(events@, crossed@, edits, *cursor, time, track, marker_events, told@));
    told
}

/// Tells a watcher of a journal what happened since the last time.
pub fn journal_watching(
    studio: &Studio,
    cursors: &mut NameTable<JournalCursor>,
    p: &JournalWatchParams,
) -> (result: Result<Option<Vec<WatchEvent>>, Fault>)
    ensures
        journal_watched(studio@, *p, old(cursors)@, final(cursors)@, result),
{
    let id = TimelineId::from_raw(p.id);
    let (time, track) = match studio.manager.get_timeline(&id) {
        Some(timeline) => (timeline.curr_time(), timeline.curr_index()),
        None => {
            return Err(Fault::NoTimeline { id: p.id });
        },
    };
    let version = studio.state.version(&id);
    let seq = studio.state.event_seq(&id);
    forget_many(cursors);
    let first = decimal_text(p.id);
    let second = name_of_watcher(&p.watcher);
    let cursor: JournalCursor = match cursors.get(first.as_str(), second.as_str()) {
        Some(cursor) => *cursor,
        None => {
            cursors.insert(
                first,
                second,
                JournalCursor { seq, last_time: time, last_track: track },
            );
            let mut told: Vec<WatchEvent> = Vec::new();
            told.push(WatchEvent::Hello { version, seq });
            assert(told@ =~= seq![WatchEvent::Hello { version, seq }]);
            return Ok(Some(told));
        },
    };
    let told = collect_news(studio, &id, &cursor, time, track, p.marker_events);
    let moved = if p.marker_events {
        JournalCursor { seq, last_time: time, last_track: track }
    } else {
        JournalCursor { seq, last_time: cursor.last_time, last_track: cursor.last_track }
    };
    cursors.insert(first, second, moved);
    if told.len() == 0 {
        assert(told@ =~= Seq::<WatchEvent>::empty());
        Ok(None)
    } else {
        Ok(Some(told))
    }
}

} // verus!
