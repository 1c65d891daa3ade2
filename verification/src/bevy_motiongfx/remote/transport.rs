//! Timelines and their players.
use crate::bevy_motiongfx::controller::RealtimePlayer;
use crate::bevy_motiongfx::manager::TimelineId;
use crate::bevy_motiongfx::remote::batch::apply::{seekable, stays_seekable};
use crate::bevy_motiongfx::remote::fault::Fault;
use crate::bevy_motiongfx::remote::state::events::{next_number, EventKind};
use crate::bevy_motiongfx::remote::state::EditsModel;
use crate::bevy_motiongfx::remote::studio::{Studio, StudioModel};
use crate::bevy_motiongfx::world::{BevyTimeline, BevyTimelineBuilder};
use crate::time::Ticks;
use crate::timeline::edit::is_empty_track;
use crate::timeline::{clamped_index, clamped_time, completed, TimelineModel};
use crate::track::{Track, TrackFragment};
use vstd::prelude::*;

verus! {

/// An entity that stands for a timeline, and its player.
#[derive(Debug, Clone, Copy, PartialEq, Eq, Structural)]
pub struct PlayerSlot {
    pub id: u64,
    pub player: Option<RealtimePlayer>,
}

/// The first entity that stands for the timeline.
pub open spec fn first_slot(slots: Seq<PlayerSlot>, id: u64) -> Option<int>
    decreases slots.len(),
{
    if slots.len() == 0 {
        None
    } else {
        match first_slot(slots.drop_last(), id) {
            Some(i) => Some(i),
            None => if slots.last().id == id {
                Some(slots.len() - 1)
            } else {
                None
            },
        }
    }
}

/// The player of a timeline.
pub open spec fn player_of(slots: Seq<PlayerSlot>, id: u64) -> Option<RealtimePlayer> {
    match first_slot(slots, id) {
        Some(i) => slots[i].player,
        None => None,
    }
}

proof fn first_slot_is_inside(slots: Seq<PlayerSlot>, id: u64)
    ensures
        first_slot(slots, id) matches Some(i) ==> 0 <= i < slots.len() && slots[i].id == id,
    decreases slots.len(),
{
    if slots.len() > 0 {
        first_slot_is_inside(slots.drop_last(), id);
    }
}

/// The first entity that stands for the timeline.
fn timeline_entity(slots: &Vec<PlayerSlot>, id: u64) -> (place: Option<usize>)
    ensures
        match place {
            Some(i) => first_slot(slots@, id) == Some(i as int) && i < slots@.len(),
            None => first_slot(slots@, id) is None,
        },
{
    let mut i: usize = 0;
    assert(slots@.take(0) =~= Seq::<PlayerSlot>::empty());
    while i < slots.len()
        invariant
            i <= slots@.len(),
            first_slot(slots@.take(i as int), id) is None,
        decreases slots@.len() - i,
    {
        proof {
            crate::seqs::take_one_more(slots@, i as int);
        }
        if slots[i].id == id {
            proof {
                found_early(slots@, id, i + 1);
            }
            return Some(i);
        }
        i += 1;
    }
    assert(slots@.take(i as int) =~= slots@);
    None
}

/// The first entity of a front part is the first of all.
proof fn found_early(slots: Seq<PlayerSlot>, id: u64, n: int)
    requires
        0 <= n <= slots.len(),
        first_slot(slots.take(n), id) is Some,
    ensures
        first_slot(slots, id) == first_slot(slots.take(n), id),
    decreases slots.len(),
{
    if n < slots.len() {
        assert(slots.drop_last().take(n) =~= slots.take(n));
        found_early(slots.drop_last(), id, n);
    } else {
        assert(slots.take(n) =~= slots);
    }
}

/// Snapshot of a timeline's playback state.
#[derive(Debug)]
pub struct TimelineState {
    pub id: u64,
    /// Display name, if one was set.
    pub name: Option<String>,
    pub curr_time: Ticks,
    pub target_time: Ticks,
    pub curr_track: usize,
    pub target_track: usize,
    pub track_count: usize,
    pub is_complete: bool,
    /// The edit version: bumped every time the timeline is edited.
    pub version: u64,
    /// Present only when the timeline has a player.
    pub is_playing: Option<bool>,
    pub time_scale: Option<u32>,
}

/// The playback state of a timeline, if it exists.
pub open spec fn state_of(studio: StudioModel, slots: Seq<PlayerSlot>, raw: u64) -> Option<
    TimelineState,
> {
    let id = TimelineId { raw };
    let model = studio.timelines[id];
    let player = player_of(slots, raw);
    if studio.timelines.contains_key(id) {
        Some(
            TimelineState {
                id: raw,
                name: studio.edits_of(id).name,
                curr_time: model.curr_time,
                target_time: model.target_time,
                curr_track: model.curr_index,
                target_track: model.target_index,
                track_count: model.tracks.len() as usize,
                is_complete: completed(model),
                version: studio.edits_of(id).version,
                is_playing: match player {
                    Some(player) => Some(player.is_playing),
                    None => None,
                },
                time_scale: match player {
                    Some(player) => Some(player.time_scale),
                    None => None,
                },
            },
        )
    } else {
        None
    }
}

/// Whether the timeline is on a track, if it exists.
pub open spec fn playable_if_any(studio: StudioModel, id: TimelineId) -> bool {
    studio.timelines.contains_key(id) ==> studio.timelines[id].playable()
}

/// Build a playback-state snapshot of one timeline, if it exists.
pub fn snapshot(studio: &Studio, slots: &Vec<PlayerSlot>, raw: u64) -> (state: Option<TimelineState>)
    requires
        playable_if_any(studio@, TimelineId { raw }),
    ensures
        state == state_of(studio@, slots@, raw),
{
    let id = TimelineId::from_raw(raw);
    let timeline = match studio.manager.get_timeline(&id) {
        Some(timeline) => timeline,
        None => {
            return None;
        },
    };
    let player: Option<RealtimePlayer> = match timeline_entity(slots, raw) {
        Some(i) => slots[i].player,
        None => None,
    };
    let name: Option<String> = match studio.state.name(&id) {
        Some(name) => Some(name.clone()),
        None => None,
    };
    Some(
        TimelineState {
            id: raw,
            name,
            curr_time: timeline.curr_time(),
            target_time: timeline.target_time(),
            curr_track: timeline.curr_index(),
            target_track: timeline.target_index(),
            track_count: timeline.track_count(),
            is_complete: timeline.is_complete(),
            version: studio.state.version(&id),
            is_playing: match player {
                Some(player) => Some(player.is_playing),
                None => None,
            },
            time_scale: match player {
                Some(player) => Some(player.time_scale),
                None => None,
            },
        },
    )
}

/// The state of a timeline, or that there is none.
pub open spec fn state_or_fault(studio: StudioModel, slots: Seq<PlayerSlot>, id: u64) -> Result<
    TimelineState,
    Fault,
> {
    match state_of(studio, slots, id) {
        Some(state) => Ok(state),
        None => Err(Fault::NoTimeline { id }),
    }
}

/// Full state of a single timeline.
pub fn get_timeline(studio: &Studio, slots: &Vec<PlayerSlot>, id: u64) -> (result: Result<
    TimelineState,
    Fault,
>)
    requires
        playable_if_any(studio@, TimelineId { raw: id }),
    ensures
        result == state_or_fault(studio@, slots@, id),
{
    match snapshot(studio, slots, id) {
        Some(state) => Ok(state),
        None => Err(Fault::NoTimeline { id }),
    }
}

/// Whether the states are those of the timelines of a studio, each once.
pub open spec fn lists_states(
    studio: StudioModel,
    slots: Seq<PlayerSlot>,
    ids: Seq<TimelineId>,
    states: Seq<TimelineState>,
) -> bool {
    &&& ids.no_duplicates()
    &&& forall|id: TimelineId| ids.contains(id) <==> studio.timelines.contains_key(id)
    &&& states.len() == ids.len()
    &&& forall|i: int|
        0 <= i < states.len() ==> Some(#[trigger] states[i]) == state_of(studio, slots, ids[i].raw)
}

/// Whether the states are those of all timelines.
pub open spec fn all_states(
    studio: StudioModel,
    slots: Seq<PlayerSlot>,
    states: Seq<TimelineState>,
) -> bool {
    exists|ids: Seq<TimelineId>| #[trigger] lists_states(studio, slots, ids, states)
}

/// Summary of every known timeline.
pub fn list_timelines(studio: Option<&Studio>, slots: &Vec<PlayerSlot>) -> (result: Result<
    Vec<TimelineState>,
    Fault,
>)
    requires
        studio matches Some(studio) ==> forall|id: TimelineId| #[trigger]
            studio@.timelines.contains_key(id) ==> studio@.timelines[id].playable(),
    ensures
        match studio {
            None => result == Err::<Vec<TimelineState>, Fault>(Fault::NothingToList),
            Some(studio) => result matches Ok(states) && all_states(studio@, slots@, states@),
        },
{
    let studio = match studio {
        Some(studio) => studio,
        None => {
            return Err(Fault::NothingToList);
        },
    };
    let ids = studio.manager.ids();
    let mut states: Vec<TimelineState> = Vec::new();
    let mut i: usize = 0;
    while i < ids.len()
        invariant
            i <= ids@.len(),
            forall|id: TimelineId| ids@.contains(id) <==> studio@.timelines.contains_key(id),
            forall|id: TimelineId| #[trigger]
                studio@.timelines.contains_key(id) ==> studio@.timelines[id].playable(),
            states@.len() == i,
            forall|j: int|
                0 <= j < states@.len() ==> Some(#[trigger] states@[j]) == state_of(
                    studio@,
                    slots@,
                    ids@[j].raw,
                ),
        decreases ids@.len() - i,
    {
        assert(ids@.contains(ids@[i as int]));
        let raw = ids[i].raw();
        assert(TimelineId { raw } == ids@[i as int]);
        match snapshot(studio, slots, raw) {
            Some(state) => {
                states.push(state);
            },
            None => {
                assert(false);
            },
        }
        i += 1;
    }
    assert(lists_states(studio@, slots@, ids@, states@));
    Ok(states)
}

/// A request to move the playhead.
#[derive(Debug)]
pub struct SeekParams {
    pub id: u64,
    /// Target time, held inside the track.
    pub time: Option<Ticks>,
    /// Target track index, held to the last track.
    pub track: Option<usize>,
    /// A marker name.
    pub marker: Option<String>,
}

/// Where a request moves the playhead to.
pub open spec fn seek_target(studio: StudioModel, p: SeekParams) -> Result<
    (Option<Ticks>, Option<usize>),
    Fault,
> {
    let markers = studio.edits_of(TimelineId { raw: p.id }).markers;
    match p.marker {
        None => Ok((p.time, p.track)),
        Some(name) => if p.time is Some || p.track is Some {
            Err(Fault::MarkerExclusive)
        } else if markers.contains_key(name@) {
            Ok((Some(markers[name@].time), Some(markers[name@].track)))
        } else {
            Err(Fault::NoMarker { name, id: p.id })
        },
    }
}

/// The timeline with another target.
pub open spec fn sought(
    model: TimelineModel,
    time: Option<Ticks>,
    track: Option<usize>,
) -> TimelineModel {
    let on_track = match track {
        Some(track) => TimelineModel {
            target_index: clamped_index(track, model.tracks.len() as int),
            ..model
        },
        None => model,
    };
    match time {
        Some(time) => TimelineModel {
            target_time: clamped_time(
                time,
                on_track.tracks[on_track.target_index as int].duration(),
            ),
            ..on_track
        },
        None => on_track,
    }
}

/// Whether moving the playhead had that outcome.
pub open spec fn seek_applied(
    p: SeekParams,
    slots: Seq<PlayerSlot>,
    before: StudioModel,
    after: StudioModel,
    result: Result<TimelineState, Fault>,
) -> bool {
    let id = TimelineId { raw: p.id };
    match seek_target(before, p) {
        Err(fault) => result == Err::<TimelineState, Fault>(fault) && after == before,
        Ok((time, track)) => if before.timelines.contains_key(id) {
            &&& after == before.with_timeline(id, sought(before.timelines[id], time, track))
            &&& result == state_or_fault(after, slots, p.id)
        } else {
            &&& result == Err::<TimelineState, Fault>(Fault::NoTimeline { id: p.id })
            &&& after == before
        },
    }
}

/// Where a request moves the playhead to.
fn find_target(studio: &Studio, p: &SeekParams) -> (result: Result<
    (Option<Ticks>, Option<usize>),
    Fault,
>)
    ensures
        result == seek_target(studio@, *p),
{
    match &p.marker {
        None => Ok((p.time, p.track)),
        Some(name) => {
            if p.time.is_some() || p.track.is_some() {
                return Err(Fault::MarkerExclusive);
            }
            match studio.state.marker(&TimelineId::from_raw(p.id), name.as_str()) {
                Some(marker) => Ok((Some(marker.time), Some(marker.track))),
                None => Err(Fault::NoMarker { name: name.clone(), id: p.id }),
            }
        },
    }
}

/// Moves the playhead to a time, a track or a marker.
pub fn seek_timeline(studio: &mut Studio, slots: &Vec<PlayerSlot>, p: &SeekParams) -> (result: Result<
    TimelineState,
    Fault,
>)
    requires
        old(studio)@.timelines.contains_key(TimelineId { raw: p.id }) ==> seekable(
            old(studio)@.timelines[TimelineId { raw: p.id }],
        ),
    ensures
        seek_applied(*p, slots@, old(studio)@, final(studio)@, result),
        stays_seekable(old(studio)@, final(studio)@),
{
    let ghost before = studio@;
    let id = TimelineId::from_raw(p.id);
    let (time, track) = match find_target(studio, p) {
        Ok(target) => target,
        Err(fault) => {
            return Err(fault);
        },
    };
    let mut timeline = match studio.manager.take(&id) {
        Some(timeline) => timeline,
        None => {
            assert(studio@ =~= before);
            return Err(Fault::NoTimeline { id: p.id });
        },
    };
    let ghost model = timeline@;
    match track {
        Some(track) => {
            timeline.set_target_track(track);
        },
        None => {},
    }
    match time {
        Some(time) => {
            assert(timeline@.tracks[timeline@.target_index as int].duration() >= 0);
            timeline.set_target_time(time);
        },
        None => {},
    }
    let ghost moved = timeline@;
    studio.manager.put(id, timeline);
    assert(studio@ =~= before.with_timeline(id, sought(model, time, track)));
    get_timeline(studio, slots, p.id)
}

/// The players with one of them changed.
pub open spec fn players_set(
    slots: Seq<PlayerSlot>,
    id: u64,
    playing: Option<bool>,
    time_scale: Option<u32>,
) -> Result<Seq<PlayerSlot>, Fault> {
    match first_slot(slots, id) {
        None => Err(Fault::NoTimeline { id }),
        Some(i) => match slots[i].player {
            None => Err(Fault::NoPlayer { id }),
            Some(player) => Ok(
                slots.update(
                    i,
                    PlayerSlot {
                        player: Some(
                            RealtimePlayer {
                                is_playing: match playing {
                                    Some(playing) => playing,
                                    None => player.is_playing,
                                },
                                time_scale: match time_scale {
                                    Some(time_scale) => time_scale,
                                    None => player.time_scale,
                                },
                            },
                        ),
                        ..slots[i]
                    },
                ),
            ),
        },
    }
}

/// Whether changing a player had that outcome.
pub open spec fn player_changed(
    studio: StudioModel,
    before: Seq<PlayerSlot>,
    after: Seq<PlayerSlot>,
    id: u64,
    playing: Option<bool>,
    time_scale: Option<u32>,
    result: Result<TimelineState, Fault>,
) -> bool {
    match players_set(before, id, playing, time_scale) {
        Err(fault) => result == Err::<TimelineState, Fault>(fault) && after == before,
        Ok(slots) => after == slots && result == state_or_fault(studio, slots, id),
    }
}

/// Changes the player of a timeline.
fn change_player(
    slots: &mut Vec<PlayerSlot>,
    id: u64,
    playing: Option<bool>,
    time_scale: Option<u32>,
) -> (result: Result<(), Fault>)
    ensures
        match players_set(old(slots)@, id, playing, time_scale) {
            Err(fault) => result == Err::<(), Fault>(fault) && final(slots)@ == old(slots)@,
            Ok(changed) => result == Ok::<(), Fault>(()) && final(slots)@ == changed,
        },
{
    let i = match timeline_entity(slots, id) {
        Some(i) => i,
        None => {
            return Err(Fault::NoTimeline { id });
        },
    };
    let mut player = match slots[i].player {
        Some(player) => player,
        None => {
            return Err(Fault::NoPlayer { id });
        },
    };
    match playing {
        Some(playing) => {
            player.set_playing(playing);
        },
        None => {},
    }
    match time_scale {
        Some(time_scale) => {
            player.set_time_scale(time_scale);
        },
        None => {},
    }
    let slot = PlayerSlot { id: slots[i].id, player: Some(player) };
    slots.set(i, slot);
    Ok(())
}

/// Starts the player of a timeline.
pub fn play_timeline(
    studio: &Studio,
    slots: &mut Vec<PlayerSlot>,
    id: u64,
    time_scale: Option<u32>,
) -> (result: Result<TimelineState, Fault>)
    requires
        playable_if_any(studio@, TimelineId { raw: id }),
    ensures
        player_changed(studio@, old(slots)@, final(slots)@, id, Some(true), time_scale, result),
{
    match change_player(slots, id, Some(true), time_scale) {
        Ok(()) => get_timeline(studio, slots, id),
        Err(fault) => Err(fault),
    }
}

/// Stops the player of a timeline.
pub fn pause_timeline(studio: &Studio, slots: &mut Vec<PlayerSlot>, id: u64) -> (result: Result<
    TimelineState,
    Fault,
>)
    requires
        playable_if_any(studio@, TimelineId { raw: id }),
    ensures
        player_changed(studio@, old(slots)@, final(slots)@, id, Some(false), None, result),
{
    match change_player(slots, id, Some(false), None) {
        Ok(()) => get_timeline(studio, slots, id),
        Err(fault) => Err(fault),
    }
}

/// Changes the speed and direction of the player of a timeline.
pub fn set_time_scale(
    studio: &Studio,
    slots: &mut Vec<PlayerSlot>,
    id: u64,
    time_scale: u32,
) -> (result: Result<TimelineState, Fault>)
    requires
        playable_if_any(studio@, TimelineId { raw: id }),
    ensures
        player_changed(studio@, old(slots)@, final(slots)@, id, None, Some(time_scale), result),
{
    match change_player(slots, id, None, Some(time_scale)) {
        Ok(()) => get_timeline(studio, slots, id),
        Err(fault) => Err(fault),
    }
}

/// The entities without the first that stands for the timeline.
pub open spec fn slot_dropped(slots: Seq<PlayerSlot>, id: u64) -> Seq<PlayerSlot> {
    match first_slot(slots, id) {
        Some(i) => slots.remove(i),
        None => slots,
    }
}

/// Drops a timeline, what is kept about its edits, and the entity that stands
/// for it.
pub fn remove_timeline(studio: &mut Studio, slots: &mut Vec<PlayerSlot>, id: u64) -> (result: Result<
    u64,
    Fault,
>)
    ensures
        if old(studio)@.timelines.contains_key(TimelineId { raw: id }) {
            &&& result == Ok::<u64, Fault>(id)
            &&& final(studio)@ == (StudioModel {
                timelines: old(studio)@.timelines.remove(TimelineId { raw: id }),
                edits: old(studio)@.edits.remove(TimelineId { raw: id }),
                ..old(studio)@
            })
            &&& final(slots)@ == slot_dropped(old(slots)@, id)
        } else {
            &&& result == Err::<u64, Fault>(Fault::NoTimeline { id })
            &&& final(studio)@ == old(studio)@
            &&& final(slots)@ == old(slots)@
        },
        stays_seekable(old(studio)@, final(studio)@),
{
    let ghost before = studio@;
    let tid = TimelineId::from_raw(id);
    let removed = studio.manager.take(&tid);
    if removed.is_none() {
        assert(studio@ =~= before);
        return Err(Fault::NoTimeline { id });
    }
    studio.state.forget(&tid);
    match timeline_entity(slots, id) {
        Some(i) => {
            slots.remove(i);
        },
        None => {},
    }
    assert(studio@ =~= (StudioModel {
        timelines: before.timelines.remove(tid),
        edits: before.edits.remove(tid),
        ..before
    }));
    Ok(id)
}

/// A name that is not empty.
pub open spec fn real_name(name: Option<String>) -> Option<String> {
    match name {
        Some(text) => if text@.len() > 0 {
            Some(text)
        } else {
            None
        },
        None => None,
    }
}

/// A name that is not empty.
fn filter_name(name: Option<String>) -> (result: Option<String>)
    ensures
        result == real_name(name),
{
    match name {
        Some(text) => {
            let empty = text == String::new();
            proof {
                if text@.len() == 0 {
                    assert(text@ =~= Seq::<char>::empty());
                }
            }
            if empty {
                None
            } else {
                Some(text)
            }
        },
        None => None,
    }
}

/// A request to create a timeline.
#[derive(Debug)]
pub struct CreateParams {
    pub name: Option<String>,
    /// Number of empty tracks to start with. One if absent.
    pub tracks: Option<usize>,
    /// Whether the timeline gets a player that stands still. It does if
    /// absent.
    pub player: Option<bool>,
}

/// Whether the timeline is new: without actions, on some empty tracks.
pub open spec fn is_blank(model: TimelineModel, tracks: usize) -> bool {
    &&& model == crate::timeline::builder::compiled(
        crate::timeline::builder::BuilderModel {
            actions: crate::action::world::ActionModel::empty(),
            counts: Map::empty(),
            tracks: model.tracks,
        },
    )
    &&& model.tracks.len() == tracks
    &&& forall|i: int| 0 <= i < tracks ==> is_empty_track(#[trigger] model.tracks[i])
}

/// A timeline without actions, on some empty tracks.
fn blank_timeline(tracks: usize) -> (timeline: BevyTimeline)
    requires
        tracks >= 1,
    ensures
        is_blank(timeline@, tracks),
        seekable(timeline@),
{
    let mut builder = BevyTimelineBuilder::new();
    let mut list: Vec<Track> = Vec::new();
    let mut i: usize = 0;
    while i < tracks
        invariant
            i <= tracks,
            list@.len() == i,
            forall|j: int| 0 <= j < i ==> is_empty_track(#[trigger] list@[j]),
        decreases tracks - i,
    {
        list.push(TrackFragment::new().compile());
        i += 1;
    }
    builder.add_tracks(list);
    let timeline = builder.compile();
    assert(timeline@.tracks =~= list@);
    timeline
}

/// The entities after a timeline was created.
pub open spec fn slots_created(slots: Seq<PlayerSlot>, id: u64, player: Option<bool>) -> Seq<
    PlayerSlot,
> {
    if player == Some(false) {
        slots
    } else {
        slots.push(
            PlayerSlot {
                id,
                player: Some(
                    RealtimePlayer {
                        is_playing: false,
                        time_scale: crate::bevy_motiongfx::controller::TIME_SCALE_ONE,
                    },
                ),
            },
        )
    }
}

/// Whether creating a timeline had that outcome.
pub open spec fn created(
    p: CreateParams,
    before: StudioModel,
    after: StudioModel,
    slots: Seq<PlayerSlot>,
    new_slots: Seq<PlayerSlot>,
    result: Result<TimelineState, Fault>,
) -> bool {
    let id = before.next;
    let tracks = match p.tracks {
        Some(tracks) => tracks,
        None => 1,
    };
    if !(1 <= tracks <= 1024) {
        result == Err::<TimelineState, Fault>(Fault::TrackCount) && after == before && new_slots
            == slots
    } else {
        &&& is_blank(after.timelines[id], tracks)
        &&& seekable(after.timelines[id])
        &&& after == (StudioModel {
            timelines: before.timelines.insert(id, after.timelines[id]),
            next: after.next,
            edits: match real_name(p.name) {
                Some(name) => before.edits.insert(
                    id,
                    EditsModel { name: Some(name), ..before.edits_of(id) },
                ),
                None => before.edits,
            },
            ..before
        })
        &&& after.next.raw == if id.raw == u64::MAX {
            0
        } else {
            id.raw + 1
        }
        &&& new_slots == slots_created(slots, id.raw, p.player)
        &&& result == state_or_fault(after, new_slots, id.raw)
    }
}

/// Creates an empty timeline.
pub fn timeline_create(studio: &mut Studio, slots: &mut Vec<PlayerSlot>, p: CreateParams) -> (result:
    Result<TimelineState, Fault>)
    ensures
        created(p, old(studio)@, final(studio)@, old(slots)@, final(slots)@, result),
        stays_seekable(old(studio)@, final(studio)@),
{
    let ghost before = studio@;
    let tracks: usize = match p.tracks {
        Some(tracks) => tracks,
        None => 1,
    };
    if tracks < 1 || tracks > 1024 {
        return Err(Fault::TrackCount);
    }
    let timeline = blank_timeline(tracks);
    let ghost model = timeline@;
    let id = studio.manager.add_timeline(timeline);
    let with_player = match p.player {
        Some(player) => player,
        None => true,
    };
    if with_player {
        slots.push(
            PlayerSlot {
                id: id.raw(),
                player: Some(RealtimePlayer::new().with_playing(false)),
            },
        );
    }
    match filter_name(p.name) {
        Some(name) => {
            studio.state.set_name(id, Some(name));
        },
        None => {},
    }
    assert(studio@.timelines =~= before.timelines.insert(id, model));
    get_timeline(studio, slots, id.raw())
}

/// Whether renaming a timeline had that outcome.
pub open spec fn renamed(
    id: u64,
    name: Option<String>,
    slots: Seq<PlayerSlot>,
    before: StudioModel,
    after: StudioModel,
    result: Result<TimelineState, Fault>,
) -> bool {
    let tid = TimelineId { raw: id };
    let edits = before.edits_of(tid);
    if before.timelines.contains_key(tid) {
        &&& after == before.with_edits(
            tid,
            EditsModel { name: real_name(name), ..edits }.bumped().told(
                EventKind::Renamed {
                    name: real_name(name),
                    version: next_number(edits.version),
                },
            ),
        )
        &&& result == state_or_fault(after, slots, id)
    } else {
        result == Err::<TimelineState, Fault>(Fault::NoTimeline { id }) && after == before
    }
}

/// Sets or clears the display name of a timeline.
pub fn timeline_rename(
    studio: &mut Studio,
    slots: &Vec<PlayerSlot>,
    id: u64,
    name: Option<String>,
) -> (result: Result<TimelineState, Fault>)
    requires
        playable_if_any(old(studio)@, TimelineId { raw: id }),
    ensures
        renamed(id, name, slots@, old(studio)@, final(studio)@, result),
        stays_seekable(old(studio)@, final(studio)@),
{
    let ghost before = studio@;
    let tid = TimelineId::from_raw(id);
    if studio.manager.get_timeline(&tid).is_none() {
        return Err(Fault::NoTimeline { id });
    }
    let name = filter_name(name);
    let told: Option<String> = match &name {
        Some(name) => Some(name.clone()),
        None => None,
    };
    studio.state.set_name(tid, name);
    let version = studio.state.bump(tid);
    studio.state.push_event(tid, EventKind::Renamed { name: told, version });
    assert(studio@ =~= before.with_edits(
        tid,
        EditsModel { name: told, ..before.edits_of(tid) }.bumped().told(
            EventKind::Renamed { name: told, version },
        ),
    ));
    get_timeline(studio, slots, id)
}

} // verus!
