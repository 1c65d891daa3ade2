//! What a timeline shows, clip by clip.
use crate::action::subjects::slot_of;
use crate::action::{ActionClip, ActionKey};
use crate::bevy_motiongfx::manager::TimelineId;
use crate::bevy_motiongfx::remote::batch::laws::{clips_alike, tracks_laid_out};
use crate::bevy_motiongfx::remote::batch::restore_laws::{
    all_leave_room, has_lane, lane_neat, leaves_room, listed, listed_one_more, neat, owner_of,
    shown_clip, shown_lane, shows, Shown, ShownClip,
};
use crate::bevy_motiongfx::remote::batch::walk::{
    clips_are_of_lanes, clips_of_tracks, numbered_clips, span_clips, track_clips,
};
use crate::bevy_motiongfx::remote::studio::StudioModel;
use crate::subject::{Subject, UntypedField};
use crate::timeline::TimelineModel;
use crate::track::Track;
use vstd::prelude::*;

verus! {

/// The clips of the first `n` tracks, each with the number of its track.
pub open spec fn placed_clips(tracks: Seq<Track>, n: int) -> Seq<(int, ActionClip)>
    decreases n,
{
    if n <= 0 {
        Seq::empty()
    } else {
        placed_clips(tracks, n - 1) + track_clips(tracks[n - 1]).map_values(
            |clip: ActionClip| (n - 1, clip),
        )
    }
}

/// A clip of a track as it shows, with where it is.
pub open spec fn shown_at(studio: StudioModel, id: TimelineId, t: int, clip: ActionClip) -> Shown {
    let model = studio.timelines[id];
    let key = model.actions.actions[clip.id].key;
    Shown {
        track: t,
        subject: owner_of(model, key),
        field: key.field,
        clip: shown_clip(studio, id, clip),
    }
}

/// Some clips of a track as they show.
pub open spec fn all_shown_at(
    studio: StudioModel,
    id: TimelineId,
    t: int,
    clips: Seq<ActionClip>,
) -> Seq<Shown> {
    clips.map_values(|clip: ActionClip| shown_at(studio, id, t, clip))
}

/// What the first `n` tracks of a timeline show.
pub open spec fn tracks_shown(studio: StudioModel, id: TimelineId, n: int) -> Seq<Shown> {
    placed_clips(studio.timelines[id].tracks, n).map_values(
        |placed: (int, ActionClip)| shown_at(studio, id, placed.0, placed.1),
    )
}

/// What a timeline shows.
pub open spec fn all_shown(studio: StudioModel, id: TimelineId) -> Seq<Shown> {
    tracks_shown(studio, id, studio.timelines[id].tracks.len() as int)
}

/// What is listed of two parts is listed of the one, then of the other.
proof fn listed_of_parts(
    a: Seq<Shown>,
    b: Seq<Shown>,
    track: int,
    subject: Subject,
    field: UntypedField,
)
    ensures
        listed(a + b, track, subject, field) == listed(a, track, subject, field) + listed(
            b,
            track,
            subject,
            field,
        ),
{
    let pick = |x: Shown| x.track == track && x.subject == subject && x.field == field;
    Seq::filter_distributes_over_add(a, b, pick);
    assert(listed(a + b, track, subject, field) =~= listed(a, track, subject, field) + listed(
        b,
        track,
        subject,
        field,
    ));
}

/// Where all clips are of a lane, all are listed.
proof fn all_listed(shown: Seq<Shown>, track: int, subject: Subject, field: UntypedField)
    requires
        forall|i: int|
            0 <= i < shown.len() ==> (#[trigger] shown[i]).track == track && shown[i].subject
                == subject && shown[i].field == field,
    ensures
        listed(shown, track, subject, field) == shown.map_values(|x: Shown| x.clip),
    decreases shown.len(),
{
    if shown.len() == 0 {
        reveal(Seq::filter);
        assert(listed(shown, track, subject, field) =~= shown.map_values(|x: Shown| x.clip));
    } else {
        let front = shown.drop_last();
        assert forall|i: int| 0 <= i < front.len() implies (#[trigger] front[i]).track == track
            && front[i].subject == subject && front[i].field == field by {
            assert(front[i] == shown[i]);
        }
        all_listed(front, track, subject, field);
        listed_one_more(front, shown.last(), track, subject, field);
        assert(shown =~= front.push(shown.last()));
        assert(shown.map_values(|x: Shown| x.clip) =~= front.map_values(|x: Shown| x.clip).push(
            shown.last().clip,
        ));
    }
}

/// Where no clip is of a lane, none is listed.
pub proof fn none_listed(shown: Seq<Shown>, track: int, subject: Subject, field: UntypedField)
    requires
        forall|i: int|
            0 <= i < shown.len() ==> !((#[trigger] shown[i]).track == track && shown[i].subject
                == subject && shown[i].field == field),
    ensures
        listed(shown, track, subject, field) == Seq::<ShownClip>::empty(),
    decreases shown.len(),
{
    if shown.len() == 0 {
        reveal(Seq::filter);
        assert(listed(shown, track, subject, field) =~= Seq::<ShownClip>::empty());
    } else {
        let front = shown.drop_last();
        assert forall|i: int| 0 <= i < front.len() implies !((#[trigger] front[i]).track == track
            && front[i].subject == subject && front[i].field == field) by {
            assert(front[i] == shown[i]);
        }
        none_listed(front, track, subject, field);
        listed_one_more(front, shown.last(), track, subject, field);
        assert(shown =~= front.push(shown.last()));
    }
}

/// A clip of a neat lane.
pub proof fn neat_clip(model: TimelineModel, key: ActionKey, clips: Seq<ActionClip>, i: int)
    requires
        lane_neat(model, key, clips),
    ensures
        clips.len() > 0,
        model.actions.subjects.contains_key(slot_of(key)),
        0 <= i < clips.len() ==> model.actions.has(clips[i].id)
            && model.actions.actions[clips[i].id].key == key && clips[i].start >= 0
            && clips[i].duration >= 0,
        0 < i < clips.len() ==> clips[i - 1].end() <= clips[i].start,
{
    reveal(lane_neat);
}

/// The clip of an action in a neat lane is the only one.
pub proof fn neat_clips_differ(
    model: TimelineModel,
    key: ActionKey,
    clips: Seq<ActionClip>,
    i: int,
    j: int,
)
    requires
        lane_neat(model, key, clips),
        0 <= i < clips.len(),
        0 <= j < clips.len(),
        clips[i].id == clips[j].id,
    ensures
        i == j,
{
    reveal(lane_neat);
    if i < j {
        assert(clips[i].id != clips[j].id);
    } else if j < i {
        assert(clips[j].id != clips[i].id);
    }
}

/// What is listed of a span: all of it, if it is that of the lane.
proof fn span_listed(
    studio: StudioModel,
    id: TimelineId,
    t: int,
    i: int,
    key: ActionKey,
)
    requires
        neat(studio.timelines[id]),
        0 <= t < studio.timelines[id].tracks.len(),
        studio.timelines[id].tracks[t].laid_out(),
        studio.timelines[id].actions.subjects.contains_key(slot_of(key)),
        0 <= i < studio.timelines[id].tracks[t].spans().len(),
    ensures
        ({
            let model = studio.timelines[id];
            let span = model.tracks[t].spans()[i];
            let clips = model.tracks[t].clips_in(span.1);
            listed(all_shown_at(studio, id, t, clips), t, owner_of(model, key), key.field) == if span.0
                == key {
                shown_lane(studio, id, clips)
            } else {
                Seq::<ShownClip>::empty()
            }
        }),
{
    let model = studio.timelines[id];
    let track = model.tracks[t];
    let own = track.spans()[i].0;
    let clips = track.clips_in(track.spans()[i].1);
    let shown = all_shown_at(studio, id, t, clips);
    track.lane_at(i);
    assert(model.tracks[t].lanes().contains_key(own));
    assert(lane_neat(model, own, clips));
    assert forall|k: int| 0 <= k < shown.len() implies {
        &&& (#[trigger] shown[k]).track == t
        &&& shown[k].subject == owner_of(model, own)
        &&& shown[k].field == own.field
    } by {
        neat_clip(model, own, clips, k);
    }
    if own == key {
        all_listed(shown, t, owner_of(model, key), key.field);
        assert(shown.map_values(|x: Shown| x.clip) =~= shown_lane(studio, id, clips));
    } else {
        neat_clip(model, own, clips, 0);
        if owner_of(model, own) == owner_of(model, key) {
            assert(slot_of(own) == slot_of(key));
        }
        none_listed(shown, t, owner_of(model, key), key.field);
    }
}

/// What is listed of the first spans: the lane, if it is one of theirs.
proof fn spans_listed(
    studio: StudioModel,
    id: TimelineId,
    t: int,
    n: int,
    key: ActionKey,
)
    requires
        neat(studio.timelines[id]),
        0 <= t < studio.timelines[id].tracks.len(),
        studio.timelines[id].tracks[t].laid_out(),
        studio.timelines[id].actions.subjects.contains_key(slot_of(key)),
        0 <= n <= studio.timelines[id].tracks[t].spans().len(),
    ensures
        ({
            let model = studio.timelines[id];
            let track = model.tracks[t];
            listed(
                all_shown_at(studio, id, t, span_clips(track, n)),
                t,
                owner_of(model, key),
                key.field,
            ) == if exists|i: int| 0 <= i < n && (#[trigger] track.spans()[i]).0 == key {
                shown_lane(studio, id, track.lanes()[key])
            } else {
                Seq::<ShownClip>::empty()
            }
        }),
    decreases n,
{
    let model = studio.timelines[id];
    let track = model.tracks[t];
    let owner = owner_of(model, key);
    if n == 0 {
        let shown = all_shown_at(studio, id, t, span_clips(track, n));
        none_listed(shown, t, owner, key.field);
    } else {
        spans_listed(studio, id, t, n - 1, key);
        span_listed(studio, id, t, n - 1, key);
        track.lane_at(n - 1);
        let front = span_clips(track, n - 1);
        let clips = track.clips_in(track.spans()[n - 1].1);
        assert(all_shown_at(studio, id, t, front + clips) =~= all_shown_at(studio, id, t, front)
            + all_shown_at(studio, id, t, clips));
        listed_of_parts(
            all_shown_at(studio, id, t, front),
            all_shown_at(studio, id, t, clips),
            t,
            owner,
            key.field,
        );
        if track.spans()[n - 1].0 == key {
            assert forall|i: int| 0 <= i < n - 1 implies (#[trigger] track.spans()[i]).0 != key by {
                assert(track.spans()[i].0 != track.spans()[n - 1].0);
            }
            assert(Seq::<ShownClip>::empty() + shown_lane(studio, id, clips) =~= shown_lane(
                studio,
                id,
                clips,
            ));
        } else {
            let before = listed(all_shown_at(studio, id, t, front), t, owner, key.field);
            assert(before + Seq::<ShownClip>::empty() =~= before);
            if exists|i: int| 0 <= i < n && (#[trigger] track.spans()[i]).0 == key {
                let i = choose|i: int| 0 <= i < n && (#[trigger] track.spans()[i]).0 == key;
                assert(i < n - 1);
            }
        }
    }
}

/// What one more track shows.
proof fn one_more_track(studio: StudioModel, id: TimelineId, n: int)
    requires
        0 < n,
    ensures
        tracks_shown(studio, id, n) == tracks_shown(studio, id, n - 1) + all_shown_at(
            studio,
            id,
            n - 1,
            track_clips(studio.timelines[id].tracks[n - 1]),
        ),
{
    let clips = track_clips(studio.timelines[id].tracks[n - 1]);
    assert(tracks_shown(studio, id, n) =~= tracks_shown(studio, id, n - 1) + all_shown_at(
        studio,
        id,
        n - 1,
        clips,
    ));
}

/// What is listed of the first tracks: the lane, if it is on one of them.
proof fn tracks_listed(
    studio: StudioModel,
    id: TimelineId,
    n: int,
    t: int,
    key: ActionKey,
)
    requires
        neat(studio.timelines[id]),
        tracks_laid_out(studio.timelines[id]),
        0 <= n <= studio.timelines[id].tracks.len(),
        0 <= t < studio.timelines[id].tracks.len(),
        studio.timelines[id].tracks[t].lanes().contains_key(key),
    ensures
        listed(
            tracks_shown(studio, id, n),
            t,
            owner_of(studio.timelines[id], key),
            key.field,
        ) == if t < n {
            shown_lane(studio, id, studio.timelines[id].tracks[t].lanes()[key])
        } else {
            Seq::<ShownClip>::empty()
        },
    decreases n,
{
    let model = studio.timelines[id];
    let owner = owner_of(model, key);
    if n == 0 {
        none_listed(tracks_shown(studio, id, n), t, owner, key.field);
    } else {
        tracks_listed(studio, id, n - 1, t, key);
        one_more_track(studio, id, n);
        let track = model.tracks[n - 1];
        let last = all_shown_at(studio, id, n - 1, track_clips(track));
        let front = tracks_shown(studio, id, n - 1);
        listed_of_parts(front, last, t, owner, key.field);
        if t == n - 1 {
            neat_clip(model, key, track.lanes()[key], 0);
            spans_listed(studio, id, t, track.spans().len() as int, key);
            assert(Seq::<ShownClip>::empty() + listed(last, t, owner, key.field) =~= listed(
                last,
                t,
                owner,
                key.field,
            ));
        } else {
            none_listed(last, t, owner, key.field);
            let before = listed(front, t, owner, key.field);
            assert(before + Seq::<ShownClip>::empty() =~= before);
        }
    }
}

/// The lane of a clip that is shown.
pub open spec fn is_lane_of(model: TimelineModel, placed: (int, ActionClip), key: ActionKey) -> bool {
    &&& 0 <= placed.0 < model.tracks.len()
    &&& model.tracks[placed.0].lanes().contains_key(key)
    &&& model.tracks[placed.0].lanes()[key].contains(placed.1)
}

/// The clips of the first tracks are of lanes.
pub proof fn placed_clips_are_of_lanes(model: TimelineModel, n: int, k: int) -> (key: ActionKey)
    requires
        tracks_laid_out(model),
        0 <= n <= model.tracks.len(),
        0 <= k < placed_clips(model.tracks, n).len(),
    ensures
        is_lane_of(model, placed_clips(model.tracks, n)[k], key),
    decreases n,
{
    let front = placed_clips(model.tracks, n - 1);
    let clips = track_clips(model.tracks[n - 1]);
    let placed = placed_clips(model.tracks, n)[k];
    if k < front.len() {
        assert(placed == front[k]);
        placed_clips_are_of_lanes(model, n - 1, k)
    } else {
        assert(placed == (n - 1, clips[k - front.len()]));
        assert(clips.contains(placed.1));
        clips_are_of_lanes(model.tracks[n - 1], placed.1);
        choose|key: ActionKey| #[trigger]
            model.tracks[n - 1].lanes().contains_key(key) && model.tracks[n - 1].lanes()[key].contains(
                placed.1,
            )
    }
}

/// A clip of a lane shows as one of it.
pub proof fn shown_is_of_lane(
    studio: StudioModel,
    id: TimelineId,
    placed: (int, ActionClip),
    key: ActionKey,
)
    requires
        neat(studio.timelines[id]),
        is_lane_of(studio.timelines[id], placed, key),
    ensures
        studio.timelines[id].actions.has(placed.1.id),
        studio.timelines[id].actions.actions[placed.1.id].key == key,
        studio.timelines[id].actions.subjects.contains_key(slot_of(key)),
        shown_at(studio, id, placed.0, placed.1).subject == owner_of(studio.timelines[id], key),
        shown_at(studio, id, placed.0, placed.1).field == key.field,
        placed.1.start >= 0,
        placed.1.duration >= 0,
{
    let model = studio.timelines[id];
    let clips = model.tracks[placed.0].lanes()[key];
    assert(lane_neat(model, key, clips));
    let i = choose|i: int| 0 <= i < clips.len() && clips[i] == placed.1;
    neat_clip(model, key, clips, i);
}

/// A timeline shows all of its clips.
pub proof fn timelines_show_all(studio: StudioModel, id: TimelineId)
    requires
        neat(studio.timelines[id]),
        tracks_laid_out(studio.timelines[id]),
    ensures
        shows(studio, id, all_shown(studio, id)),
{
    let model = studio.timelines[id];
    let n = model.tracks.len() as int;
    let shown = all_shown(studio, id);
    assert forall|t: int, key: ActionKey|
        0 <= t < n && #[trigger] model.tracks[t].lanes().contains_key(key) implies shown_lane(
        studio,
        id,
        model.tracks[t].lanes()[key],
    ) == listed(shown, t, owner_of(model, key), key.field) by {
        tracks_listed(studio, id, n, t, key);
    }
    assert forall|t: int, subject: Subject, field: UntypedField|
        (#[trigger] listed(shown, t, subject, field)).len() > 0 implies has_lane(
        model,
        t,
        subject,
        field,
    ) by {
        if !has_lane(model, t, subject, field) {
            assert forall|k: int| 0 <= k < shown.len() implies !((#[trigger] shown[k]).track == t
                && shown[k].subject == subject && shown[k].field == field) by {
                let key = placed_clips_are_of_lanes(model, n, k);
                shown_is_of_lane(studio, id, placed_clips(model.tracks, n)[k], key);
                assert(model.tracks[shown[k].track].lanes().contains_key(key));
            }
            none_listed(shown, t, subject, field);
        }
    }
}

/// The clips of a timeline leave room for one another.
pub proof fn all_shown_leave_room(studio: StudioModel, id: TimelineId)
    requires
        neat(studio.timelines[id]),
        tracks_laid_out(studio.timelines[id]),
    ensures
        all_leave_room(all_shown(studio, id)),
{
    let model = studio.timelines[id];
    let n = model.tracks.len() as int;
    let shown = all_shown(studio, id);
    timelines_show_all(studio, id);
    assert forall|i: int| 0 <= i < shown.len() implies leaves_room(
        listed(shown.take(i), (#[trigger] shown[i]).track, shown[i].subject, shown[i].field),
        shown[i].clip,
    ) by {
        let one = shown[i];
        let placed = placed_clips(model.tracks, n)[i];
        let key = placed_clips_are_of_lanes(model, n, i);
        shown_is_of_lane(studio, id, placed, key);
        let clips = model.tracks[placed.0].lanes()[key];
        assert(model.tracks[placed.0].lanes().contains_key(key));
        let list = listed(shown, one.track, one.subject, one.field);
        assert(list == shown_lane(studio, id, clips));
        let front = listed(shown.take(i), one.track, one.subject, one.field);
        let rest = listed(shown.skip(i + 1), one.track, one.subject, one.field);
        listed_one_more(shown.take(i), one, one.track, one.subject, one.field);
        listed_of_parts(
            shown.take(i).push(one),
            shown.skip(i + 1),
            one.track,
            one.subject,
            one.field,
        );
        assert(shown =~= shown.take(i).push(one) + shown.skip(i + 1));
        assert(list == front.push(one.clip) + rest);
        let j = front.len() as int;
        assert(list[j] == one.clip);
        assert(list[j] == shown_clip(studio, id, clips[j]));
        if j > 0 {
            assert(list[j - 1] == front.last());
            assert(list[j - 1] == shown_clip(studio, id, clips[j - 1]));
            neat_clip(model, key, clips, j);
        }
    }
}

/// The clips of all tracks are those that are placed.
pub proof fn placed_clips_are_numbered(tracks: Seq<Track>, n: int)
    requires
        0 <= n <= tracks.len() <= usize::MAX,
    ensures
        clips_of_tracks(tracks, n).len() == placed_clips(tracks, n).len(),
        forall|k: int|
            0 <= k < placed_clips(tracks, n).len() ==> {
                let placed = #[trigger] placed_clips(tracks, n)[k];
                0 <= placed.0 < n && clips_of_tracks(tracks, n)[k] == (
                    placed.0 as usize,
                    placed.1.id,
                )
            },
    decreases n,
{
    if n > 0 {
        placed_clips_are_numbered(tracks, n - 1);
        let front = placed_clips(tracks, n - 1);
        let clips = track_clips(tracks[n - 1]);
        let numbered = numbered_clips((n - 1) as usize, clips);
        assert forall|k: int| 0 <= k < placed_clips(tracks, n).len() implies {
            let placed = #[trigger] placed_clips(tracks, n)[k];
            0 <= placed.0 < n && clips_of_tracks(tracks, n)[k] == (placed.0 as usize, placed.1.id)
        } by {
            if k < front.len() {
                assert(placed_clips(tracks, n)[k] == front[k]);
            } else {
                assert(numbered[k - front.len()] == (
                    (n - 1) as usize,
                    clips[k - front.len()].id,
                ));
            }
        }
    }
}

/// Whether every lane of one timeline is one of another: on the same track, of
/// the same field of the same subject, with clips that show the same.
pub open spec fn lanes_shown_in(
    a: StudioModel,
    id: TimelineId,
    b: StudioModel,
    other: TimelineId,
) -> bool {
    let model = a.timelines[id];
    forall|t: int, key: ActionKey|
        0 <= t < model.tracks.len() && #[trigger] model.tracks[t].lanes().contains_key(key)
            ==> lane_shown_in(
            b,
            other,
            t,
            owner_of(model, key),
            key.field,
            shown_lane(a, id, model.tracks[t].lanes()[key]),
        )
}

/// Whether a lane of a field of a subject is on a track, with clips that show
/// that.
pub open spec fn lane_shown_in(
    studio: StudioModel,
    id: TimelineId,
    t: int,
    subject: Subject,
    field: UntypedField,
    clips: Seq<ShownClip>,
) -> bool {
    let model = studio.timelines[id];
    &&& 0 <= t < model.tracks.len()
    &&& exists|key: ActionKey| #[trigger]
        model.tracks[t].lanes().contains_key(key) && owner_of(model, key) == subject && key.field
            == field && shown_lane(studio, id, model.tracks[t].lanes()[key]) == clips
}

/// Whether two timelines show the same: the same lanes, with clips that play at
/// the same times, lead to the same in the same way, are muted alike and have the
/// same labels and colours. Only ids may differ.
pub open spec fn shows_alike(
    a: StudioModel,
    id: TimelineId,
    b: StudioModel,
    other: TimelineId,
) -> bool {
    lanes_shown_in(a, id, b, other) && lanes_shown_in(b, other, a, id)
}

/// Where two timelines show the same clips, the lanes of the one are lanes of
/// the other.
proof fn lanes_of_same_clips(
    a: StudioModel,
    id: TimelineId,
    b: StudioModel,
    other: TimelineId,
    shown: Seq<Shown>,
)
    requires
        neat(a.timelines[id]),
        shows(a, id, shown),
        shows(b, other, shown),
    ensures
        lanes_shown_in(a, id, b, other),
{
    let (x, y) = (a.timelines[id], b.timelines[other]);
    assert forall|t: int, key: ActionKey|
        0 <= t < x.tracks.len() && #[trigger] x.tracks[t].lanes().contains_key(
            key,
        ) implies lane_shown_in(
        b,
        other,
        t,
        owner_of(x, key),
        key.field,
        shown_lane(a, id, x.tracks[t].lanes()[key]),
    ) by {
        let clips = x.tracks[t].lanes()[key];
        neat_clip(x, key, clips, 0);
        let list = listed(shown, t, owner_of(x, key), key.field);
        assert(shown_lane(a, id, clips) == list);
        assert(list.len() == clips.len());
        assert(has_lane(y, t, owner_of(x, key), key.field));
        let there = choose|there: ActionKey| #[trigger]
            y.tracks[t].lanes().contains_key(there) && owner_of(y, there) == owner_of(x, key)
                && there.field == key.field;
        assert(shown_lane(b, other, y.tracks[t].lanes()[there]) == list);
    }
}

/// Timelines that show the same clips show alike.
pub proof fn same_clips_show_alike(
    a: StudioModel,
    id: TimelineId,
    b: StudioModel,
    other: TimelineId,
    shown: Seq<Shown>,
)
    requires
        neat(a.timelines[id]),
        neat(b.timelines[other]),
        shows(a, id, shown),
        shows(b, other, shown),
    ensures
        shows_alike(a, id, b, other),
{
    lanes_of_same_clips(a, id, b, other, shown);
    lanes_of_same_clips(b, other, a, id, shown);
}

/// A lane of actions that are alike shows alike.
proof fn alike_lane_shows(
    id: TimelineId,
    a: StudioModel,
    b: StudioModel,
    key: ActionKey,
    clips: Seq<ActionClip>,
)
    requires
        clips_alike(id, a, b),
        lane_neat(a.timelines[id], key, clips),
    ensures
        lane_neat(b.timelines[id], key, clips),
        shown_lane(b, id, clips) == shown_lane(a, id, clips),
{
    reveal(lane_neat);
    let (x, y) = (a.timelines[id], b.timelines[id]);
    assert forall|i: int| 0 <= i < clips.len() implies {
        &&& (#[trigger] clips[i]).start >= 0
        &&& clips[i].duration >= 0
        &&& y.actions.has(clips[i].id)
        &&& y.actions.actions[clips[i].id].key == key
        &&& shown_clip(b, id, clips[i]) == shown_clip(a, id, clips[i])
    } by {
        assert(x.actions.has(clips[i].id));
        assert(x.actions.actions.dom().contains(clips[i].id));
        assert(y.actions.actions.dom().contains(clips[i].id));
        assert(b.edits_of(id).meta_of(clips[i].id.bits) == a.edits_of(id).meta_of(
            clips[i].id.bits,
        ));
    }
    assert(shown_lane(b, id, clips) =~= shown_lane(a, id, clips));
}

/// A timeline with the same clips shows the same.
pub proof fn alike_shows(id: TimelineId, a: StudioModel, b: StudioModel, shown: Seq<Shown>)
    requires
        clips_alike(id, a, b),
        neat(a.timelines[id]),
        shows(a, id, shown),
    ensures
        neat(b.timelines[id]),
        shows(b, id, shown),
{
    let (x, y) = (a.timelines[id], b.timelines[id]);
    assert forall|t: int, key: ActionKey|
        0 <= t < y.tracks.len() && #[trigger] y.tracks[t].lanes().contains_key(key) implies {
        &&& lane_neat(y, key, y.tracks[t].lanes()[key])
        &&& shown_lane(b, id, y.tracks[t].lanes()[key]) == listed(
            shown,
            t,
            owner_of(y, key),
            key.field,
        )
    } by {
        assert(x.tracks[t].lanes() == y.tracks[t].lanes());
        assert(x.tracks[t].lanes().contains_key(key));
        alike_lane_shows(id, a, b, key, x.tracks[t].lanes()[key]);
        assert(owner_of(y, key) == owner_of(x, key));
    }
    assert forall|p: ActionKey, q: ActionKey|
        {
            &&& #[trigger] y.actions.subjects.contains_key(slot_of(p))
            &&& #[trigger] y.actions.subjects.contains_key(slot_of(q))
            &&& owner_of(y, p) == owner_of(y, q)
        } implies slot_of(p) == slot_of(q) by {
        assert(owner_of(x, p) == owner_of(x, q));
        assert(x.actions.subjects.contains_key(slot_of(p)));
        assert(x.actions.subjects.contains_key(slot_of(q)));
    }
    assert forall|t: int, subject: Subject, field: UntypedField|
        (#[trigger] listed(shown, t, subject, field)).len() > 0 implies has_lane(
        y,
        t,
        subject,
        field,
    ) by {
        assert(has_lane(x, t, subject, field));
        let key = choose|key: ActionKey| #[trigger]
            x.tracks[t].lanes().contains_key(key) && owner_of(x, key) == subject && key.field
                == field;
        assert(x.tracks[t].lanes() == y.tracks[t].lanes());
        assert(y.tracks[t].lanes().contains_key(key));
        assert(owner_of(y, key) == owner_of(x, key));
    }
}

} // verus!
