//! Finding the clips of tracks.
use crate::action::{ActionClip, ActionId, ActionKey};
use crate::seqs::take_one_more;
use crate::subject::Tagged;
use crate::time::Ticks;
use crate::timeline::{Timeline, TimelineModel};
use crate::track::{has_clip, no_clip, Track};
use vstd::prelude::*;

verus! {

/// The clips of the first `n` spans of a track, one behind the other.
pub open spec fn span_clips(track: Track, n: int) -> Seq<ActionClip>
    decreases n,
{
    if n <= 0 {
        Seq::empty()
    } else {
        span_clips(track, n - 1) + track.clips_in(track.spans()[n - 1].1)
    }
}

/// The clips of a track, span by span.
pub open spec fn track_clips(track: Track) -> Seq<ActionClip> {
    span_clips(track, track.spans().len() as int)
}

/// The clips of a track, span by span.
pub fn clips_in_order(track: &Track) -> (clips: Vec<ActionClip>)
    ensures
        clips@ == track_clips(*track),
{
    let spans = track.sequences_spans();
    let mut all: Vec<ActionClip> = Vec::new();
    let mut i: usize = 0;
    while i < spans.len()
        invariant
            i <= spans@.len(),
            spans@ == track.spans(),
            track.laid_out(),
            all@ == span_clips(*track, i as int),
        decreases spans@.len() - i,
    {
        let clips = track.clips(spans[i].1);
        let ghost before = all@;
        let mut k: usize = 0;
        assert(clips@.take(0) =~= Seq::empty());
        assert(before + clips@.take(0) =~= before);
        while k < clips.len()
            invariant
                k <= clips@.len(),
                all@ == before + clips@.take(k as int),
            decreases clips@.len() - k,
        {
            all.push(clips[k]);
            proof {
                take_one_more(clips@, k as int);
                assert(before + clips@.take(k + 1) =~= (before + clips@.take(k as int)).push(
                    clips@[k as int],
                ));
            }
            k += 1;
        }
        assert(clips@.take(k as int) =~= clips@);
        i += 1;
    }
    all
}

/// The first of the clips with the id.
pub open spec fn first_clip(clips: Seq<ActionClip>, id: ActionId) -> Option<ActionClip>
    decreases clips.len(),
{
    if clips.len() == 0 {
        None
    } else if clips[0].id == id {
        Some(clips[0])
    } else {
        first_clip(clips.skip(1), id)
    }
}

/// The first clip with an id is one of the clips, and there is one if any clip
/// has the id.
pub proof fn first_clip_is_one(clips: Seq<ActionClip>, id: ActionId)
    ensures
        first_clip(clips, id) is Some <==> has_clip(clips, id),
        first_clip(clips, id) matches Some(clip) ==> clip.id == id && clips.contains(clip),
    decreases clips.len(),
{
    if clips.len() > 0 {
        let rest = clips.skip(1);
        first_clip_is_one(rest, id);
        assert(clips.contains(clips[0]));
        assert forall|i: int| 0 <= i < rest.len() implies #[trigger] rest[i] == clips[i + 1] by {}
        if has_clip(clips, id) && clips[0].id != id {
            let i = choose|i: int| 0 <= i < clips.len() && (#[trigger] clips[i]).id == id;
            assert(rest[i - 1].id == id);
        }
        if has_clip(rest, id) {
            let i = choose|i: int| 0 <= i < rest.len() && (#[trigger] rest[i]).id == id;
            assert(clips[i + 1].id == id);
        }
        if first_clip(rest, id) is Some {
            let i = choose|i: int| 0 <= i < rest.len() && rest[i] == first_clip(rest, id)->0;
            assert(clips[i + 1] == first_clip(rest, id)->0);
        }
    }
}

/// The clips of the first spans are those of one of them.
proof fn span_clips_are_of_spans(track: Track, n: int, clip: ActionClip)
    requires
        0 <= n <= track.spans().len(),
    ensures
        span_clips(track, n).contains(clip) <==> exists|i: int|
            0 <= i < n && track.clips_in((#[trigger] track.spans()[i]).1).contains(clip),
    decreases n,
{
    if n > 0 {
        span_clips_are_of_spans(track, n - 1, clip);
        let front = span_clips(track, n - 1);
        let last = track.clips_in(track.spans()[n - 1].1);
        assert(span_clips(track, n) == front + last);
        if front.contains(clip) {
            let k = choose|k: int| 0 <= k < front.len() && front[k] == clip;
            assert((front + last)[k] == clip);
        }
        if last.contains(clip) {
            let k = choose|k: int| 0 <= k < last.len() && last[k] == clip;
            assert((front + last)[front.len() + k] == clip);
        }
        if (front + last).contains(clip) {
            let k = choose|k: int| 0 <= k < (front + last).len() && (front + last)[k] == clip;
            if k < front.len() {
                assert(front[k] == clip);
            } else {
                assert(last[k - front.len()] == clip);
            }
        }
    }
}

/// The clips of a track are those of its lanes.
pub proof fn clips_are_of_lanes(track: Track, clip: ActionClip)
    requires
        track.laid_out(),
    ensures
        track_clips(track).contains(clip) <==> exists|key: ActionKey| #[trigger]
            track.lanes().contains_key(key) && track.lanes()[key].contains(clip),
{
    let n = track.spans().len() as int;
    span_clips_are_of_spans(track, n, clip);
    if track_clips(track).contains(clip) {
        let i = choose|i: int|
            0 <= i < n && track.clips_in((#[trigger] track.spans()[i]).1).contains(clip);
        track.lane_at(i);
        assert(track.lanes().contains_key(track.spans()[i].0));
    }
    if exists|key: ActionKey| #[trigger]
        track.lanes().contains_key(key) && track.lanes()[key].contains(clip) {
        let key = choose|key: ActionKey| #[trigger]
            track.lanes().contains_key(key) && track.lanes()[key].contains(clip);
        let i = choose|i: int| 0 <= i < n && (#[trigger] track.spans()[i]).0 == key;
        track.lane_at(i);
        assert(track.clips_in(track.spans()[i].1).contains(clip));
    }
}

/// The first clip of an action on a track is one of a lane, and there is one if
/// a lane holds one.
pub proof fn clip_on_is_of_a_lane(model: TimelineModel, track: usize, id: ActionId)
    requires
        track < model.tracks.len(),
        model.tracks[track as int].laid_out(),
    ensures
        clip_on(model, track, id) matches Some(clip) ==> clip.id == id && exists|key: ActionKey|
            #[trigger]
            model.tracks[track as int].lanes().contains_key(key)
                && model.tracks[track as int].lanes()[key].contains(clip),
        clip_on(model, track, id) is None ==> no_clip(model.tracks[track as int].lanes(), id),
{
    let on = model.tracks[track as int];
    let clips = track_clips(on);
    first_clip_is_one(clips, id);
    match clip_on(model, track, id) {
        Some(clip) => {
            clips_are_of_lanes(on, clip);
        },
        None => {
            assert forall|key: ActionKey| #[trigger] on.lanes().contains_key(key) implies !has_clip(
                on.lanes()[key],
                id,
            ) by {
                let lane = on.lanes()[key];
                if has_clip(lane, id) {
                    let i = choose|i: int| 0 <= i < lane.len() && (#[trigger] lane[i]).id == id;
                    assert(lane.contains(lane[i]));
                    clips_are_of_lanes(on, lane[i]);
                    let k = choose|k: int| 0 <= k < clips.len() && clips[k] == lane[i];
                    assert(clips[k].id == id);
                    assert(has_clip(clips, id));
                }
            }
        },
    }
}

/// The first clip of an action on a track of a timeline.
pub open spec fn clip_on(model: TimelineModel, track: usize, id: ActionId) -> Option<ActionClip> {
    if track < model.tracks.len() {
        first_clip(track_clips(model.tracks[track as int]), id)
    } else {
        None
    }
}

/// Locate a clip's start and duration on a track.
pub fn find_clip<W: Tagged>(timeline: &Timeline<W>, track: usize, id: ActionId) -> (found: Option<
    (Ticks, Ticks),
>)
    ensures
        match clip_on(timeline@, track, id) {
            Some(clip) => found == Some((clip.start, clip.duration)),
            None => found is None,
        },
{
    let tracks = timeline.tracks();
    if track >= tracks.len() {
        return None;
    }
    let clips = clips_in_order(&tracks[track]);
    let mut i: usize = 0;
    assert(clips@.skip(0) =~= clips@);
    while i < clips.len()
        invariant
            i <= clips@.len(),
            track < tracks@.len(),
            tracks@ == timeline@.tracks,
            clips@ == track_clips(tracks@[track as int]),
            first_clip(clips@, id) == first_clip(clips@.skip(i as int), id),
        decreases clips@.len() - i,
    {
        assert(clips@.skip(i as int)[0] == clips@[i as int]);
        if clips[i].id == id {
            return Some((clips[i].start, clips[i].duration));
        }
        assert(clips@.skip(i as int).skip(1) =~= clips@.skip(i + 1));
        i += 1;
    }
    None
}

/// The clips of a track with its number.
pub open spec fn numbered_clips(track: usize, clips: Seq<ActionClip>) -> Seq<(usize, ActionId)> {
    clips.map_values(|clip: ActionClip| (track, clip.id))
}

/// The clips of the first `n` tracks.
pub open spec fn clips_of_tracks(tracks: Seq<Track>, n: int) -> Seq<(usize, ActionId)>
    decreases n,
{
    if n <= 0 {
        Seq::empty()
    } else {
        clips_of_tracks(tracks, n - 1) + numbered_clips(
            (n - 1) as usize,
            track_clips(tracks[n - 1]),
        )
    }
}

/// The clips of all tracks.
pub open spec fn all_clips(model: TimelineModel) -> Seq<(usize, ActionId)> {
    clips_of_tracks(model.tracks, model.tracks.len() as int)
}

/// The clips of all tracks, track by track.
pub fn list_clips<W: Tagged>(timeline: &Timeline<W>) -> (list: Vec<(usize, ActionId)>)
    ensures
        list@ == all_clips(timeline@),
{
    let tracks = timeline.tracks();
    let mut list: Vec<(usize, ActionId)> = Vec::new();
    let mut t: usize = 0;
    while t < tracks.len()
        invariant
            t <= tracks@.len(),
            list@ == clips_of_tracks(tracks@, t as int),
        decreases tracks@.len() - t,
    {
        let clips = clips_in_order(&tracks[t]);
        let ghost before = list@;
        let ghost numbered = numbered_clips(t, clips@);
        let mut k: usize = 0;
        assert(before + numbered.take(0) =~= before);
        while k < clips.len()
            invariant
                k <= clips@.len(),
                numbered == numbered_clips(t, clips@),
                list@ == before + numbered.take(k as int),
            decreases clips@.len() - k,
        {
            list.push((t, clips[k].id));
            proof {
                take_one_more(numbered, k as int);
                assert(before + numbered.take(k + 1) =~= (before + numbered.take(k as int)).push(
                    numbered[k as int],
                ));
            }
            k += 1;
        }
        assert(numbered.take(k as int) =~= numbered);
        t += 1;
    }
    list
}

} // verus!
