//! Named time anchors of a timeline.
use crate::bevy_motiongfx::manager::TimelineId;
use crate::bevy_motiongfx::remote::batch::apply::stays_seekable;
use crate::bevy_motiongfx::remote::fault::Fault;
use crate::bevy_motiongfx::remote::state::events::{next_number, EventKind};
use crate::bevy_motiongfx::remote::state::markers::{by_name, names_ascend, Marker};
use crate::bevy_motiongfx::remote::state::EditsModel;
use crate::bevy_motiongfx::remote::studio::{Studio, StudioModel};
use crate::time::Ticks;
use vstd::prelude::*;

verus! {

/// A request to create or move a marker.
#[derive(Debug)]
pub struct MarkerSetParams {
    pub id: u64,
    pub name: String,
    pub time: Ticks,
    /// Where the playhead is, if absent.
    pub track: Option<usize>,
}

/// The track of a marker.
pub open spec fn marker_track(studio: StudioModel, p: MarkerSetParams) -> Option<usize> {
    match p.track {
        Some(track) => Some(track),
        None => if studio.timelines.contains_key(TimelineId { raw: p.id }) {
            Some(studio.timelines[TimelineId { raw: p.id }].curr_index)
        } else {
            None
        },
    }
}

/// What is kept about a timeline once a marker is set.
pub open spec fn marked(edits: EditsModel, name: String, marker: Marker) -> EditsModel {
    EditsModel { markers: edits.markers.insert(name@, marker), ..edits }.bumped().told(
        EventKind::MarkerSet {
            marker: name,
            track: marker.track,
            time: marker.time,
            version: next_number(edits.version),
        },
    )
}

/// Creates or moves a marker. Returns the new version.
pub fn marker_set(studio: &mut Studio, p: &MarkerSetParams) -> (result: Result<u64, Fault>)
    ensures
        match marker_track(old(studio)@, *p) {
            None => {
                &&& result == Err::<u64, Fault>(Fault::NoTimeline { id: p.id })
                &&& final(studio)@ == old(studio)@
            },
            Some(track) => {
                &&& result == Ok::<u64, Fault>(
                    next_number(old(studio)@.edits_of(TimelineId { raw: p.id }).version),
                )
                &&& final(studio)@ == old(studio)@.with_edits(
                    TimelineId { raw: p.id },
                    marked(
                        old(studio)@.edits_of(TimelineId { raw: p.id }),
                        p.name,
                        Marker { track, time: p.time },
                    ),
                )
            },
        },
        stays_seekable(old(studio)@, final(studio)@),
{
    let ghost before = studio@;
    let id = TimelineId::from_raw(p.id);
    let track: usize = match p.track {
        Some(track) => track,
        None => match studio.manager.get_timeline(&id) {
            Some(timeline) => timeline.curr_index(),
            None => {
                return Err(Fault::NoTimeline { id: p.id });
            },
        },
    };
    studio.state.set_marker(id, p.name.clone(), Marker { track, time: p.time });
    let version = studio.state.bump(id);
    studio.state.push_event(
        id,
        EventKind::MarkerSet { marker: p.name.clone(), track, time: p.time, version },
    );
    assert(studio@ =~= before.with_edits(
        id,
        marked(before.edits_of(id), p.name, Marker { track, time: p.time }),
    ));
    Ok(version)
}

/// What is kept about a timeline once a marker is dropped.
pub open spec fn unmarked(edits: EditsModel, name: String) -> EditsModel {
    EditsModel { markers: edits.markers.remove(name@), ..edits }.bumped().told(
        EventKind::MarkerRemoved { marker: name, version: next_number(edits.version) },
    )
}

/// Drops a marker. Returns the new version.
pub fn marker_remove(studio: &mut Studio, id: u64, name: &String) -> (result: Result<u64, Fault>)
    ensures
        if old(studio)@.edits_of(TimelineId { raw: id }).markers.contains_key(name@) {
            &&& result == Ok::<u64, Fault>(
                next_number(old(studio)@.edits_of(TimelineId { raw: id }).version),
            )
            &&& final(studio)@ == old(studio)@.with_edits(
                TimelineId { raw: id },
                unmarked(old(studio)@.edits_of(TimelineId { raw: id }), *name),
            )
        } else {
            &&& result == Err::<u64, Fault>(Fault::NoMarker { name: *name, id })
            &&& final(studio)@ == old(studio)@
        },
        stays_seekable(old(studio)@, final(studio)@),
{
    let ghost before = studio@;
    let tid = TimelineId::from_raw(id);
    if studio.state.marker(&tid, name.as_str()).is_none() {
        return Err(Fault::NoMarker { name: name.clone(), id });
    }
    studio.state.remove_marker(tid, name.as_str());
    let version = studio.state.bump(tid);
    studio.state.push_event(tid, EventKind::MarkerRemoved { marker: name.clone(), version });
    assert(studio@ =~= before.with_edits(tid, unmarked(before.edits_of(tid), *name)));
    Ok(version)
}

/// All markers of a timeline, in the order of their names.
pub fn marker_list(studio: &Studio, id: u64) -> (markers: Vec<(String, Marker)>)
    ensures
        names_ascend(markers@),
        by_name(markers@) == studio@.edits_of(TimelineId { raw: id }).markers,
{
    studio.state.markers(&TimelineId::from_raw(id))
}

/// A marker that was set is found again, until it is dropped, and no other
/// marker is touched by either.
pub proof fn markers_come_and_go(edits: EditsModel, name: String, marker: Marker)
    ensures
        marked(edits, name, marker).markers.contains_key(name@),
        marked(edits, name, marker).markers[name@] == marker,
        unmarked(marked(edits, name, marker), name).markers == edits.markers.remove(name@),
{
    assert(unmarked(marked(edits, name, marker), name).markers =~= edits.markers.remove(name@));
}

} // verus!
