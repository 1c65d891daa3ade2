//! What is kept about the edits of each timeline.
use crate::bevy_motiongfx::manager::TimelineId;
use crate::bevy_motiongfx::remote::batch::op::{copy_text, Color};
use crate::bevy_motiongfx::remote::state::events::{
    event_models, next_number, EventKind, EventLog, EventsModel, StreamEvent,
};
use crate::bevy_motiongfx::remote::state::journal::{
    EditJournal, JournalEntry, JournalModel, JOURNAL_CAP,
};
use crate::bevy_motiongfx::remote::state::markers::{by_name, names_ascend, Marker, Markers};
use crate::table::Table;
use std::sync::Arc;
use vstd::prelude::*;

pub mod events;
pub mod journal;
pub mod laws;
pub mod markers;

verus! {

/// Presentation metadata a client may attach to a clip: a display label and
/// an RGB colour.
#[derive(Debug)]
pub struct ClipMeta {
    pub label: Option<String>,
    pub color: Option<Color>,
}

impl Default for ClipMeta {
    fn default() -> (meta: Self)
        ensures
            meta == ClipMeta::none(),
    {
        ClipMeta { label: None, color: None }
    }
}

impl ClipMeta {
    /// No metadata.
    pub open spec fn none() -> Self {
        ClipMeta { label: None, color: None }
    }

    /// Whether no field is set.
    pub open spec fn spec_is_empty(&self) -> bool {
        self.label is None && self.color is None
    }

    /// `true` when no field is set (an empty meta is dropped from the table
    /// rather than stored).
    #[verifier::when_used_as_spec(spec_is_empty)]
    pub fn is_empty(&self) -> (empty: bool)
        ensures
            empty == self.spec_is_empty(),
    {
        self.label.is_none() && self.color.is_none()
    }

    /// A copy of the metadata.
    pub fn copy(&self) -> (copy: Self)
        ensures
            copy == *self,
    {
        ClipMeta { label: copy_text(&self.label), color: self.color }
    }
}

/// What is kept about the edits of one timeline.
pub struct TimelineEdits {
    version: u64,
    journal: Option<EditJournal>,
    /// Markers are *not* journaled (they're navigation aids, not content).
    markers: Markers,
    name: Option<String>,
    /// Clip labels/colours, keyed by raw action id bits.
    clip_meta: Table<u64, ClipMeta>,
    events: EventLog,
    /// Asset-clip addressing: the handle-bearing entity bits and the
    /// `asset_of` component path by action id.
    asset_refs: Table<u64, (u64, String)>,
}

/// What is kept about the edits of one timeline.
#[verifier::ext_equal]
pub struct EditsModel {
    pub version: u64,
    pub journal: Option<JournalModel>,
    pub markers: Map<Seq<char>, Marker>,
    pub name: Option<String>,
    pub clip_meta: Map<u64, ClipMeta>,
    pub events: EventsModel,
    pub asset_refs: Map<u64, (u64, String)>,
}

impl EditsModel {
    /// What is kept about a timeline that was never edited.
    pub open spec fn empty() -> Self {
        EditsModel {
            version: 0,
            journal: None,
            markers: Map::empty(),
            name: None,
            clip_meta: Map::empty(),
            events: EventsModel::empty(),
            asset_refs: Map::empty(),
        }
    }

    /// One more edit.
    pub open spec fn bumped(self) -> Self {
        EditsModel { version: next_number(self.version), ..self }
    }

    /// One more event.
    pub open spec fn told(self, kind: EventKind) -> Self {
        EditsModel { events: self.events.pushed(kind), ..self }
    }

    /// The journal, which is empty before the first edit.
    pub open spec fn journal_or_empty(self) -> JournalModel {
        match self.journal {
            Some(journal) => journal,
            None => JournalModel::empty(),
        }
    }

    /// The metadata of a clip.
    pub open spec fn meta_of(self, action: u64) -> ClipMeta {
        if self.clip_meta.contains_key(action) {
            self.clip_meta[action]
        } else {
            ClipMeta::none()
        }
    }

    /// The clip with other metadata. There is no entry for empty metadata.
    pub open spec fn with_meta(self, action: u64, meta: ClipMeta) -> Self {
        EditsModel {
            clip_meta: if meta.is_empty() {
                self.clip_meta.remove(action)
            } else {
                self.clip_meta.insert(action, meta)
            },
            ..self
        }
    }

    /// Without what belongs to the clip.
    pub open spec fn without_clip(self, action: u64) -> Self {
        EditsModel {
            clip_meta: self.clip_meta.remove(action),
            asset_refs: self.asset_refs.remove(action),
            ..self
        }
    }

    /// Without what belongs to any clip.
    pub open spec fn without_clips(self) -> Self {
        EditsModel { clip_meta: Map::empty(), asset_refs: Map::empty(), ..self }
    }
}

/// What is kept about the edits of each timeline.
pub type Edits = Map<TimelineId, EditsModel>;

/// What is kept about a timeline, which is nothing before its first edit.
pub open spec fn edits_of(edits: Edits, id: TimelineId) -> EditsModel {
    if edits.contains_key(id) {
        edits[id]
    } else {
        EditsModel::empty()
    }
}

impl View for TimelineEdits {
    type V = EditsModel;

    closed spec fn view(&self) -> EditsModel {
        EditsModel {
            version: self.version,
            journal: match self.journal {
                Some(journal) => Some(journal@),
                None => None,
            },
            markers: self.markers@,
            name: self.name,
            clip_meta: self.clip_meta@,
            events: self.events@,
            asset_refs: self.asset_refs@,
        }
    }
}

impl TimelineEdits {
    /// What is kept about a timeline that was never edited.
    fn new() -> (edits: Self)
        ensures
            edits@ == EditsModel::empty(),
    {
        TimelineEdits {
            version: 0,
            journal: None,
            markers: Markers::new(),
            name: None,
            clip_meta: Table::new(),
            events: EventLog::new(),
            asset_refs: Table::new(),
        }
    }
}

/// Per-timeline edit state: an always-increasing *edit version* (bumped by
/// every successful mutating request) plus the undo/redo journal. The version
/// is the cheap multi-client sync primitive: clients inspect again only when
/// it moves.
pub struct MotionGfxEditState {
    edits: Table<TimelineId, TimelineEdits>,
}

impl View for MotionGfxEditState {
    type V = Edits;

    closed spec fn view(&self) -> Edits {
        self.edits@.map_values(|edits: TimelineEdits| edits@)
    }
}

impl Default for MotionGfxEditState {
    fn default() -> (state: Self)
        ensures
            state@ == Map::<TimelineId, EditsModel>::empty(),
    {
        let state = MotionGfxEditState { edits: Table::new() };
        assert(state@ =~= Map::<TimelineId, EditsModel>::empty());
        state
    }
}

impl MotionGfxEditState {
    /// Takes what is kept about a timeline out, to change it.
    fn take(&mut self, id: &TimelineId) -> (edits: TimelineEdits)
        ensures
            edits@ == edits_of(old(self)@, *id),
            final(self)@ == old(self)@.remove(*id),
    {
        let ghost before = self@;
        let edits = match self.edits.remove(id) {
            Some(edits) => edits,
            None => TimelineEdits::new(),
        };
        assert(self@ =~= before.remove(*id));
        edits
    }

    /// Puts what is kept about a timeline back.
    fn put(&mut self, id: TimelineId, edits: TimelineEdits)
        ensures
            final(self)@ == old(self)@.insert(id, edits@),
    {
        let ghost before = self@;
        self.edits.insert(id, edits);
        assert(self@ =~= before.insert(id, edits@));
    }

    /// Record a successful edit on `id`, returning the new version.
    pub fn bump(&mut self, id: TimelineId) -> (version: u64)
        ensures
            final(self)@ == old(self)@.insert(id, edits_of(old(self)@, id).bumped()),
            version == next_number(edits_of(old(self)@, id).version),
    {
        let mut edits = self.take(&id);
        edits.version = edits.version.saturating_add(1);
        let version = edits.version;
        assert(edits@ =~= edits_of(old(self)@, id).bumped());
        self.put(id, edits);
        assert(self@ =~= old(self)@.insert(id, edits@));
        version
    }

    /// The current edit version of `id` (`0` if never edited).
    pub fn version(&self, id: &TimelineId) -> (version: u64)
        ensures
            version == edits_of(self@, *id).version,
    {
        match self.edits.get(id) {
            Some(edits) => edits.version,
            None => 0,
        }
    }

    /// Journal a successful edit (one entry per request).
    pub fn record(&mut self, id: TimelineId, entry: JournalEntry)
        ensures
            final(self)@ == old(self)@.insert(
                id,
                EditsModel {
                    journal: Some(edits_of(old(self)@, id).journal_or_empty().recorded(entry@)),
                    ..edits_of(old(self)@, id)
                },
            ),
    {
        let mut edits = self.take(&id);
        let ghost before = edits@;
        let mut slot: Option<EditJournal> = None;
        core::mem::swap(&mut slot, &mut edits.journal);
        let mut journal = match slot {
            Some(journal) => journal,
            None => EditJournal::new(),
        };
        journal.record(entry);
        edits.journal = Some(journal);
        assert(edits@ =~= (EditsModel {
            journal: Some(before.journal_or_empty().recorded(entry@)),
            ..before
        }));
        self.put(id, edits);
        assert(self@ =~= old(self)@.insert(id, edits@));
    }

    /// Takes the entry of `id` to step through next in a direction.
    pub fn pop_entry(&mut self, id: TimelineId, redo: bool) -> (entry: Option<JournalEntry>)
        ensures
            entry is None <==> edits_of(old(self)@, id).journal_or_empty().stack(redo).len() == 0,
            entry is None ==> final(self)@ == old(self)@,
            entry is Some ==> {
                let before = edits_of(old(self)@, id);
                &&& before.journal is Some
                &&& entry->0@ == before.journal->0.stack(redo).last()
                &&& final(self)@ == old(self)@.insert(
                    id,
                    EditsModel { journal: Some(before.journal->0.popped(redo)), ..before },
                )
                &&& before.journal->0.popped(redo).size() < JOURNAL_CAP
            },
    {
        match self.edits.get(&id) {
            Some(edits) => match &edits.journal {
                Some(journal) => {
                    let depth = if redo {
                        journal.redo_len()
                    } else {
                        journal.undo_len()
                    };
                    if depth == 0 {
                        return None;
                    }
                },
                None => {
                    return None;
                },
            },
            None => {
                return None;
            },
        }
        let mut edits = self.take(&id);
        let ghost before = edits@;
        let mut slot: Option<EditJournal> = None;
        core::mem::swap(&mut slot, &mut edits.journal);
        let mut journal = match slot {
            Some(journal) => journal,
            None => EditJournal::new(),
        };
        let entry = journal.pop(redo);
        edits.journal = Some(journal);
        assert(edits@ =~= (EditsModel {
            journal: Some(before.journal->0.popped(redo)),
            ..before
        }));
        self.put(id, edits);
        assert(self@ =~= old(self)@.insert(id, edits@));
        entry
    }

    /// Points every reference to the actions of `remaps` at what they are
    /// called now, then puts the entry where it can be stepped back.
    pub fn push_entry(&mut self, id: TimelineId, redo: bool, entry: JournalEntry, remaps: &Vec<
        (u64, u64),
    >)
        requires
            edits_of(old(self)@, id).journal is Some,
            edits_of(old(self)@, id).journal->0.size() < JOURNAL_CAP,
        ensures
            final(self)@ == old(self)@.insert(
                id,
                EditsModel {
                    journal: Some(
                        remapped_journal(edits_of(old(self)@, id).journal->0, remaps@).stepped(
                            redo,
                            remapped_entry(entry@, remaps@),
                        ),
                    ),
                    ..edits_of(old(self)@, id)
                },
            ),
    {
        let mut edits = self.take(&id);
        let ghost before = edits@;
        let mut slot: Option<EditJournal> = None;
        core::mem::swap(&mut slot, &mut edits.journal);
        let mut journal = match slot {
            Some(journal) => journal,
            None => EditJournal::new(),
        };
        let mut entry = entry;
        let ghost first = entry@;
        let ghost kept = before.journal->0;
        let mut i: usize = 0;
        assert(remaps@.take(0) =~= Seq::<(u64, u64)>::empty());
        while i < remaps.len()
            invariant
                i <= remaps@.len(),
                entry@ == remapped_entry(first, remaps@.take(i as int)),
                journal@ == remapped_journal(kept, remaps@.take(i as int)),
                journal@.size() == kept.size(),
            decreases remaps@.len() - i,
        {
            proof {
                assert(remaps@.take(i + 1).drop_last() =~= remaps@.take(i as int));
            }
            let (from, to) = remaps[i];
            entry.remap_action_id(from, to);
            journal.remap_action_id(from, to);
            i += 1;
        }
        assert(remaps@.take(i as int) =~= remaps@);
        journal.push(redo, entry);
        edits.journal = Some(journal);
        assert(edits@ =~= (EditsModel { journal: Some(journal@), ..before }));
        self.put(id, edits);
        assert(self@ =~= old(self)@.insert(id, edits@));
    }

    /// Read-only view of `id`'s journal, if it ever recorded an edit.
    pub fn journal(&self, id: &TimelineId) -> (journal: Option<&EditJournal>)
        ensures
            journal is Some <==> edits_of(self@, *id).journal is Some,
            journal is Some ==> Some(journal->0@) == edits_of(self@, *id).journal,
    {
        match self.edits.get(id) {
            Some(edits) => match &edits.journal {
                Some(journal) => Some(journal),
                None => None,
            },
            None => None,
        }
    }

    /// The markers of `id` with their names, in the order of the names.
    pub fn markers(&self, id: &TimelineId) -> (markers: Vec<(String, Marker)>)
        ensures
            names_ascend(markers@),
            by_name(markers@) == edits_of(self@, *id).markers,
    {
        let mut copy: Vec<(String, Marker)> = Vec::new();
        match self.edits.get(id) {
            Some(edits) => {
                let list = edits.markers.list();
                let mut i: usize = 0;
                while i < list.len()
                    invariant
                        i <= list@.len(),
                        copy@ == list@.take(i as int),
                    decreases list@.len() - i,
                {
                    copy.push((list[i].0.clone(), list[i].1));
                    assert(copy@ =~= list@.take(i + 1));
                    i += 1;
                }
                assert(copy@ =~= list@);
            },
            None => {
                assert(by_name(copy@) =~= Map::<Seq<char>, Marker>::empty());
            },
        }
        copy
    }

    /// The marker of `id` with the name.
    pub fn marker(&self, id: &TimelineId, name: &str) -> (marker: Option<Marker>)
        ensures
            marker is Some <==> edits_of(self@, *id).markers.contains_key(name@),
            marker is Some ==> marker->0 == edits_of(self@, *id).markers[name@],
    {
        match self.edits.get(id) {
            Some(edits) => edits.markers.get(name),
            None => None,
        }
    }

    /// Creates or moves a marker of `id`.
    pub fn set_marker(&mut self, id: TimelineId, name: String, marker: Marker)
        ensures
            final(self)@ == old(self)@.insert(
                id,
                EditsModel {
                    markers: edits_of(old(self)@, id).markers.insert(name@, marker),
                    ..edits_of(old(self)@, id)
                },
            ),
    {
        let mut edits = self.take(&id);
        let ghost before = edits@;
        edits.markers.set(name, marker);
        assert(edits@ =~= (EditsModel {
            markers: before.markers.insert(name@, marker),
            ..before
        }));
        self.put(id, edits);
        assert(self@ =~= old(self)@.insert(id, edits@));
    }

    /// Drops a marker of `id`. Returns it.
    pub fn remove_marker(&mut self, id: TimelineId, name: &str) -> (marker: Option<Marker>)
        ensures
            marker is Some <==> edits_of(old(self)@, id).markers.contains_key(name@),
            marker is Some ==> marker->0 == edits_of(old(self)@, id).markers[name@],
            final(self)@ == old(self)@.insert(
                id,
                EditsModel {
                    markers: edits_of(old(self)@, id).markers.remove(name@),
                    ..edits_of(old(self)@, id)
                },
            ),
    {
        let mut edits = self.take(&id);
        let ghost before = edits@;
        let marker = edits.markers.remove(name);
        assert(edits@ =~= (EditsModel { markers: before.markers.remove(name@), ..before }));
        self.put(id, edits);
        assert(self@ =~= old(self)@.insert(id, edits@));
        marker
    }

    /// Drops all markers of `id`.
    pub fn clear_markers(&mut self, id: TimelineId)
        ensures
            final(self)@ == old(self)@.insert(
                id,
                EditsModel { markers: Map::empty(), ..edits_of(old(self)@, id) },
            ),
    {
        let mut edits = self.take(&id);
        let ghost before = edits@;
        edits.markers.clear();
        assert(edits@ =~= (EditsModel { markers: Map::empty(), ..before }));
        self.put(id, edits);
        assert(self@ =~= old(self)@.insert(id, edits@));
    }

    /// The display name of `id`, if one was set.
    pub fn name(&self, id: &TimelineId) -> (name: Option<&String>)
        ensures
            name is Some <==> edits_of(self@, *id).name is Some,
            name is Some ==> Some(*name->0) == edits_of(self@, *id).name,
    {
        match self.edits.get(id) {
            Some(edits) => match &edits.name {
                Some(name) => Some(name),
                None => None,
            },
            None => None,
        }
    }

    /// Set (`Some`) or clear (`None`) the display name of `id`.
    pub fn set_name(&mut self, id: TimelineId, name: Option<String>)
        ensures
            final(self)@ == old(self)@.insert(
                id,
                EditsModel { name, ..edits_of(old(self)@, id) },
            ),
    {
        let mut edits = self.take(&id);
        let ghost before = edits@;
        edits.name = name;
        assert(edits@ =~= (EditsModel { name, ..before }));
        self.put(id, edits);
        assert(self@ =~= old(self)@.insert(id, edits@));
    }

    /// The metadata of one clip, if any was attached.
    pub fn clip_meta(&self, id: &TimelineId, action: u64) -> (meta: Option<&ClipMeta>)
        ensures
            meta is Some <==> edits_of(self@, *id).clip_meta.contains_key(action),
            meta is Some ==> *meta->0 == edits_of(self@, *id).clip_meta[action],
    {
        match self.edits.get(id) {
            Some(edits) => edits.clip_meta.get(&action),
            None => None,
        }
    }

    /// A copy of the metadata of one clip, empty if none was attached.
    pub fn meta_of(&self, id: &TimelineId, action: u64) -> (meta: ClipMeta)
        ensures
            meta == edits_of(self@, *id).meta_of(action),
    {
        match self.clip_meta(id, action) {
            Some(meta) => meta.copy(),
            None => ClipMeta::default(),
        }
    }

    /// The clips of `id` that have metadata (for inspect/export walks).
    pub fn clip_meta_map(&self, id: &TimelineId) -> (actions: Vec<u64>)
        ensures
            actions@.no_duplicates(),
            forall|action: u64|
                actions@.contains(action) <==> edits_of(self@, *id).clip_meta.contains_key(action),
    {
        match self.edits.get(id) {
            Some(edits) => edits.clip_meta.keys(),
            None => Vec::new(),
        }
    }

    /// Attach `meta` to a clip. An empty meta deletes the entry.
    pub fn set_clip_meta(&mut self, id: TimelineId, action: u64, meta: ClipMeta)
        ensures
            final(self)@ == old(self)@.insert(
                id,
                edits_of(old(self)@, id).with_meta(action, meta),
            ),
    {
        let mut edits = self.take(&id);
        let ghost before = edits@;
        if meta.is_empty() {
            edits.clip_meta.remove(&action);
        } else {
            edits.clip_meta.insert(action, meta);
        }
        assert(edits@ =~= before.with_meta(action, meta));
        self.put(id, edits);
        assert(self@ =~= old(self)@.insert(id, edits@));
    }

    /// Drop one clip's metadata (when the clip is removed).
    pub fn remove_clip_meta(&mut self, id: TimelineId, action: u64) -> (meta: Option<ClipMeta>)
        ensures
            meta is Some <==> edits_of(old(self)@, id).clip_meta.contains_key(action),
            meta is Some ==> meta->0 == edits_of(old(self)@, id).clip_meta[action],
            final(self)@ == old(self)@.insert(
                id,
                EditsModel {
                    clip_meta: edits_of(old(self)@, id).clip_meta.remove(action),
                    ..edits_of(old(self)@, id)
                },
            ),
    {
        let mut edits = self.take(&id);
        let ghost before = edits@;
        let meta = edits.clip_meta.remove(&action);
        assert(edits@ =~= (EditsModel { clip_meta: before.clip_meta.remove(action), ..before }));
        self.put(id, edits);
        assert(self@ =~= old(self)@.insert(id, edits@));
        meta
    }

    /// Drop every clip's metadata on `id` (timeline cleared).
    pub fn clear_clip_meta(&mut self, id: &TimelineId)
        ensures
            final(self)@ == old(self)@.insert(
                *id,
                EditsModel { clip_meta: Map::empty(), ..edits_of(old(self)@, *id) },
            ),
    {
        let mut edits = self.take(id);
        let ghost before = edits@;
        edits.clip_meta = Table::new();
        assert(edits@ =~= (EditsModel { clip_meta: Map::empty(), ..before }));
        self.put(*id, edits);
        assert(self@ =~= old(self)@.insert(*id, edits@));
    }

    /// Append a stream event. Its number is assigned here. Returns the
    /// number.
    pub fn push_event(&mut self, id: TimelineId, kind: EventKind) -> (seq: u64)
        ensures
            final(self)@ == old(self)@.insert(id, edits_of(old(self)@, id).told(kind)),
            seq == next_number(edits_of(old(self)@, id).events.seq),
    {
        let mut edits = self.take(&id);
        let ghost before = edits@;
        let seq = edits.events.push(kind);
        assert(edits@ =~= before.told(kind));
        self.put(id, edits);
        assert(self@ =~= old(self)@.insert(id, edits@));
        seq
    }

    /// The latest event number of `id` (`0` = no events yet).
    pub fn event_seq(&self, id: &TimelineId) -> (seq: u64)
        ensures
            seq == edits_of(self@, *id).events.seq,
            edits_of(self@, *id).events.without_gaps(),
    {
        match self.edits.get(id) {
            Some(edits) => edits.events.seq(),
            None => 0,
        }
    }

    /// All buffered events with a number greater than `after`, oldest first.
    pub fn events_since(&self, id: &TimelineId, after: u64) -> (events: Vec<Arc<StreamEvent>>)
        ensures
            event_models(events@) == edits_of(self@, *id).events.since(after),
    {
        match self.edits.get(id) {
            Some(edits) => edits.events.since(after),
            None => {
                let events: Vec<Arc<StreamEvent>> = Vec::new();
                proof {
                    reveal(Seq::filter);
                    assert(event_models(events@) =~= EventsModel::empty().since(after));
                }
                events
            },
        }
    }

    /// The oldest buffered event number (to detect watchers that fell off
    /// the back of the ring buffer).
    pub fn oldest_event_seq(&self, id: &TimelineId) -> (seq: Option<u64>)
        ensures
            seq == (if edits_of(self@, *id).events.events.len() > 0 {
                Some(edits_of(self@, *id).events.events[0].seq)
            } else {
                None
            }),
    {
        match self.edits.get(id) {
            Some(edits) => edits.events.oldest(),
            None => None,
        }
    }

    /// The asset addressing of one clip, when it animates an asset.
    pub fn asset_ref(&self, id: &TimelineId, action: u64) -> (asset: Option<&(u64, String)>)
        ensures
            asset is Some <==> edits_of(self@, *id).asset_refs.contains_key(action),
            asset is Some ==> *asset->0 == edits_of(self@, *id).asset_refs[action],
    {
        match self.edits.get(id) {
            Some(edits) => edits.asset_refs.get(&action),
            None => None,
        }
    }

    /// Record an asset clip's addressing at insert time.
    pub fn set_asset_ref(&mut self, id: TimelineId, action: u64, entity: u64, asset_of: String)
        ensures
            final(self)@ == old(self)@.insert(
                id,
                EditsModel {
                    asset_refs: edits_of(old(self)@, id).asset_refs.insert(
                        action,
                        (entity, asset_of),
                    ),
                    ..edits_of(old(self)@, id)
                },
            ),
    {
        let mut edits = self.take(&id);
        let ghost before = edits@;
        edits.asset_refs.insert(action, (entity, asset_of));
        assert(edits@ =~= (EditsModel {
            asset_refs: before.asset_refs.insert(action, (entity, asset_of)),
            ..before
        }));
        self.put(id, edits);
        assert(self@ =~= old(self)@.insert(id, edits@));
    }

    /// Drop one clip's asset addressing (when the clip is removed).
    pub fn remove_asset_ref(&mut self, id: TimelineId, action: u64)
        ensures
            final(self)@ == old(self)@.insert(
                id,
                EditsModel {
                    asset_refs: edits_of(old(self)@, id).asset_refs.remove(action),
                    ..edits_of(old(self)@, id)
                },
            ),
    {
        let mut edits = self.take(&id);
        let ghost before = edits@;
        edits.asset_refs.remove(&action);
        assert(edits@ =~= (EditsModel { asset_refs: before.asset_refs.remove(action), ..before }));
        self.put(id, edits);
        assert(self@ =~= old(self)@.insert(id, edits@));
    }

    /// Drop every clip's asset addressing on `id` (timeline cleared).
    pub fn clear_asset_refs(&mut self, id: &TimelineId)
        ensures
            final(self)@ == old(self)@.insert(
                *id,
                EditsModel { asset_refs: Map::empty(), ..edits_of(old(self)@, *id) },
            ),
    {
        let mut edits = self.take(id);
        let ghost before = edits@;
        edits.asset_refs = Table::new();
        assert(edits@ =~= (EditsModel { asset_refs: Map::empty(), ..before }));
        self.put(*id, edits);
        assert(self@ =~= old(self)@.insert(*id, edits@));
    }

    /// Drop all state for a removed timeline.
    pub fn forget(&mut self, id: &TimelineId)
        ensures
            final(self)@ == old(self)@.remove(*id),
            edits_of(final(self)@, *id) == EditsModel::empty(),
    {
        let ghost before = self@;
        self.edits.remove(id);
        assert(self@ =~= before.remove(*id));
    }
}

/// The entry with the actions of `remaps` called what they are now.
pub open spec fn remapped_entry(
    entry: journal::EntryModel,
    remaps: Seq<(u64, u64)>,
) -> journal::EntryModel
    decreases remaps.len(),
{
    if remaps.len() == 0 {
        entry
    } else {
        remapped_entry(entry, remaps.drop_last()).remapped(remaps.last().0, remaps.last().1)
    }
}

/// The journal with the actions of `remaps` called what they are now.
pub open spec fn remapped_journal(journal: JournalModel, remaps: Seq<(u64, u64)>) -> JournalModel
    decreases remaps.len(),
{
    if remaps.len() == 0 {
        journal
    } else {
        remapped_journal(journal, remaps.drop_last()).remapped(remaps.last().0, remaps.last().1)
    }
}

/// Every edit moves the version of its timeline and no other.
pub proof fn versions_increase(edits: Edits, id: TimelineId, other: TimelineId)
    requires
        edits_of(edits, id).version < u64::MAX,
        other != id,
    ensures
        ({
            let after = edits.insert(id, edits_of(edits, id).bumped());
            &&& edits_of(after, id).version == edits_of(edits, id).version + 1
            &&& edits_of(after, other) == edits_of(edits, other)
        }),
{
}

/// Metadata that is set is what is read back, and empty metadata is not kept.
pub proof fn meta_reads_back(edits: EditsModel, action: u64, meta: ClipMeta)
    ensures
        edits.with_meta(action, meta).meta_of(action) == meta,
        meta.is_empty() ==> !edits.with_meta(action, meta).clip_meta.contains_key(action),
{
}

} // verus!
