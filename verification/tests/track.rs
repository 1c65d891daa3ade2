use motiongfx::action::registry::IdRegistry;
use motiongfx::action::{ActionClip, ActionId, ActionKey, UntypedSubjectId};
use motiongfx::remote::RemoteEditError;
use motiongfx::sequence::Sequence;
use motiongfx::subject::{EntityId, UntypedField};
use motiongfx::time::{Ticks, TICKS_PER_SECOND};
use motiongfx::track::ordering::{delay, TrackOrdering};
use motiongfx::track::TrackFragment;

const A: u64 = 1;
const B: u64 = 2;

/// A time in tenths of a second.
fn tenths(count: i64) -> Ticks {
    count * TICKS_PER_SECOND / 10
}

fn key(path: u64) -> ActionKey {
    ActionKey::new(
        UntypedSubjectId::placeholder(),
        UntypedField::placeholder_with_path(path),
    )
}

fn clip(duration: Ticks) -> ActionClip {
    ActionClip::new(ActionId::placeholder(), duration)
}

fn action(bits: u64) -> ActionId {
    ActionId { bits }
}

/// The start and the end of each clip of a lane.
fn lane(fragment: &TrackFragment, path: u64) -> Vec<(Ticks, Ticks)> {
    match fragment.sequence(&key(path)) {
        Some(sequence) => sequence.to_vec().iter().map(|clip| (clip.start, clip.end())).collect(),
        None => Vec::new(),
    }
}

#[test]
fn track_key_uniqueness() {
    // Sequences with 0 duration to prevent overlaps.
    let entity1 = EntityId { bits: 1 };
    let entity2 = EntityId { bits: 2 };
    let field_u32_a = UntypedField::placeholder_with_path(A);
    let field_u32_b = UntypedField::placeholder_with_path(B);

    let mut id_registry = IdRegistry::new();
    let id1 = id_registry.register_instance(entity1);
    let id2 = id_registry.register_instance(entity2);

    let k1 = ActionKey::new(UntypedSubjectId::new::<EntityId>(id1), field_u32_a);
    let k2 = ActionKey::new(UntypedSubjectId::new::<EntityId>(id2), field_u32_a);
    let k3 = ActionKey::new(UntypedSubjectId::new::<EntityId>(id1), field_u32_b);

    let track = TrackFragment::new()
        .upsert_sequence(k1, Sequence::new(clip(0)))
        .upsert_sequence(k2, Sequence::new(clip(0)))
        .upsert_sequence(k3, Sequence::new(clip(0)))
        // Similar key with the first sequence.
        .upsert_sequence(k1, Sequence::new(clip(0)));

    assert_eq!(track.keys().len(), 3);
}

#[test]
fn chain_duration_and_delay() {
    let track1 = TrackFragment::single(key(A), clip(tenths(10)));
    let track2 = TrackFragment::single(key(B), clip(tenths(20)));

    let track = vec![track1, track2].ord_chain();

    assert_eq!(track.duration(), tenths(30));
    let seq_b = track.sequence(&key(B)).unwrap();
    // `seq_b` should be delayed by the duration of `track1`.
    assert_eq!(seq_b.start(), tenths(10));
}

#[test]
fn all_duration_max() {
    let track1 = TrackFragment::single(key(A), clip(tenths(10)));
    let track2 = TrackFragment::single(key(B), clip(tenths(30)));

    let track = vec![track1, track2].ord_all();
    assert_eq!(track.duration(), tenths(30));
}

#[test]
fn any_duration_min() {
    let track1 = TrackFragment::single(key(A), clip(tenths(10)));
    let track2 = TrackFragment::single(key(B), clip(tenths(30)));

    let track = vec![track1, track2].ord_any();
    assert_eq!(track.duration(), tenths(10));
}

#[test]
fn flow_with_delay() {
    let track1 = TrackFragment::single(key(A), clip(tenths(10)));
    let track2 = TrackFragment::single(key(B), clip(tenths(10)));

    let track = vec![track1, track2].ord_flow(tenths(5));

    // The delay and the duration of the last track.
    assert_eq!(track.duration(), tenths(15));
    let seq_b = track.sequence(&key(B)).unwrap();
    assert_eq!(seq_b.start(), tenths(5));
}

#[test]
fn delay_applies_offset() {
    let track = TrackFragment::single(key(A), clip(tenths(20)));

    let track = delay(tenths(15), track);
    let seq_a = track.sequence(&key(A)).unwrap();

    assert_eq!(seq_a.start(), tenths(15));
    assert_eq!(seq_a.end(), tenths(35));
    assert_eq!(track.duration(), tenths(20));
}

#[test]
fn roundtrip_to_fragment_preserves_clips() {
    let frag = vec![
        TrackFragment::single(key(A), clip(tenths(10))),
        TrackFragment::single(key(B), clip(tenths(20))),
    ]
    .ord_all();
    let compiled = frag.compile();
    let rebuilt = compiled.to_fragment();

    assert_eq!(rebuilt.keys().len(), 2);
    assert_eq!(rebuilt.duration(), tenths(20));
    assert_eq!(rebuilt.sequence(&key(A)).unwrap().end(), tenths(10));
    assert_eq!(rebuilt.sequence(&key(B)).unwrap().end(), tenths(20));
}

#[test]
fn append_clip_schedules_after_existing() {
    let mut frag = TrackFragment::single(key(A), clip(tenths(10))).compile().to_fragment();

    let id = ActionId::placeholder();
    let start = frag.append_clip(key(A), ActionClip::new(id, tenths(20)), 0);
    assert_eq!(start, tenths(10));
    assert_eq!(frag.duration(), tenths(30));
    assert_eq!(frag.sequence(&key(A)).unwrap().len(), 2);
}

#[test]
fn append_clip_new_key_starts_at_start_at() {
    let mut frag = TrackFragment::single(key(A), clip(tenths(10))).compile().to_fragment();
    let id = ActionId::placeholder();
    let start = frag.append_clip(key(B), ActionClip::new(id, tenths(10)), tenths(5));
    assert_eq!(start, tenths(5));
    assert_eq!(frag.duration(), tenths(15));
}

#[test]
fn remove_clip_empties_sequence() {
    let action_id = action(7);
    let mut frag = TrackFragment::single(key(A), ActionClip::new(action_id, tenths(10)))
        .compile()
        .to_fragment();

    assert!(frag.remove_clip(&key(A), action_id));
    assert!(frag.keys().is_empty());
    assert_eq!(frag.duration(), 0);
    let _ = frag.compile();
}

#[test]
fn reschedule_clip_moves_start_and_updates_duration() {
    let action_id = action(9);
    let mut frag = TrackFragment::single(key(A), ActionClip::new(action_id, tenths(10)))
        .compile()
        .to_fragment();

    assert_eq!(frag.duration(), tenths(10));
    assert_eq!(frag.reschedule_clip(action_id, tenths(20), Some(tenths(30))), Ok(()));
    assert_eq!(frag.duration(), tenths(50));
    assert_eq!(frag.sequence(&key(A)).unwrap().start(), tenths(20));
    assert_eq!(frag.sequence(&key(A)).unwrap().end(), tenths(50));

    let other = action(10);
    assert_eq!(frag.reschedule_clip(other, 0, None), Err(RemoteEditError::NotFound));
}

#[test]
fn reschedule_clip_overlap_fails_without_mutating() {
    let first = action(11);
    let second = action(12);
    let mut frag = TrackFragment::single(key(A), ActionClip::new(first, tenths(10)));
    frag.append_clip(key(A), ActionClip::new(second, tenths(10)), 0);

    assert_eq!(
        frag.reschedule_clip(second, tenths(5), None),
        Err(RemoteEditError::Overlap { conflict: first })
    );

    assert_eq!(frag.sequence(&key(A)).unwrap().start(), 0);
    assert_eq!(frag.sequence(&key(A)).unwrap().end(), tenths(20));
    assert_eq!(frag.duration(), tenths(20));

    assert_eq!(
        frag.reschedule_clip(first, tenths(5), None),
        Err(RemoteEditError::Overlap { conflict: second })
    );
}

#[test]
fn removing_what_was_appended_restores_the_lane() {
    let mut frag = TrackFragment::single(key(A), ActionClip::new(action(1), tenths(10)));
    frag.append_clip(key(A), ActionClip::new(action(2), tenths(5)), tenths(20));
    assert_eq!(lane(&frag, A), vec![(0, tenths(10)), (tenths(20), tenths(25))]);

    assert!(frag.remove_clip(&key(A), action(2)));
    assert_eq!(lane(&frag, A), vec![(0, tenths(10))]);
    assert_eq!(frag.duration(), tenths(10));
    assert!(!frag.remove_clip(&key(A), action(2)));
    assert!(!frag.remove_clip(&key(B), action(1)));
}

#[test]
fn moving_a_clip_there_and_back_restores_the_lane() {
    let mut frag = TrackFragment::single(key(A), ActionClip::new(action(1), tenths(10)));
    frag.append_clip(key(A), ActionClip::new(action(2), tenths(10)), tenths(10));
    let before = lane(&frag, A);

    assert_eq!(frag.reschedule_clip(action(1), tenths(30), None), Ok(()));
    assert_eq!(
        lane(&frag, A),
        vec![(tenths(10), tenths(20)), (tenths(30), tenths(40))]
    );
    assert_eq!(frag.duration(), tenths(40));
    assert_eq!(frag.reschedule_clip(action(1), 0, None), Ok(()));
    assert_eq!(lane(&frag, A), before);
    assert_eq!(frag.duration(), tenths(20));
}

#[test]
fn chained_lanes_stay_apart() {
    let one = TrackFragment::single(key(A), clip(tenths(10)));
    let two = TrackFragment::single(key(A), clip(tenths(20)));
    let chained = vec![one, two].ord_chain();
    assert_eq!(lane(&chained, A), vec![(0, tenths(10)), (tenths(10), tenths(30))]);
}

#[test]
fn nothing_in_order_is_an_empty_track() {
    assert_eq!(Vec::<TrackFragment>::new().ord_chain().duration(), 0);
    assert_eq!(Vec::<TrackFragment>::new().ord_all().duration(), 0);
    assert_eq!(Vec::<TrackFragment>::new().ord_any().duration(), 0);
    assert!(Vec::<TrackFragment>::new().ord_flow(tenths(5)).keys().is_empty());
}

#[test]
fn a_compiled_track_is_sorted_by_field() {
    let track = vec![
        TrackFragment::single(key(B), clip(tenths(10))),
        TrackFragment::single(key(A), clip(tenths(20))),
    ]
    .ord_all()
    .compile();

    let fields: Vec<u64> = track.field_lookups().iter().map(|(field, _)| field.path).collect();
    assert_eq!(fields, vec![A, B]);
    let spans = track
        .lookup_field_spans(UntypedField::placeholder_with_path(B))
        .unwrap();
    assert_eq!(spans.len(), 1);
    assert_eq!(track.clips(spans[0].1).len(), 1);
    assert_eq!(track.clips(spans[0].1)[0].end(), tenths(10));
    assert!(track
        .lookup_field_spans(UntypedField::placeholder_with_path(9))
        .is_none());
    assert_eq!(track.sequences_spans().len(), 2);
}

#[test]
fn a_sequence_refuses_what_overlaps_its_last_clip() {
    let mut sequence = Sequence::new(clip(tenths(10)));
    let early = ActionClip { id: action(3), start: tenths(5), duration: tenths(1) };
    assert_eq!(sequence.try_push(early), Err(clip(tenths(10))));
    assert_eq!(sequence.len(), 1);

    let late = ActionClip { id: action(3), start: tenths(12), duration: tenths(1) };
    assert_eq!(sequence.try_push(late), Ok(()));
    assert_eq!(sequence.start(), 0);
    assert_eq!(sequence.end(), tenths(13));
    assert_eq!(sequence.duration(), tenths(13));
    sequence.push(ActionClip { id: action(4), start: tenths(13), duration: 0 });
    sequence.extend(vec![ActionClip { id: action(5), start: tenths(14), duration: tenths(1) }]);
    assert_eq!(sequence.len(), 4);
    assert_eq!(sequence.get(3).id, action(5));
    let starts: Vec<Ticks> = sequence.into_clips().iter().map(|clip| clip.start).collect();
    assert_eq!(starts, vec![0, tenths(12), tenths(13), tenths(14)]);
}

#[test]
fn registered_ids_are_counted() {
    let mut registry = IdRegistry::new();
    assert!(registry.is_empty());
    let first = registry.register_instance(EntityId { bits: 5 });
    let again = registry.register_instance(EntityId { bits: 5 });
    let other = registry.register_instance(EntityId { bits: 6 });
    assert_eq!(first, again);
    assert_ne!(first, other);
    assert_eq!(registry.get_uid(&EntityId { bits: 5 }), Some(&first));
    assert_eq!(registry.get_id(&other), Some(&EntityId { bits: 6 }));

    // Each instance that was registered is removed on its own.
    assert!(registry.remove_instance(&first));
    assert_eq!(registry.get_id(&first), Some(&EntityId { bits: 5 }));
    assert!(registry.remove_instance(&first));
    assert_eq!(registry.get_id(&first), None);
    assert!(!registry.remove_instance(&first));
    assert!(registry.remove_instance(&other));
    assert!(registry.is_empty());
}
