//! Tracks in the dense layout that they are played from.
use crate::action::{ActionClip, ActionKey};
use crate::seqs::{insert_adds_one, take_one_more};
use crate::sequence::Sequence;
use crate::subject::UntypedField;
use crate::table::Table;
use crate::time::Ticks;
use crate::track::{Lanes, Span, TrackFragment};
use vstd::prelude::*;
use vstd::slice::slice_subrange;

verus! {

/// A compiled dense action sequences, optimized for playback and
/// queries.
///
/// A `Track` is created from a [`TrackFragment`] and provides an
/// immutable, space-efficient layout. [`ActionClip`]s are stored
/// in a flat array with spans for quick access.
pub struct Track {
    /// Lookup from each field to the range of actions affecting it.
    ///
    /// Each entry holds an [`UntypedField`] and a [`Span`] into
    /// `sequence_spans`.
    field_lookups: Vec<(UntypedField, Span)>,
    /// [`ActionClip`]s grouped by [`ActionKey`], sorted by field.
    ///
    /// Each entry holds an [`ActionKey`] and a [`Span`] into
    /// `clip_arena`.
    sequence_spans: Vec<(ActionKey, Span)>,
    /// Contiguous storage of all action clips.
    clip_arena: Vec<ActionClip>,
    /// Total duration of the track.
    duration: Ticks,
}

/// Whether the span holds the place `i`.
pub open spec fn covers(span: Span, i: int) -> bool {
    span.offset <= i < span.offset + span.len
}

/// Where the first `count` spans end.
pub open spec fn spans_end(spans: Seq<(ActionKey, Span)>, count: int) -> int {
    if count <= 0 {
        0
    } else {
        spans[count - 1].1.offset + spans[count - 1].1.len
    }
}

/// Whether the spans are the non-empty parts of a list of `len`: the first
/// starts it, each starts where the one in front of it ends, and the last ends
/// it. They are of different keys, in the order of their fields.
pub open spec fn spans_laid_out(spans: Seq<(ActionKey, Span)>, len: int) -> bool {
    &&& forall|i: int|
        0 <= i < spans.len() ==> spans[i].1.offset == #[trigger] spans_end(spans, i)
    &&& spans_end(spans, spans.len() as int) == len
    &&& forall|i: int|
        0 <= i < spans.len() ==> (#[trigger] spans[i]).1.len >= 1 && spans[i].1.offset
            + spans[i].1.len <= len
    &&& forall|i: int, j: int|
        0 <= i < j < spans.len() ==> (#[trigger] spans[i]).1.offset + spans[i].1.len <= (
        #[trigger] spans[j]).1.offset
    &&& forall|i: int, j: int|
        0 <= i < j < spans.len() ==> (#[trigger] spans[i]).0 != (#[trigger] spans[j]).0
    &&& forall|i: int, j: int|
        0 <= i < j < spans.len() ==> (#[trigger] spans[i]).0.field.sorts_at_most(
            (#[trigger] spans[j]).0.field,
        )
}

/// Whether one of the lookups holds the place `i`.
pub open spec fn looked_up(lookups: Seq<(UntypedField, Span)>, i: int) -> bool {
    exists|l: int| 0 <= l < lookups.len() && #[trigger] covers(lookups[l].1, i)
}

/// Whether the lookups name, in the order of the fields, which of the first
/// `upto` spans belong to each field.
pub open spec fn lookups_laid_out(
    lookups: Seq<(UntypedField, Span)>,
    spans: Seq<(ActionKey, Span)>,
    upto: int,
) -> bool {
    &&& forall|l: int|
        0 <= l < lookups.len() ==> (#[trigger] lookups[l]).1.len >= 1 && lookups[l].1.offset
            + lookups[l].1.len <= upto
    &&& forall|l: int, i: int|
        0 <= l < lookups.len() && #[trigger] covers(lookups[l].1, i) ==> spans[i].0.field
            == lookups[l].0
    &&& forall|i: int| 0 <= i < upto ==> #[trigger] looked_up(lookups, i)
    &&& forall|a: int, b: int|
        0 <= a < b < lookups.len() ==> (#[trigger] lookups[a]).0.sorts_at_most(
            (#[trigger] lookups[b]).0,
        ) && lookups[a].0 != lookups[b].0
}

impl Track {
    /// The fields and the spans that belong to them.
    pub closed spec fn lookups(self) -> Seq<(UntypedField, Span)> {
        self.field_lookups@
    }

    /// The keys and where their clips are.
    pub closed spec fn spans(self) -> Seq<(ActionKey, Span)> {
        self.sequence_spans@
    }

    /// All clips.
    pub closed spec fn arena(self) -> Seq<ActionClip> {
        self.clip_arena@
    }

    /// The duration of the track.
    pub closed spec fn spec_duration(&self) -> Ticks {
        self.duration
    }

    /// The clips of a span.
    pub open spec fn clips_in(self, span: Span) -> Seq<ActionClip> {
        self.arena().subrange(span.offset as int, span.offset + span.len)
    }

    /// The clips of each key.
    pub open spec fn lanes(self) -> Lanes {
        Map::new(
            |key: ActionKey|
                exists|i: int| 0 <= i < self.spans().len() && (#[trigger] self.spans()[i]).0 == key,
            |key: ActionKey|
                {
                    let i = choose|i: int|
                        0 <= i < self.spans().len() && (#[trigger] self.spans()[i]).0 == key;
                    self.clips_in(self.spans()[i].1)
                },
        )
    }

    /// Whether the spans and the lookups fit the clips.
    #[verifier::type_invariant]
    pub open spec fn laid_out(self) -> bool {
        &&& spans_laid_out(self.spans(), self.arena().len() as int)
        &&& lookups_laid_out(self.lookups(), self.spans(), self.spans().len() as int)
    }

    /// The lane of the key at `i` is what its span holds.
    pub proof fn lane_at(self, i: int)
        requires
            self.laid_out(),
            0 <= i < self.spans().len(),
        ensures
            self.lanes().contains_key(self.spans()[i].0),
            self.lanes()[self.spans()[i].0] == self.clips_in(self.spans()[i].1),
    {
        let key = self.spans()[i].0;
        let j = choose|j: int| 0 <= j < self.spans().len() && (#[trigger] self.spans()[j]).0 == key;
        assert(self.spans()[j].0 == key);
        if i < j {
            assert(self.spans()[i].0 != self.spans()[j].0);
        } else if j < i {
            assert(self.spans()[j].0 != self.spans()[i].0);
        }
    }

    /// The sequences that animate `field`, none if there is no such field.
    pub fn lookup_field_spans(&self, field: UntypedField) -> (found: Option<
        &[(ActionKey, Span)],
    >)
        ensures
            found is None ==> forall|i: int|
                0 <= i < self.spans().len() ==> (#[trigger] self.spans()[i]).0.field != field,
            found is Some ==> exists|span: Span|
                #![trigger self.spans().subrange(span.offset as int, span.offset + span.len)]
                span.len >= 1 && span.offset + span.len <= self.spans().len() && found->0@
                    == self.spans().subrange(span.offset as int, span.offset + span.len) && (
                forall|i: int|
                    0 <= i < self.spans().len() ==> ((#[trigger] self.spans()[i]).0.field == field
                        <==> covers(span, i))),
    {
        proof {
            use_type_invariant(self);
        }
        let mut low: usize = 0;
        let mut high: usize = self.field_lookups.len();
        while low < high
            invariant
                self.laid_out(),
                low <= high <= self.field_lookups@.len(),
                forall|l: int| 0 <= l < low ==> (#[trigger] self.field_lookups@[l]).0 != field,
                forall|l: int|
                    high <= l < self.field_lookups@.len() ==> (
                    #[trigger] self.field_lookups@[l]).0 != field,
            ensures
                forall|l: int|
                    0 <= l < self.field_lookups@.len() ==> (#[trigger] self.field_lookups@[l]).0
                        != field,
            decreases high - low,
        {
            let middle: usize = low + (high - low) / 2;
            let entry = self.field_lookups[middle];
            if entry.0 == field {
                let span = entry.1;
                assert(self.sequence_spans.len() <= usize::MAX);
                proof {
                    assert(self.lookups()[middle as int] == entry);
                    assert forall|i: int| 0 <= i < self.spans().len() implies ((
                    #[trigger] self.spans()[i]).0.field == field <==> covers(span, i)) by {
                        assert(looked_up(self.lookups(), i));
                        let l = choose|l: int|
                            0 <= l < self.lookups().len() && #[trigger] covers(
                                self.lookups()[l].1,
                                i,
                            );
                        if covers(span, i) {
                            assert(covers(self.lookups()[middle as int].1, i));
                        }
                        if l < middle {
                            assert(self.lookups()[l].0 != self.lookups()[middle as int].0);
                        } else if l > middle {
                            assert(self.lookups()[middle as int].0 != self.lookups()[l].0);
                        }
                    }
                }
                return Some(
                    slice_subrange(
                        self.sequence_spans.as_slice(),
                        span.offset,
                        span.offset + span.len,
                    ),
                );
            }
            if entry.0.at_most(&field) {
                assert forall|l: int| 0 <= l < middle + 1 implies (
                #[trigger] self.field_lookups@[l]).0 != field by {
                    if l < middle {
                        assert(self.lookups()[l].0.sorts_at_most(self.lookups()[middle as int].0));
                        assert(self.lookups()[l].0 != self.lookups()[middle as int].0);
                    }
                }
                low = middle + 1;
            } else {
                assert forall|l: int| middle <= l < self.field_lookups@.len() implies (
                #[trigger] self.field_lookups@[l]).0 != field by {
                    if l > middle {
                        assert(self.lookups()[middle as int].0.sorts_at_most(self.lookups()[l].0));
                    }
                }
                high = middle;
            }
        }
        proof {
            assert forall|i: int| 0 <= i < self.spans().len() implies (
            #[trigger] self.spans()[i]).0.field != field by {
                assert(looked_up(self.lookups(), i));
                let l = choose|l: int|
                    0 <= l < self.lookups().len() && #[trigger] covers(self.lookups()[l].1, i);
                assert(self.field_lookups@[l].0 != field);
            }
        }
        None
    }

    /// The fields and the spans that belong to them.
    pub fn field_lookups(&self) -> (lookups: &[(UntypedField, Span)])
        ensures
            lookups@ == self.lookups(),
    {
        self.field_lookups.as_slice()
    }

    /// The keys and where their clips are.
    pub fn sequences_spans(&self) -> (spans: &[(ActionKey, Span)])
        ensures
            spans@ == self.spans(),
            self.laid_out(),
    {
        proof {
            use_type_invariant(self);
        }
        self.sequence_spans.as_slice()
    }

    /// The clips of a span.
    pub fn clips(&self, span: Span) -> (clips: &[ActionClip])
        requires
            span.offset + span.len <= self.arena().len(),
        ensures
            clips@ == self.clips_in(span),
    {
        assert(self.clip_arena.len() <= usize::MAX);
        slice_subrange(self.clip_arena.as_slice(), span.offset, span.offset + span.len)
    }

    /// The duration of the track.
    #[verifier::when_used_as_spec(spec_duration)]
    pub fn duration(&self) -> (duration: Ticks)
        ensures
            duration == self.spec_duration(),
    {
        self.duration
    }

    /// Reconstruct an editable [`TrackFragment`] from this
    /// compiled track. Used by remote editing to add/remove clips
    /// and recompile.
    pub fn to_fragment(&self) -> (fragment: TrackFragment)
        ensures
            fragment.lanes() == self.lanes(),
            fragment.duration() == self.duration(),
    {
        proof {
            use_type_invariant(self);
        }
        let mut sequences: Table<ActionKey, Sequence> = Table::new();
        let mut i: usize = 0;
        while i < self.sequence_spans.len()
            invariant
                i <= self.sequence_spans@.len(),
                self.laid_out(),
                forall|key: ActionKey| #[trigger]
                    sequences@.contains_key(key) <==> exists|j: int|
                        0 <= j < i && (#[trigger] self.spans()[j]).0 == key,
                forall|j: int|
                    0 <= j < i ==> sequences@[(#[trigger] self.spans()[j]).0]@ == self.clips_in(
                        self.spans()[j].1,
                    ),
            decreases self.sequence_spans@.len() - i,
        {
            let (key, span) = self.sequence_spans[i];
            assert(self.spans()[i as int] == (key, span));
            let ghost before = sequences@;
            sequences.insert(key, Sequence::from_slice(self.clips(span)));
            proof {
                assert forall|k: ActionKey| #[trigger] sequences@.contains_key(k) <==> exists|
                    j: int,
                |
                    0 <= j < i + 1 && (#[trigger] self.spans()[j]).0 == k by {
                    if before.contains_key(k) {
                        let j = choose|j: int| 0 <= j < i && (#[trigger] self.spans()[j]).0 == k;
                        assert(self.spans()[j].0 == k);
                    }
                    if k == key {
                        assert(self.spans()[i as int].0 == k);
                    }
                }
            }
            i += 1;
        }
        let fragment = TrackFragment { sequences, duration: self.duration };
        proof {
            assert forall|key: ActionKey| #[trigger]
                self.lanes().contains_key(key) implies fragment.lanes()[key]
                == self.lanes()[key] by {
                let j = choose|j: int|
                    0 <= j < self.spans().len() && (#[trigger] self.spans()[j]).0 == key;
                self.lane_at(j);
            }
            assert(fragment.lanes() =~= self.lanes());
        }
        fragment
    }
}

/// Puts `key` behind every key whose field sorts no later.
fn insert_by_field(keys: &mut Vec<ActionKey>, key: ActionKey)
    requires
        sorted_by_field(old(keys)@),
    ensures
        sorted_by_field(final(keys)@),
        exists|at: int|
            0 <= at <= old(keys)@.len() && final(keys)@ == #[trigger] old(keys)@.insert(at, key),
{
    let mut at: usize = keys.len();
    while at > 0 && !keys[at - 1].field.at_most(&key.field)
        invariant
            at <= keys@.len(),
            keys@ == old(keys)@,
            sorted_by_field(keys@),
            forall|j: int|
                at <= j < keys@.len() ==> !(#[trigger] keys@[j]).field.sorts_at_most(key.field),
        decreases at,
    {
        at -= 1;
    }
    let ghost before = keys@;
    keys.insert(at, key);
    proof {
        let after = before.insert(at as int, key);
        assert forall|i: int, j: int| 0 <= i < j < after.len() implies (
        #[trigger] after[i]).field.sorts_at_most((#[trigger] after[j]).field) by {
            let a = if i < at {
                before[i]
            } else {
                before[i - 1]
            };
            let b = if j < at {
                before[j]
            } else {
                before[j - 1]
            };
            if i == at {
                assert(after[j] == b);
                assert(!before[j - 1].field.sorts_at_most(key.field));
            } else if j == at {
                assert(after[i] == before[i]);
                assert(before[at - 1].field.sorts_at_most(key.field));
                if i < at - 1 {
                    assert(before[i].field.sorts_at_most(before[at - 1].field));
                }
            } else {
                assert(after[i] == a && after[j] == b);
            }
        }
        assert(keys@ == before.insert(at as int, key));
    }
}

/// Whether the fields of the keys are in order.
spec fn sorted_by_field(keys: Seq<ActionKey>) -> bool {
    forall|i: int, j: int|
        0 <= i < j < keys.len() ==> (#[trigger] keys[i]).field.sorts_at_most(
            (#[trigger] keys[j]).field,
        )
}

/// The keys in the order of their fields.
fn sort_by_field(keys: &Vec<ActionKey>) -> (sorted: Vec<ActionKey>)
    requires
        keys@.no_duplicates(),
    ensures
        sorted_by_field(sorted@),
        sorted@.no_duplicates(),
        forall|key: ActionKey| sorted@.contains(key) <==> keys@.contains(key),
{
    let mut sorted: Vec<ActionKey> = Vec::new();
    let mut i: usize = 0;
    while i < keys.len()
        invariant
            i <= keys@.len(),
            keys@.no_duplicates(),
            sorted_by_field(sorted@),
            sorted@.no_duplicates(),
            forall|key: ActionKey|
                #![trigger sorted@.contains(key)]
                #![trigger keys@.take(i as int).contains(key)]
                sorted@.contains(key) <==> keys@.take(i as int).contains(key),
        decreases keys@.len() - i,
    {
        let ghost before = sorted@;
        insert_by_field(&mut sorted, keys[i]);
        proof {
            let key = keys@[i as int];
            let at = choose|at: int|
                0 <= at <= before.len() && sorted@ == #[trigger] before.insert(at, key);
            take_one_more(keys@, i as int);
            insert_adds_one(before, at, key);
        }
        i += 1;
    }
    assert(keys@.take(i as int) =~= keys@);
    sorted
}

impl TrackFragment {
    /// Lays the clips out for playback.
    pub fn compile(self) -> (track: Track)
        ensures
            track.lanes() == self.lanes(),
            track.duration() == self.duration(),
            track.laid_out(),
    {
        let ghost lanes = self.lanes();
        let duration = self.duration;
        let mut sequences = self.sequences;
        let keys = sort_by_field(&sequences.keys());
        let mut clip_arena: Vec<ActionClip> = Vec::new();
        let mut sequence_spans: Vec<(ActionKey, Span)> = Vec::new();
        let mut field_lookups: Vec<(UntypedField, Span)> = Vec::new();
        let mut field_offset: usize = 0;
        let mut i: usize = 0;
        assert forall|j: int| 0 <= j < keys@.len() implies sequences@.contains_key(
            #[trigger] keys@[j],
        ) && sequences@[keys@[j]]@ == lanes[keys@[j]] by {
            assert(keys@.contains(keys@[j]));
        }
        while i < keys.len()
            invariant
                i <= keys@.len(),
                keys@.no_duplicates(),
                sorted_by_field(keys@),
                forall|j: int|
                    i <= j < keys@.len() ==> sequences@.contains_key(#[trigger] keys@[j])
                        && sequences@[keys@[j]]@ == lanes[keys@[j]],
                sequence_spans@.len() == i,
                spans_laid_out(sequence_spans@, clip_arena@.len() as int),
                forall|j: int| 0 <= j < i ==> (#[trigger] sequence_spans@[j]).0 == keys@[j],
                forall|j: int|
                    0 <= j < i ==> clip_arena@.subrange(
                        (#[trigger] sequence_spans@[j]).1.offset as int,
                        sequence_spans@[j].1.offset + sequence_spans@[j].1.len,
                    ) == lanes[keys@[j]],
                field_offset <= i,
                i > 0 ==> field_offset < i,
                lookups_laid_out(field_lookups@, sequence_spans@, field_offset as int),
                forall|j: int|
                    field_offset <= j < i ==> (#[trigger] sequence_spans@[j]).0.field
                        == keys@[field_offset as int].field,
                forall|l: int|
                    0 <= l < field_lookups@.len() ==> (#[trigger] field_lookups@[l]).0.sorts_at_most(
                        keys@[field_offset as int].field,
                    ) && field_lookups@[l].0 != keys@[field_offset as int].field,
            decreases keys@.len() - i,
        {
            let key = keys[i];
            if key.field != keys[field_offset].field {
                let span = Span { offset: field_offset, len: i - field_offset };
                let ghost lookups = field_lookups@;
                field_lookups.push((keys[field_offset].field, span));
                proof {
                    extend_lookups(
                        lookups,
                        sequence_spans@,
                        keys@[field_offset as int].field,
                        span,
                    );
                    assert(keys@[field_offset as int].field.sorts_at_most(keys@[i as int].field));
                }
                field_offset = i;
            }
            let offset = clip_arena.len();
            let ghost arena = clip_arena@;
            let ghost spans = sequence_spans@;
            match sequences.remove(&key) {
                Some(sequence) => {
                    let mut clips = sequence.into_clips();
                    let len = clips.len();
                    clip_arena.append(&mut clips);
                    sequence_spans.push((key, Span { offset, len }));
                },
                None => {
                    assert(false);
                },
            }
            proof {
                assert(clip_arena@ =~= arena + lanes[key]);
                assert forall|j: int| 0 <= j < sequence_spans@.len() implies sequence_spans@[j].1.offset
                    == #[trigger] spans_end(sequence_spans@, j) by {
                    if j < i {
                        assert(spans[j].1.offset == spans_end(spans, j));
                    }
                }
                assert forall|j: int| 0 <= j < i + 1 implies clip_arena@.subrange(
                    (#[trigger] sequence_spans@[j]).1.offset as int,
                    sequence_spans@[j].1.offset + sequence_spans@[j].1.len,
                ) == lanes[keys@[j]] by {
                    if j < i {
                        assert(sequence_spans@[j] == spans[j]);
                        assert(clip_arena@.subrange(
                            spans[j].1.offset as int,
                            spans[j].1.offset + spans[j].1.len,
                        ) =~= arena.subrange(
                            spans[j].1.offset as int,
                            spans[j].1.offset + spans[j].1.len,
                        ));
                    } else {
                        assert(clip_arena@.subrange(offset as int, clip_arena@.len() as int)
                            =~= lanes[key]);
                    }
                }
                assert forall|j: int| 0 <= j < i implies (#[trigger] sequence_spans@[j])
                    == spans[j] by {}
                assert forall|j: int| i + 1 <= j < keys@.len() implies sequences@.contains_key(
                    #[trigger] keys@[j],
                ) && sequences@[keys@[j]]@ == lanes[keys@[j]] by {
                    assert(keys@[j] != keys@[i as int]);
                }
            }
            i += 1;
        }
        if keys.len() > 0 {
            let span = Span { offset: field_offset, len: keys.len() - field_offset };
            let ghost lookups = field_lookups@;
            field_lookups.push((keys[field_offset].field, span));
            proof {
                extend_lookups(lookups, sequence_spans@, keys@[field_offset as int].field, span);
            }
        }
        let track = Track { field_lookups, sequence_spans, clip_arena, duration };
        proof {
            assert forall|key: ActionKey| #[trigger] lanes.contains_key(key) implies track.lanes().contains_key(key)
                && track.lanes()[key] == lanes[key] by {
                assert(keys@.contains(key));
                let j = choose|j: int| 0 <= j < keys@.len() && keys@[j] == key;
                assert(track.spans()[j].0 == key);
                track.lane_at(j);
            }
            assert forall|key: ActionKey| #[trigger] track.lanes().contains_key(key) implies lanes.contains_key(key) by {
                let j = choose|j: int|
                    0 <= j < track.spans().len() && (#[trigger] track.spans()[j]).0 == key;
                assert(keys@.contains(keys@[j]));
            }
            assert(track.lanes() =~= lanes);
        }
        track
    }
}

/// A lookup for the rest of the spans completes the lookups.
proof fn extend_lookups(
    lookups: Seq<(UntypedField, Span)>,
    spans: Seq<(ActionKey, Span)>,
    field: UntypedField,
    span: Span,
)
    requires
        lookups_laid_out(lookups, spans, span.offset as int),
        span.len >= 1,
        span.offset + span.len == spans.len(),
        forall|j: int| span.offset <= j < spans.len() ==> (#[trigger] spans[j]).0.field == field,
        forall|l: int|
            0 <= l < lookups.len() ==> (#[trigger] lookups[l]).0.sorts_at_most(field)
                && lookups[l].0 != field,
    ensures
        lookups_laid_out(lookups.push((field, span)), spans, spans.len() as int),
{
    let longer = lookups.push((field, span));
    assert forall|i: int| 0 <= i < spans.len() implies #[trigger] looked_up(longer, i) by {
        if i < span.offset {
            assert(looked_up(lookups, i));
            let l = choose|l: int| 0 <= l < lookups.len() && #[trigger] covers(lookups[l].1, i);
            assert(covers(longer[l].1, i));
        } else {
            assert(covers(longer[lookups.len() as int].1, i));
        }
    }
    assert forall|l: int, i: int|
        0 <= l < longer.len() && #[trigger] covers(longer[l].1, i) implies spans[i].0.field
        == longer[l].0 by {
        if l < lookups.len() {
            assert(covers(lookups[l].1, i));
        }
    }
}

} // verus!
