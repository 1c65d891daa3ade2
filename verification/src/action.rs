//! Actions, the identifiers that refer to them, and where they are kept.
use crate::subject::{Tagged, TypeTag, UntypedField, UNIT_TAG};
use crate::table::{RawKey, TableKey};
use crate::seqs::{
    ascending, insert_by, insert_by_at, stable_sort, stable_sort_is_sound, take_one_more,
};
use crate::time::{clamp_phase, clamped_phase, saturated, ticks_add, Phase, Ticks, PHASE_ONE};
use std::sync::Arc;
use vstd::prelude::*;

pub mod laws;
pub mod registry;
pub mod store;
pub mod subjects;
pub mod world;

pub use registry::IdRegistry;
pub use world::{ActionBuilder, ActionWorld, InterpActionBuilder};

verus! {

/// A type-erased unique Id in the [`IdRegistry`].
#[derive(Debug, Clone, Copy, PartialEq, Eq, PartialOrd, Ord, Hash, Structural)]
pub struct UId {
    pub raw: u64,
}

/// A subject by the type of its identifier and its [`UId`].
#[derive(Debug, Clone, Copy, PartialEq, Eq, PartialOrd, Ord, Hash, Structural)]
pub struct UntypedSubjectId {
    pub type_id: TypeTag,
    pub uid: UId,
}

impl UntypedSubjectId {
    /// The subject `uid` of the identifiers of type `I`.
    pub fn new<I: Tagged>(uid: UId) -> (id: Self)
        ensures
            id == (UntypedSubjectId { type_id: I::tag(), uid }),
    {
        UntypedSubjectId { type_id: I::type_tag(), uid }
    }

    /// A subject of no particular type.
    pub fn placeholder_with_u64(id: u64) -> (placeholder: Self)
        ensures
            placeholder == (UntypedSubjectId { type_id: UNIT_TAG, uid: UId { raw: id } }),
    {
        UntypedSubjectId { type_id: UNIT_TAG, uid: UId { raw: id } }
    }

    /// The subject that stands for none.
    pub fn placeholder() -> (placeholder: Self)
        ensures
            placeholder == (UntypedSubjectId { type_id: UNIT_TAG, uid: UId { raw: u64::MAX } }),
    {
        Self::placeholder_with_u64(u64::MAX)
    }

    /// The type of the subject's identifier.
    pub fn type_id(&self) -> (type_id: TypeTag)
        ensures
            type_id == self.type_id,
    {
        self.type_id
    }

    /// The subject's [`UId`].
    pub fn uid(&self) -> (uid: UId)
        ensures
            uid == self.uid,
    {
        self.uid
    }
}

/// Key that uniquely identifies a sequence of non-overlapping actions.
#[derive(Debug, Clone, Copy, PartialEq, Eq, PartialOrd, Ord, Hash, Structural)]
pub struct ActionKey {
    pub subject_id: UntypedSubjectId,
    pub field: UntypedField,
}

impl ActionKey {
    /// The key of `field` on `subject_id`.
    pub fn new(subject_id: UntypedSubjectId, field: UntypedField) -> (key: Self)
        ensures
            key == (ActionKey { subject_id, field }),
    {
        ActionKey { subject_id, field }
    }

    /// The subject of the action.
    pub fn subject_id(&self) -> (subject_id: &UntypedSubjectId)
        ensures
            *subject_id == self.subject_id,
    {
        &self.subject_id
    }

    /// The field of the action.
    pub fn field(&self) -> (field: &UntypedField)
        ensures
            *field == self.field,
    {
        &self.field
    }
}

impl TableKey for ActionKey {
    open spec fn raw(self) -> RawKey {
        (
            self.subject_id.type_id,
            self.subject_id.uid.raw,
            self.field.source_id,
            self.field.target_id,
            self.field.path,
        )
    }

    proof fn raw_is_injective(a: Self, b: Self) {
    }

    fn to_raw(&self) -> (raw: RawKey) {
        (
            self.subject_id.type_id,
            self.subject_id.uid.raw,
            self.field.source_id,
            self.field.target_id,
            self.field.path,
        )
    }
}

/// The bits of every entity: the low half, which holds the index, is not zero.
pub open spec fn entity_bits(bits: u64) -> bool {
    bits % 0x1_0000_0000 != 0
}

/// The identity of an action.
#[derive(Debug, Clone, Copy, PartialEq, Eq, Hash, Structural)]
pub struct ActionId {
    pub bits: u64,
}

impl ActionId {
    /// The id that stands for no action.
    pub fn placeholder() -> (id: Self)
        ensures
            id.bits == 1,
    {
        ActionId { bits: 1 }
    }

    /// Stable `u64` representation for transport.
    pub fn to_bits(self) -> (bits: u64)
        ensures
            bits == self.bits,
    {
        self.bits
    }

    /// The id that [`ActionId::to_bits`] gave `bits` for.
    pub fn from_bits(bits: u64) -> (id: Self)
        requires
            entity_bits(bits),
        ensures
            id.bits == bits,
    {
        ActionId { bits }
    }
}

impl TableKey for ActionId {
    open spec fn raw(self) -> RawKey {
        (self.bits, 0, 0, 0, 0)
    }

    proof fn raw_is_injective(a: Self, b: Self) {
    }

    fn to_raw(&self) -> (raw: RawKey) {
        (self.bits, 0, 0, 0, 0)
    }
}

/// An action placed in time.
#[derive(Debug, Clone, Copy, PartialEq, Eq, Structural)]
pub struct ActionClip {
    pub id: ActionId,
    pub start: Ticks,
    pub duration: Ticks,
}

impl ActionClip {
    /// A clip that starts at zero.
    pub fn new(id: ActionId, duration: Ticks) -> (clip: Self)
        ensures
            clip == (ActionClip { id, start: 0, duration }),
    {
        ActionClip { id, start: 0, duration }
    }

    /// The time at which the clip ends.
    pub open spec fn spec_end(self) -> Ticks {
        saturated(self.start + self.duration)
    }

    /// The time at which the clip ends.
    #[verifier::when_used_as_spec(spec_end)]
    pub fn end(self) -> (end: Ticks)
        ensures
            end == self.spec_end(),
    {
        ticks_add(self.start, self.duration)
    }

    /// The clip moved by `by`.
    pub open spec fn delayed(self, by: Ticks) -> ActionClip {
        ActionClip { start: saturated(self.start + by), ..self }
    }
}

/// A value of an animated type. The type is named by its tag, and the value
/// is known by a number.
#[derive(Debug, Clone, Copy, PartialEq, Eq, Structural)]
pub struct Value {
    pub type_id: TypeTag,
    pub handle: u64,
}

/// A function that gives the target value of an action from the value that
/// the field has when the action starts.
#[derive(Debug, Clone, Copy, PartialEq, Eq, Structural)]
pub enum Action {
    /// The same value, whatever the field has.
    Constant(Value),
    /// A function known by a number.
    Custom(u64),
}

/// A function that interpolates between two values, known by a number.
#[derive(Debug, Clone, Copy, PartialEq, Eq, Structural)]
pub struct InterpFn {
    pub id: u64,
}

/// An easing function, known by a number. The named ones have the numbers of
/// their places in the ease table.
#[derive(Debug, Clone, Copy, PartialEq, Eq, Structural)]
pub struct EaseFn {
    pub id: u64,
}

/// The control points of a cubic-bezier curve, each coordinate as the bits of
/// a single-precision number.
#[derive(Debug, Clone, Copy, PartialEq, Eq, Structural)]
pub struct CubicBezier {
    pub x1: u32,
    pub y1: u32,
    pub x2: u32,
    pub y2: u32,
}

/// An easing applied to the interpolation parameter `t`.
///
/// Either a plain easing function or a parameterized cubic-bezier
/// curve.
#[derive(Debug, Clone, Copy, PartialEq, Eq, Structural)]
pub enum Ease {
    Fn(EaseFn),
    CubicBezier(CubicBezier),
}

impl From<EaseFn> for Ease {
    fn from(f: EaseFn) -> (ease: Self) {
        Ease::Fn(f)
    }
}

impl vstd::std_specs::convert::FromSpecImpl<EaseFn> for Ease {
    open spec fn obeys_from_spec() -> bool {
        true
    }

    open spec fn from_spec(f: EaseFn) -> Self {
        Ease::Fn(f)
    }
}

/// The values that a field runs between while an action plays.
#[derive(Debug, Clone, Copy, PartialEq, Eq, Structural)]
pub struct Segment<T> {
    /// The starting value.
    pub start: T,
    /// The ending value.
    pub end: T,
}

impl<T> Segment<T> {
    /// The segment from `start` to `end`.
    pub fn new(start: T, end: T) -> (segment: Self)
        ensures
            segment == (Segment { start, end }),
    {
        Segment { start, end }
    }
}

/// One point of a keyframed action (see [`KeyframesStorage`]).
#[derive(Debug, Clone)]
pub struct Keyframe<T> {
    /// Normalised time within the clip, from zero to one.
    pub t: Phase,
    /// Absolute value at `t`.
    pub value: T,
    /// Ease of the segment *ending* at this keyframe.
    pub ease: Option<Ease>,
    /// Step interpolation: the segment ending here keeps the previous
    /// value for its whole span and snaps to `value` exactly at `t`.
    pub hold: bool,
}

/// The keyframe with its time held inside the clip.
pub open spec fn clamped_keyframe<T>(point: Keyframe<T>) -> Keyframe<T> {
    Keyframe { t: clamped_phase(point.t), ..point }
}

/// The keyframes by their times, each held inside the clip.
pub open spec fn sorted_keyframes<T>(points: Seq<Keyframe<T>>) -> Seq<Keyframe<T>> {
    stable_sort(
        points.map_values(|point: Keyframe<T>| clamped_keyframe(point)),
        |point: Keyframe<T>| point.t as int,
    )
}

/// Whether there is a point, the points are in the order of their times, and
/// all of them are inside the clip.
pub open spec fn keyframes_valid<T>(points: Seq<Keyframe<T>>) -> bool {
    &&& points.len() >= 1
    &&& ascending(points, |point: Keyframe<T>| point.t as int)
    &&& forall|i: int| 0 <= i < points.len() ==> 0 <= (#[trigger] points[i]).t <= PHASE_ONE
}

/// Optional multi-keyframe payload of an action: when present, the
/// sample path interpolates through these points instead of one.
pub struct KeyframesStorage<T> {
    /// Non-empty, sorted ascending by `t`, each `t` inside the clip.
    points: Vec<Keyframe<T>>,
}

impl<T> View for KeyframesStorage<T> {
    type V = Seq<Keyframe<T>>;

    closed spec fn view(&self) -> Seq<Keyframe<T>> {
        self.points@
    }
}

impl<T> KeyframesStorage<T> {
    /// The points are what a clip can be sampled from.
    #[verifier::type_invariant]
    pub open spec fn valid(self) -> bool {
        keyframes_valid(self@)
    }

    /// The keyframes, sorted and held inside the clip.
    pub fn new(points: Vec<Keyframe<T>>) -> (storage: Self)
        requires
            points@.len() >= 1,
        ensures
            storage@ == sorted_keyframes(points@),
            storage.valid(),
    {
        let ghost key = |point: Keyframe<T>| point.t as int;
        let ghost clamped = points@.map_values(|point: Keyframe<T>| clamped_keyframe(point));
        let mut rest = points;
        let mut sorted: Vec<Keyframe<T>> = Vec::new();
        let ghost mut n: int = 0;
        assert(rest@ =~= points@.skip(0));
        assert(clamped.take(0) =~= Seq::empty());
        while rest.len() > 0
            invariant
                0 <= n <= points@.len(),
                rest@ == points@.skip(n),
                key == (|point: Keyframe<T>| point.t as int),
                clamped == points@.map_values(|point: Keyframe<T>| clamped_keyframe(point)),
                sorted@ == stable_sort(clamped.take(n), key),
            decreases rest@.len(),
        {
            let point = rest.remove(0);
            assert(point == points@[n]);
            assert(rest@ =~= points@.skip(n + 1));
            let point = Keyframe { t: clamp_phase(point.t), ..point };
            assert(point == clamped[n]);
            proof {
                take_one_more(clamped, n);
                n = n + 1;
            }
            insert_keyframe(&mut sorted, point);
        }
        proof {
            assert(clamped.take(n) =~= clamped);
            stable_sort_is_sound(clamped, key);
            assert forall|i: int| 0 <= i < sorted@.len() implies 0 <= (#[trigger] sorted@[i]).t
                <= PHASE_ONE by {
                assert(sorted@.contains(sorted@[i]));
                assert(clamped.contains(sorted@[i]));
            }
        }
        KeyframesStorage { points: sorted }
    }

    /// The points.
    pub fn points(&self) -> (points: &[Keyframe<T>])
        ensures
            points@ == self@,
            self.valid(),
    {
        proof {
            use_type_invariant(self);
        }
        self.points.as_slice()
    }
}

/// Puts a keyframe behind every keyframe whose time is not later.
fn insert_keyframe<T>(points: &mut Vec<Keyframe<T>>, point: Keyframe<T>)
    ensures
        final(points)@ == insert_by(old(points)@, point, |point: Keyframe<T>| point.t as int),
{
    let ghost key = |point: Keyframe<T>| point.t as int;
    let mut at: usize = points.len();
    while at > 0 && points[at - 1].t > point.t
        invariant
            at <= points@.len(),
            points@ == old(points)@,
            key == (|point: Keyframe<T>| point.t as int),
            forall|j: int| at <= j < points@.len() ==> key(#[trigger] points@[j]) > key(point),
        decreases at,
    {
        at -= 1;
    }
    proof {
        insert_by_at(points@, point, key, at as int);
    }
    points.insert(at, point);
}

/// Determines how a [`Segment`] should be sampled.
#[derive(Debug, Clone, Copy, PartialEq, Eq, Structural)]
pub enum SampleMode {
    Start,
    End,
    /// At a part of the clip, `None` where the clip has no extent.
    Interp(Option<Phase>),
}

/// What is kept of an action.
pub struct ActionRecord {
    /// The sequence that the action belongs to.
    pub key: ActionKey,
    /// The type of the values of the action.
    pub target_type: TypeTag,
    pub action: Action,
    pub interp: Option<InterpFn>,
    /// `None` is linear.
    pub ease: Option<Ease>,
    pub keyframes: Option<Arc<KeyframesStorage<Value>>>,
    /// Whether the action is muted. A muted action bakes to an identity
    /// [`Segment`], behaving exactly as if the clip were absent.
    pub disabled: bool,
    /// How the action is sampled, if it is.
    pub mark: Option<SampleMode>,
    pub segment: Option<Segment<Value>>,
}

impl ActionRecord {
    /// A copy of the record.
    pub fn copy(&self) -> (copy: Self)
        ensures
            copy == *self,
    {
        ActionRecord {
            key: self.key,
            target_type: self.target_type,
            action: self.action,
            interp: self.interp,
            ease: self.ease,
            keyframes: match &self.keyframes {
                Some(keyframes) => Some(Arc::clone(keyframes)),
                None => None,
            },
            disabled: self.disabled,
            mark: self.mark,
            segment: self.segment,
        }
    }
}

} // verus!
