//! How the parts of two paths correspond.
use crate::seqs::take_one_more;
use vstd::prelude::*;

verus! {

/// A coordinate: the bits of a double-precision number.
pub type Coord = u64;

/// A point of a path.
#[derive(Debug, Clone, Copy, PartialEq, Eq, Structural)]
pub struct Point {
    pub x: Coord,
    pub y: Coord,
}

/// Whether two coordinates are equal as numbers: zeros are, whatever their
/// sign, and what is no number is not even equal to itself.
pub open spec fn same_coord(a: Coord, b: Coord) -> bool {
    let a_size = a % 0x8000_0000_0000_0000;
    let b_size = b % 0x8000_0000_0000_0000;
    &&& a_size <= 0x7ff0_0000_0000_0000
    &&& b_size <= 0x7ff0_0000_0000_0000
    &&& a == b || a_size == 0 && b_size == 0
}

/// Whether two points are equal as numbers.
pub open spec fn same_point(a: Point, b: Point) -> bool {
    same_coord(a.x, b.x) && same_coord(a.y, b.y)
}

/// Whether two coordinates are equal as numbers.
fn coords_match(a: Coord, b: Coord) -> (same: bool)
    ensures
        same == same_coord(a, b),
{
    let a_size: u64 = a % 0x8000_0000_0000_0000;
    let b_size: u64 = b % 0x8000_0000_0000_0000;
    a_size <= 0x7ff0_0000_0000_0000 && b_size <= 0x7ff0_0000_0000_0000 && (a == b || (a_size == 0
        && b_size == 0))
}

/// An element of a path.
#[derive(Debug, Clone, Copy, PartialEq, Eq, Structural)]
pub enum PathEl {
    MoveTo(Point),
    LineTo(Point),
    QuadTo(Point, Point),
    CurveTo(Point, Point, Point),
    ClosePath,
}

/// A segment of a path.
#[derive(Debug, Clone, Copy, PartialEq, Eq, Structural)]
pub enum Segment {
    Line(Point, Point),
    Quad(Point, Point, Point),
    Cubic(Point, Point, Point, Point),
}

impl Segment {
    /// Where the segment begins.
    pub open spec fn begin(self) -> Point {
        match self {
            Segment::Line(p, _) => p,
            Segment::Quad(p, _, _) => p,
            Segment::Cubic(p, _, _, _) => p,
        }
    }

    /// Where the segment ends.
    pub open spec fn end(self) -> Point {
        match self {
            Segment::Line(_, p) => p,
            Segment::Quad(_, _, p) => p,
            Segment::Cubic(_, _, _, p) => p,
        }
    }
}

/// A part of a path that is drawn without lifting the pen.
#[derive(Debug)]
pub struct Subpath {
    pub segs: Vec<Segment>,
    pub closed: bool,
}

/// The segments of a subpath, and whether it is closed.
#[verifier::ext_equal]
pub struct Strand {
    pub segs: Seq<Segment>,
    pub closed: bool,
}

/// What was drawn so far.
#[verifier::ext_equal]
pub struct Drawing {
    /// The subpaths that are finished.
    pub done: Seq<Strand>,
    /// The segments of the one that is not.
    pub segs: Seq<Segment>,
    pub start: Point,
    pub cursor: Point,
}

/// The origin.
pub open spec fn origin() -> Point {
    Point { x: 0, y: 0 }
}

impl Drawing {
    /// With the unfinished subpath finished, if it has a segment.
    pub open spec fn flushed(self, closed: bool) -> Self {
        if self.segs.len() == 0 {
            self
        } else {
            Drawing {
                done: self.done.push(Strand { segs: self.segs, closed }),
                segs: Seq::empty(),
                ..self
            }
        }
    }

    /// With one more segment.
    pub open spec fn drawn(self, seg: Segment) -> Self {
        Drawing { segs: self.segs.push(seg), cursor: seg.end(), ..self }
    }

    /// After one more element.
    pub open spec fn after(self, el: PathEl) -> Self {
        match el {
            PathEl::MoveTo(p) => Drawing { start: p, cursor: p, ..self.flushed(false) },
            PathEl::LineTo(p) => self.drawn(Segment::Line(self.cursor, p)),
            PathEl::QuadTo(p1, p2) => self.drawn(Segment::Quad(self.cursor, p1, p2)),
            PathEl::CurveTo(p1, p2, p3) => self.drawn(Segment::Cubic(self.cursor, p1, p2, p3)),
            PathEl::ClosePath => {
                let closing = if same_point(self.cursor, self.start) {
                    self
                } else {
                    self.drawn(Segment::Line(self.cursor, self.start))
                };
                Drawing { cursor: self.start, ..closing.flushed(true) }
            },
        }
    }
}

/// What a path draws.
pub open spec fn drawing_of(elements: Seq<PathEl>) -> Drawing
    decreases elements.len(),
{
    if elements.len() == 0 {
        Drawing { done: Seq::empty(), segs: Seq::empty(), start: origin(), cursor: origin() }
    } else {
        drawing_of(elements.drop_last()).after(elements.last())
    }
}

/// The subpaths of a path.
pub open spec fn strands_of(elements: Seq<PathEl>) -> Seq<Strand> {
    drawing_of(elements).flushed(false).done
}

/// Subpaths as sequences.
pub open spec fn strands(list: Seq<Subpath>) -> Seq<Strand> {
    list.map_values(|subpath: Subpath| Strand { segs: subpath.segs@, closed: subpath.closed })
}

/// Finishes the unfinished subpath, if it has a segment.
fn flush(out: &mut Vec<Subpath>, segs: Vec<Segment>, closed: bool) -> (rest: Vec<Segment>)
    ensures
        rest@.len() == 0,
        strands(final(out)@) == if segs@.len() == 0 {
            strands(old(out)@)
        } else {
            strands(old(out)@).push(Strand { segs: segs@, closed })
        },
{
    let ghost before = out@;
    if segs.len() == 0 {
        return segs;
    }
    let ghost last = Strand { segs: segs@, closed };
    out.push(Subpath { segs, closed });
    assert(strands(out@) =~= strands(before).push(last));
    Vec::new()
}

/// The subpaths of a path.
pub fn subpaths(elements: &Vec<PathEl>) -> (out: Vec<Subpath>)
    ensures
        strands(out@) == strands_of(elements@),
{
    let mut out: Vec<Subpath> = Vec::new();
    let mut segs: Vec<Segment> = Vec::new();
    let mut start = Point { x: 0, y: 0 };
    let mut cursor = Point { x: 0, y: 0 };
    let mut i: usize = 0;
    assert(elements@.take(0) =~= Seq::<PathEl>::empty());
    assert(strands(out@) =~= Seq::<Strand>::empty());
    assert(segs@ =~= Seq::<Segment>::empty());
    while i < elements.len()
        invariant
            i <= elements@.len(),
            drawing_of(elements@.take(i as int)) == (Drawing {
                done: strands(out@),
                segs: segs@,
                start,
                cursor,
            }),
        decreases elements@.len() - i,
    {
        proof {
            take_one_more(elements@, i as int);
        }
        let ghost before = drawing_of(elements@.take(i as int));
        match elements[i] {
            PathEl::MoveTo(p) => {
                segs = flush(&mut out, segs, false);
                assert(segs@ =~= Seq::<Segment>::empty());
                start = p;
                cursor = p;
            },
            PathEl::LineTo(p) => {
                segs.push(Segment::Line(cursor, p));
                cursor = p;
            },
            PathEl::QuadTo(p1, p2) => {
                segs.push(Segment::Quad(cursor, p1, p2));
                cursor = p2;
            },
            PathEl::CurveTo(p1, p2, p3) => {
                segs.push(Segment::Cubic(cursor, p1, p2, p3));
                cursor = p3;
            },
            PathEl::ClosePath => {
                let same = coords_match(cursor.x, start.x) && coords_match(cursor.y, start.y);
                if !same {
                    segs.push(Segment::Line(cursor, start));
                }
                segs = flush(&mut out, segs, true);
                assert(segs@ =~= Seq::<Segment>::empty());
                cursor = start;
            },
        }
        assert(before.after(elements@[i as int]) =~= (Drawing {
            done: strands(out@),
            segs: segs@,
            start,
            cursor,
        }));
        i += 1;
    }
    assert(elements@.take(i as int) =~= elements@);
    flush(&mut out, segs, false);
    out
}

/// Whether every segment begins where the one in front of it ends.
pub open spec fn connected(segs: Seq<Segment>) -> bool {
    forall|i: int|
        0 < i < segs.len() ==> (#[trigger] segs[i]).begin() == segs[i - 1].end()
}

/// Whether a subpath is one: it has a segment, they are connected, and where
/// it is closed it ends where it begins.
pub open spec fn is_strand(strand: Strand) -> bool {
    &&& strand.segs.len() > 0
    &&& connected(strand.segs)
    &&& strand.closed ==> {
        ||| strand.segs.last().end() == strand.segs.first().begin()
        ||| same_point(strand.segs.last().end(), strand.segs.first().begin())
    }
}

/// Whether a drawing is one.
spec fn is_drawing(drawing: Drawing) -> bool {
    &&& forall|i: int| 0 <= i < drawing.done.len() ==> is_strand(#[trigger] drawing.done[i])
    &&& connected(drawing.segs)
    &&& drawing.segs.len() > 0 ==> drawing.segs.first().begin() == drawing.start
        && drawing.segs.last().end() == drawing.cursor
    &&& drawing.segs.len() == 0 ==> drawing.cursor == drawing.start
}

/// One more segment leaves a drawing one.
proof fn drawing_goes_on(drawing: Drawing, seg: Segment)
    requires
        is_drawing(drawing),
        seg.begin() == drawing.cursor,
    ensures
        is_drawing(drawing.drawn(seg)),
{
    let segs = drawing.segs.push(seg);
    assert forall|i: int| 0 < i < segs.len() implies (#[trigger] segs[i]).begin() == segs[i
        - 1].end() by {
        if i == drawing.segs.len() {
            assert(segs[i - 1] == drawing.segs.last());
        } else {
            assert(segs[i] == drawing.segs[i]);
        }
    }
}

proof fn drawing_is_sound(elements: Seq<PathEl>)
    ensures
        is_drawing(drawing_of(elements)),
    decreases elements.len(),
{
    if elements.len() > 0 {
        let before = drawing_of(elements.drop_last());
        drawing_is_sound(elements.drop_last());
        match elements.last() {
            PathEl::MoveTo(_) => {},
            PathEl::LineTo(p) => drawing_goes_on(before, Segment::Line(before.cursor, p)),
            PathEl::QuadTo(p1, p2) => drawing_goes_on(
                before,
                Segment::Quad(before.cursor, p1, p2),
            ),
            PathEl::CurveTo(p1, p2, p3) => drawing_goes_on(
                before,
                Segment::Cubic(before.cursor, p1, p2, p3),
            ),
            PathEl::ClosePath => {
                if !same_point(before.cursor, before.start) {
                    drawing_goes_on(before, Segment::Line(before.cursor, before.start));
                }
            },
        }
    }
}

/// The subpaths of a path have segments, their segments are connected, and
/// those that are closed end where they begin.
pub proof fn subpaths_are_strands(elements: Seq<PathEl>)
    ensures
        forall|i: int|
            0 <= i < strands_of(elements).len() ==> is_strand(#[trigger] strands_of(elements)[i]),
{
    drawing_is_sound(elements);
}

/// How many there are in all.
pub open spec fn total(counts: Seq<usize>) -> int
    decreases counts.len(),
{
    if counts.len() == 0 {
        0
    } else {
        total(counts.drop_last()) + counts.last()
    }
}

/// How often the `i`th of `n` segments without a length is split: all the
/// same, but for the first ones.
pub open spec fn even_share(extra: int, n: int, i: int) -> int {
    extra / n + if i < extra % n {
        1int
    } else {
        0
    }
}

/// How often each of `n` segments without a length is split.
pub fn even_splits(n: usize, extra: usize) -> (splits: Vec<usize>)
    requires
        n > 0,
    ensures
        splits@.len() == n,
        forall|i: int|
            0 <= i < n ==> #[trigger] splits@[i] == even_share(extra as int, n as int, i),
        total(splits@) == extra,
{
    let mut splits: Vec<usize> = Vec::new();
    let share: usize = extra / n;
    let rest: usize = extra % n;
    let mut i: usize = 0;
    assert(splits@ =~= Seq::<usize>::empty());
    proof {
        assert(0 * share + (if 0 < rest {
            0int
        } else {
            rest as int
        }) == 0) by (nonlinear_arith);
    }
    while i < n
        invariant
            i <= n,
            n > 0,
            share == extra / n,
            rest == extra % n,
            splits@.len() == i,
            forall|k: int|
                0 <= k < i ==> #[trigger] splits@[k] == even_share(extra as int, n as int, k),
            total(splits@) == i * share + (if i < rest {
                i as int
            } else {
                rest as int
            }),
        decreases n - i,
    {
        let more: usize = if i < rest {
            1
        } else {
            0
        };
        let ghost before = splits@;
        proof {
            share_fits(extra as int, n as int);
        }
        splits.push(share + more);
        proof {
            assert(splits@.drop_last() =~= before);
            assert((i + 1) * share == i * share + share) by (nonlinear_arith);
        }
        i += 1;
    }
    proof {
        vstd::arithmetic::div_mod::lemma_fundamental_div_mod(extra as int, n as int);
        vstd::arithmetic::mul::lemma_mul_is_commutative(n as int, share as int);
    }
    splits
}

/// A share with one more is at most the whole, if there is a rest.
proof fn share_fits(extra: int, n: int)
    requires
        extra >= 0,
        n > 0,
    ensures
        0 <= extra / n <= extra,
        extra % n > 0 ==> extra / n + 1 <= extra,
{
    vstd::arithmetic::div_mod::lemma_fundamental_div_mod(extra, n);
    vstd::arithmetic::div_mod::lemma_mod_division_less_than_divisor(extra, n);
    vstd::arithmetic::div_mod::lemma_div_pos_is_pos(extra, n);
    vstd::arithmetic::div_mod::lemma_div_nonincreasing(extra, n);
    let share = extra / n;
    assert(n * share >= share) by (nonlinear_arith)
        requires
            n > 0,
            share >= 0,
    ;
}

/// The counts with one more for the first of some places.
pub open spec fn with_remainders(floors: Seq<usize>, order: Seq<usize>, n: int) -> Seq<usize>
    decreases n,
{
    if n <= 0 {
        floors
    } else {
        let before = with_remainders(floors, order, n - 1);
        let at = order[n - 1] as int;
        before.update(at, (before[at] + 1) as usize)
    }
}

/// How often each segment is split, where the splits are shared out by length:
/// each gets the whole part of its share, and what is left goes to those with
/// the largest remainders, which come first in `order`.
pub fn remainder_splits(floors: Vec<usize>, order: &Vec<usize>, extra: usize) -> (splits: Vec<usize>)
    requires
        total(floors@) <= extra <= total(floors@) + order@.len(),
        order@.len() == floors@.len(),
        order@.no_duplicates(),
        forall|i: int| 0 <= i < order@.len() ==> #[trigger] order@[i] < floors@.len(),
    ensures
        splits@ == with_remainders(floors@, order@, extra - total(floors@)),
        splits@.len() == floors@.len(),
        total(splits@) == extra,
{
    let ghost whole = total(floors@);
    let mut assigned: usize = 0;
    let mut i: usize = 0;
    assert(floors@.take(0) =~= Seq::<usize>::empty());
    while i < floors.len()
        invariant
            i <= floors@.len(),
            assigned == total(floors@.take(i as int)),
            total(floors@) <= usize::MAX,
        decreases floors@.len() - i,
    {
        proof {
            take_one_more(floors@, i as int);
            part_is_less(floors@, i + 1);
        }
        assigned = assigned + floors[i];
        i += 1;
    }
    assert(floors@.take(i as int) =~= floors@);
    let left: usize = extra - assigned;
    let ghost first = floors@;
    let mut splits = floors;
    let mut k: usize = 0;
    while k < left
        invariant
            k <= left,
            whole == total(first),
            left == extra - whole,
            left <= order@.len(),
            order@.len() == first.len(),
            forall|i: int| 0 <= i < order@.len() ==> #[trigger] order@[i] < first.len(),
            splits@ == with_remainders(first, order@, k as int),
            splits@.len() == first.len(),
            total(splits@) == whole + k,
        decreases left - k,
    {
        let at: usize = order[k];
        let ghost before = splits@;
        proof {
            one_is_less(before, at as int);
        }
        let more: usize = splits[at] + 1;
        splits.set(at, more);
        proof {
            total_with_one_more(before, at as int);
        }
        k += 1;
    }
    splits
}

/// A front part is not more than the whole.
proof fn part_is_less(counts: Seq<usize>, n: int)
    requires
        0 <= n <= counts.len(),
    ensures
        0 <= total(counts.take(n)) <= total(counts),
    decreases counts.len(),
{
    if n < counts.len() {
        assert(counts.drop_last().take(n) =~= counts.take(n));
        part_is_less(counts.drop_last(), n);
    } else {
        assert(counts.take(n) =~= counts);
        total_is_natural(counts);
    }
}

proof fn total_is_natural(counts: Seq<usize>)
    ensures
        total(counts) >= 0,
    decreases counts.len(),
{
    if counts.len() > 0 {
        total_is_natural(counts.drop_last());
    }
}

/// One is not more than the whole.
proof fn one_is_less(counts: Seq<usize>, i: int)
    requires
        0 <= i < counts.len(),
    ensures
        counts[i] <= total(counts),
    decreases counts.len(),
{
    total_is_natural(counts.drop_last());
    if i < counts.len() - 1 {
        one_is_less(counts.drop_last(), i);
    }
}

/// One more at a place is one more in all.
proof fn total_with_one_more(counts: Seq<usize>, i: int)
    requires
        0 <= i < counts.len(),
        counts[i] < usize::MAX,
    ensures
        total(counts.update(i, (counts[i] + 1) as usize)) == total(counts) + 1,
    decreases counts.len(),
{
    let more = counts.update(i, (counts[i] + 1) as usize);
    if i < counts.len() - 1 {
        total_with_one_more(counts.drop_last(), i);
        assert(more.drop_last() =~= counts.drop_last().update(i, (counts[i] + 1) as usize));
    } else {
        assert(more.drop_last() =~= counts.drop_last());
    }
}

/// Which subpaths of two paths are paired. One without a partner is paired
/// with a point.
#[derive(Debug, Clone, Copy, PartialEq, Eq, Structural)]
pub enum Pairing {
    Both,
    /// A subpath that shrinks.
    FromOnly,
    /// A subpath that grows.
    ToOnly,
}

/// How the `i`th subpaths are paired.
pub open spec fn pairing_at(from: int, to: int, i: int) -> Pairing {
    if i < from && i < to {
        Pairing::Both
    } else if i < from {
        Pairing::FromOnly
    } else {
        Pairing::ToOnly
    }
}

/// How the subpaths of two paths are paired: none is left out.
pub fn pairings(from: usize, to: usize) -> (list: Vec<Pairing>)
    ensures
        list@.len() == if from >= to {
            from
        } else {
            to
        },
        forall|i: int|
            0 <= i < list@.len() ==> #[trigger] list@[i] == pairing_at(from as int, to as int, i),
{
    let count: usize = if from >= to {
        from
    } else {
        to
    };
    let mut list: Vec<Pairing> = Vec::new();
    let mut i: usize = 0;
    while i < count
        invariant
            i <= count,
            count == if from >= to {
                from
            } else {
                to
            },
            list@.len() == i,
            forall|k: int|
                0 <= k < i ==> #[trigger] list@[k] == pairing_at(from as int, to as int, k),
        decreases count - i,
    {
        if i < from && i < to {
            list.push(Pairing::Both);
        } else if i < from {
            list.push(Pairing::FromOnly);
        } else {
            list.push(Pairing::ToOnly);
        }
        i += 1;
    }
    list
}

} // verus!
