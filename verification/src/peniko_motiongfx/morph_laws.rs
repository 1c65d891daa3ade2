//! What paths draw, and how their parts are shared out.
use crate::peniko_motiongfx::morph::{
    drawing_of, even_share, origin, pairing_at, same_coord, same_point, strands_of, with_remainders,
    Coord, Pairing, PathEl, Point, Segment, Strand,
};
use vstd::prelude::*;

verus! {

/// Whether an element draws a segment.
pub open spec fn draws(el: PathEl) -> bool {
    el is LineTo || el is QuadTo || el is CurveTo
}

/// Whether a segment is of the kind of an element and goes through its points.
pub open spec fn drawn_by(seg: Segment, el: PathEl) -> bool {
    match (seg, el) {
        (Segment::Line(_, end), PathEl::LineTo(p)) => end == p,
        (Segment::Quad(_, by, end), PathEl::QuadTo(p1, p2)) => by == p1 && end == p2,
        (Segment::Cubic(_, by, near, end), PathEl::CurveTo(p1, p2, p3)) => by == p1 && near == p2
            && end == p3,
        _ => false,
    }
}

/// Whether the last element draws.
pub open spec fn is_drawing_on(elements: Seq<PathEl>) -> bool {
    elements.len() > 0 && draws(elements.last())
}

/// Whether the subpaths are those of before, and one more that is not closed and has one
/// segment, which an element drew.
pub open spec fn one_begun(before: Seq<Strand>, after: Seq<Strand>, el: PathEl) -> bool {
    &&& after.len() == before.len() + 1
    &&& after.drop_last() == before
    &&& after.last().segs.len() == 1
    &&& !after.last().closed
    &&& drawn_by(after.last().segs[0], el)
}

/// The last drawn segment ends where the pen is.
proof fn pen_is_at_the_end(elements: Seq<PathEl>)
    requires
        is_drawing_on(elements),
    ensures
        drawing_of(elements).segs.len() > 0,
        drawing_of(elements).segs.last().end() == drawing_of(elements).cursor,
{
}

/// The pen is where the subpath begins, unless one is being drawn.
proof fn pen_rests_at_the_start(elements: Seq<PathEl>)
    ensures
        !is_drawing_on(elements) ==> drawing_of(elements).segs.len() == 0
            && drawing_of(elements).cursor == drawing_of(elements).start,
        is_drawing_on(elements) ==> drawing_of(elements).segs.len() > 0
            && drawing_of(elements).segs.first().begin() == drawing_of(elements).start,
    decreases elements.len(),
{
    if elements.len() > 0 {
        pen_rests_at_the_start(elements.drop_last());
    }
}

/// What is drawn goes on from where the last segment ended, in the same subpath.
pub proof fn drawing_goes_on_where_it_is(elements: Seq<PathEl>, el: PathEl)
    requires
        is_drawing_on(elements),
        draws(el),
    ensures
        ({
            let before = strands_of(elements);
            let after = strands_of(elements.push(el));
            &&& before.len() > 0
            &&& after.len() == before.len()
            &&& after.drop_last() == before.drop_last()
            &&& !after.last().closed
            &&& after.last().segs.drop_last() == before.last().segs
            &&& drawn_by(after.last().segs.last(), el)
            &&& before.last().segs.len() > 0
            &&& after.last().segs.last().begin() == before.last().segs.last().end()
        }),
{
    let all = elements.push(el);
    assert(all.drop_last() =~= elements);
    pen_is_at_the_end(elements);
    let drawing = drawing_of(elements);
    let next = drawing_of(all);
    assert(next.done == drawing.done);
    assert(next.segs.drop_last() =~= drawing.segs);
    assert(strands_of(all).drop_last() =~= drawing.done);
    assert(strands_of(elements).drop_last() =~= drawing.done);
}

/// What is drawn first begins a subpath at the origin.
pub proof fn drawing_begins_at_the_origin(el: PathEl)
    requires
        draws(el),
    ensures
        one_begun(Seq::empty(), strands_of(seq![el]), el),
        strands_of(seq![el])[0].segs[0].begin() == (Point { x: 0, y: 0 }),
{
    let all = seq![el];
    assert(all.drop_last() =~= Seq::<PathEl>::empty());
    let blank = drawing_of(all.drop_last());
    assert(blank.start == origin() && blank.cursor == origin());
    assert(blank.done =~= Seq::<Strand>::empty());
    assert(blank.segs.len() == 0);
    assert(drawing_of(all).done == blank.done);
    assert(drawing_of(all).segs.len() == 1);
    assert(strands_of(all).drop_last() =~= Seq::<Strand>::empty());
}

/// What is drawn behind a move begins a subpath where the move went.
pub proof fn drawing_begins_where_moved(elements: Seq<PathEl>, to: Point, el: PathEl)
    requires
        draws(el),
    ensures
        one_begun(
            strands_of(elements),
            strands_of(elements.push(PathEl::MoveTo(to)).push(el)),
            el,
        ),
        strands_of(elements.push(PathEl::MoveTo(to)).push(el)).last().segs[0].begin() == to,
{
    let moved = elements.push(PathEl::MoveTo(to));
    assert(moved.drop_last() =~= elements);
    let all = moved.push(el);
    assert(all.drop_last() =~= moved);
    assert(drawing_of(moved).segs.len() == 0);
    assert(strands_of(all).drop_last() =~= strands_of(elements));
}

/// A move draws nothing.
pub proof fn moves_draw_nothing(elements: Seq<PathEl>, to: Point)
    ensures
        strands_of(elements.push(PathEl::MoveTo(to))) == strands_of(elements),
{
    let all = elements.push(PathEl::MoveTo(to));
    assert(all.drop_last() =~= elements);
}

/// Closing a subpath that is being drawn leads a line back to where it began, unless it is
/// there already. Where nothing is being drawn there is nothing to close, if the pen is
/// at numbers.
pub proof fn closing_leads_back(elements: Seq<PathEl>)
    ensures
        ({
            let before = strands_of(elements);
            let after = strands_of(elements.push(PathEl::ClosePath));
            &&& !is_drawing_on(elements) && same_point(
                drawing_of(elements).start,
                drawing_of(elements).start,
            ) ==> after == before
            &&& is_drawing_on(elements) ==> {
                &&& before.len() > 0
                &&& after.len() == before.len()
                &&& after.drop_last() == before.drop_last()
                &&& !before.last().closed
                &&& after.last().closed
                &&& before.last().segs.len() > 0
                &&& if same_point(
                    before.last().segs.last().end(),
                    before.last().segs.first().begin(),
                ) {
                    after.last().segs == before.last().segs
                } else {
                    after.last().segs == before.last().segs.push(
                        Segment::Line(
                            before.last().segs.last().end(),
                            before.last().segs.first().begin(),
                        ),
                    )
                }
            }
        }),
{
    let all = elements.push(PathEl::ClosePath);
    assert(all.drop_last() =~= elements);
    pen_rests_at_the_start(elements);
    if is_drawing_on(elements) {
        pen_is_at_the_end(elements);
        assert(strands_of(all).drop_last() =~= drawing_of(elements).done);
        assert(strands_of(elements).drop_last() =~= drawing_of(elements).done);
    } else {
    }
}

/// What is drawn behind a close begins a subpath where the closed one began.
pub proof fn drawing_begins_where_closed(elements: Seq<PathEl>, el: PathEl)
    requires
        is_drawing_on(elements),
        draws(el),
    ensures
        one_begun(
            strands_of(elements.push(PathEl::ClosePath)),
            strands_of(elements.push(PathEl::ClosePath).push(el)),
            el,
        ),
        strands_of(elements).len() > 0,
        strands_of(elements.push(PathEl::ClosePath).push(el)).last().segs[0].begin()
            == strands_of(elements).last().segs.first().begin(),
{
    let closed = elements.push(PathEl::ClosePath);
    assert(closed.drop_last() =~= elements);
    let all = closed.push(el);
    assert(all.drop_last() =~= closed);
    pen_rests_at_the_start(elements);
    assert(drawing_of(closed).segs.len() == 0);
    assert(strands_of(all).drop_last() =~= strands_of(closed));
}

/// Coordinates are compared as numbers: in either order, zeros whatever their sign, and
/// others only with themselves.
pub proof fn coordinates_are_numbers(a: Coord, b: Coord)
    ensures
        same_coord(a, b) == same_coord(b, a),
        same_coord(0, 0x8000_0000_0000_0000),
        same_coord(a, b) && a != b ==> (a == 0 || a == 0x8000_0000_0000_0000) && (b == 0 || b
            == 0x8000_0000_0000_0000),
        a <= 0x7ff0_0000_0000_0000 ==> same_coord(a, a),
        0x7ff0_0000_0000_0000 < a < 0x8000_0000_0000_0000 ==> !same_coord(a, b),
        a > 0xfff0_0000_0000_0000 ==> !same_coord(a, b),
        0x8000_0000_0000_0000 <= a <= 0xfff0_0000_0000_0000 ==> same_coord(a, a),
{
}

/// Even shares differ by one at most, and those in front are the larger ones.
pub proof fn shares_are_even(extra: int, n: int, i: int, j: int)
    requires
        extra >= 0,
        n > 0,
        0 <= i <= j < n,
    ensures
        even_share(extra, n, j) <= even_share(extra, n, i) <= even_share(extra, n, j) + 1,
        n * even_share(extra, n, j) <= extra + n - 1,
        n * even_share(extra, n, i) >= extra - (n - 1),
{
    vstd::arithmetic::div_mod::lemma_fundamental_div_mod(extra, n);
    vstd::arithmetic::div_mod::lemma_mod_bound(extra, n);
    let share = extra / n;
    assert(n * (share + 1) == n * share + n) by (nonlinear_arith);
    if extra % n == 0 {
        assert(even_share(extra, n, j) == share);
    }
}

/// A place gets one more exactly where it is one of the first in the order.
pub proof fn remainders_go_to_the_first(
    floors: Seq<usize>,
    order: Seq<usize>,
    n: int,
    i: int,
)
    requires
        0 <= n <= order.len(),
        order.no_duplicates(),
        forall|k: int| 0 <= k < order.len() ==> #[trigger] order[k] < floors.len(),
        forall|k: int| 0 <= k < floors.len() ==> #[trigger] floors[k] < usize::MAX,
        0 <= i < floors.len(),
    ensures
        with_remainders(floors, order, n).len() == floors.len(),
        (exists|k: int| 0 <= k < n && #[trigger] order[k] == i) ==> with_remainders(
            floors,
            order,
            n,
        )[i] == floors[i] + 1,
        (forall|k: int| 0 <= k < n ==> #[trigger] order[k] != i) ==> with_remainders(
            floors,
            order,
            n,
        )[i] == floors[i],
    decreases n,
{
    if n > 0 {
        let at = order[n - 1] as int;
        remainders_go_to_the_first(floors, order, n - 1, i);
        remainders_go_to_the_first(floors, order, n - 1, at);
        assert forall|k: int| 0 <= k < n - 1 implies #[trigger] order[k] != at by {
            assert(order[k] != order[n - 1]);
        }
        if at == i {
            assert(order[n - 1] == i);
        } else if exists|k: int| 0 <= k < n && #[trigger] order[k] == i {
            let k = choose|k: int| 0 <= k < n && #[trigger] order[k] == i;
            assert(k != n - 1);
            assert(0 <= k < n - 1 && order[k] == i);
        }
    }
}

/// Subpaths are paired as long as both paths have one; what only one of them has shrinks
/// if the path that is left has it and grows otherwise.
pub proof fn subpaths_are_paired_in_order(from: int, to: int, i: int)
    requires
        0 <= i < from || 0 <= i < to,
    ensures
        i < from && i < to <==> pairing_at(from, to, i) == Pairing::Both,
        to <= i < from <==> pairing_at(from, to, i) == Pairing::FromOnly,
        from <= i < to <==> pairing_at(from, to, i) == Pairing::ToOnly,
{
}

} // verus!
