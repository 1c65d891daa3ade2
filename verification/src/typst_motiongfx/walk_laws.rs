//! That every outline of a page is found where it is.
use crate::peniko_motiongfx::morph::{PathEl, Point};
use crate::typst_motiongfx::walk::{
    item_outlines, outlines, text_outlines, CurveItem, Geometry, Glyph, Item, OutlineModel, Placed,
    Step,
};
use crate::typst_motiongfx::key_of_glyph;
use vstd::prelude::*;

verus! {

/// A text has an outline for every glyph that is drawn, in their order, and none for
/// others. It is where the text is, and is identified by its glyph in its family.
pub proof fn every_glyph_is_outlined(
    handle: usize,
    family: u64,
    glyphs: Seq<Glyph>,
    place: Seq<Step>,
)
    requires
        glyphs.len() <= usize::MAX,
    ensures
        ({
            let found = text_outlines(handle, family, glyphs, place);
            &&& forall|i: int|
                0 <= i < glyphs.len() && (#[trigger] glyphs[i]).outlined ==> exists|k: int|
                    0 <= k < found.len() && (#[trigger] found[k]).glyph == Some(i as usize)
            &&& forall|k: int|
                0 <= k < found.len() ==> {
                    &&& (#[trigger] found[k]).glyph is Some
                    &&& found[k].glyph->0 < glyphs.len()
                    &&& glyphs[found[k].glyph->0 as int].outlined
                    &&& found[k].key == key_of_glyph(family, glyphs[found[k].glyph->0 as int].id)
                    &&& found[k].handle == handle
                    &&& found[k].place == place
                }
            &&& forall|k: int, l: int|
                0 <= k < l < found.len() ==> (#[trigger] found[k]).glyph->0 < (
                #[trigger] found[l]).glyph->0
        }),
    decreases glyphs.len(),
{
    if glyphs.len() > 0 {
        let front = glyphs.drop_last();
        let before = text_outlines(handle, family, front, place);
        let found = text_outlines(handle, family, glyphs, place);
        every_glyph_is_outlined(handle, family, front, place);
        assert forall|k: int| 0 <= k < found.len() implies {
            &&& (#[trigger] found[k]).glyph is Some
            &&& found[k].glyph->0 < glyphs.len()
            &&& glyphs[found[k].glyph->0 as int].outlined
            &&& found[k].key == key_of_glyph(family, glyphs[found[k].glyph->0 as int].id)
            &&& found[k].handle == handle
            &&& found[k].place == place
        } by {
            if k < before.len() {
                assert(found[k] == before[k]);
                assert(front[before[k].glyph->0 as int] == glyphs[before[k].glyph->0 as int]);
            }
        }
        assert forall|k: int, l: int| 0 <= k < l < found.len() implies (
        #[trigger] found[k]).glyph->0 < (#[trigger] found[l]).glyph->0 by {
            assert(found[k] == before[k]);
            if l < before.len() {
                assert(found[l] == before[l]);
            }
        }
        assert forall|i: int|
            0 <= i < glyphs.len() && (#[trigger] glyphs[i]).outlined implies exists|k: int|
            0 <= k < found.len() && (#[trigger] found[k]).glyph == Some(i as usize) by {
            if i < front.len() {
                assert(front[i] == glyphs[i]);
                let k = choose|k: int|
                    0 <= k < before.len() && (#[trigger] before[k]).glyph == Some(i as usize);
                assert(found[k] == before[k]);
            } else {
                assert(found[found.len() - 1].glyph == Some(i as usize));
            }
        }
    }
}

/// The outlines of items that stand one after another are those of the first and then those
/// of the others.
pub proof fn outlines_come_in_order(a: Seq<Placed>, b: Seq<Placed>, place: Seq<Step>)
    ensures
        outlines(a + b, place) == outlines(a, place) + outlines(b, place),
    decreases b.len(),
{
    if b.len() == 0 {
        assert(a + b =~= a);
        assert(outlines(b, place) =~= Seq::<OutlineModel>::empty());
    } else {
        outlines_come_in_order(a, b.drop_last(), place);
        assert((a + b).drop_last() =~= a + b.drop_last());
        assert((a + b)[(a + b).len() - 1] == b[b.len() - 1]);
    }
    assert(outlines(a + b, place) =~= outlines(a, place) + outlines(b, place));
}

/// An item on its own.
proof fn outlines_of_one(placed: Placed, place: Seq<Step>)
    ensures
        outlines(seq![placed], place) == item_outlines(placed, place),
{
    let one = seq![placed];
    assert(one.drop_last() =~= Seq::<Placed>::empty());
    assert(outlines(one.drop_last(), place) =~= Seq::<OutlineModel>::empty());
    assert(outlines(one, place) =~= item_outlines(placed, place));
}

/// A shape has one outline, where it stands.
pub proof fn shapes_are_where_they_stand(placed: Placed, place: Seq<Step>)
    requires
        placed.item is Shape,
    ensures
        ({
            let found = outlines(seq![placed], place);
            &&& found.len() == 1
            &&& found[0].place == place.push(Step::Shift(placed.at))
            &&& found[0].glyph is None
            &&& placed.item matches Item::Shape { handle, kind } ==> found[0].handle == handle
                && found[0].key == kind
        }),
{
    outlines_of_one(placed, place);
    reveal_with_fuel(item_outlines, 2);
}

/// A text has the outlines of its glyphs, where it stands.
pub proof fn texts_are_where_they_stand(placed: Placed, place: Seq<Step>)
    requires
        placed.item is Text,
    ensures
        placed.item matches Item::Text { handle, family, glyphs } ==> outlines(
            seq![placed],
            place,
        ) == text_outlines(handle, family, glyphs@, place.push(Step::Shift(placed.at))),
{
    outlines_of_one(placed, place);
    reveal_with_fuel(item_outlines, 2);
}

/// What draws nothing has no outline.
pub proof fn others_have_no_outline(placed: Placed, place: Seq<Step>)
    requires
        placed.item is Other,
    ensures
        outlines(seq![placed], place).len() == 0,
{
    outlines_of_one(placed, place);
    reveal_with_fuel(item_outlines, 2);
}

/// A group has the outlines of its items, with what transforms it behind where it stands.
pub proof fn groups_are_where_they_stand(placed: Placed, place: Seq<Step>)
    requires
        placed.item is Group,
    ensures
        placed.item matches Item::Group { transform, frame } ==> outlines(seq![placed], place)
            == outlines(
            frame.items@,
            place + seq![Step::Shift(placed.at), Step::Enter(transform)],
        ),
{
    outlines_of_one(placed, place);
    reveal_with_fuel(item_outlines, 2);
    match placed.item {
        Item::Group { transform, frame } => {
            assert(place + seq![Step::Shift(placed.at), Step::Enter(transform)] =~= place.push(
                Step::Shift(placed.at),
            ).push(Step::Enter(transform)));
        },
        _ => {},
    }
}

/// A line is drawn from the origin to where it goes.
pub proof fn lines_are_drawn_from_the_origin(to: Point)
    ensures
        Geometry::Line(to).drawn() is Some,
        Geometry::Line(to).drawn()->0.len() == 2,
        Geometry::Line(to).drawn()->0[0] == PathEl::MoveTo(Point { x: 0, y: 0 }),
        Geometry::Line(to).drawn()->0[1] == PathEl::LineTo(to),
{
}

/// A curve is drawn part by part, each through the points that it has, and a rectangle is
/// not drawn as a path.
pub proof fn curves_are_drawn_part_by_part(items: Vec<CurveItem>, corner: Point, i: int)
    requires
        0 <= i < items@.len(),
    ensures
        Geometry::Rect(corner).drawn() is None,
        Geometry::Curve(items).drawn() is Some,
        ({
            let path = Geometry::Curve(items).drawn()->0;
            &&& path.len() == items@.len()
            &&& items@[i] matches CurveItem::Move(to) ==> path[i] == PathEl::MoveTo(to)
            &&& items@[i] matches CurveItem::Line(to) ==> path[i] == PathEl::LineTo(to)
            &&& items@[i] matches CurveItem::Cubic(a, b, to) ==> path[i] == PathEl::CurveTo(
                a,
                b,
                to,
            )
            &&& items@[i] is Close ==> path[i] == PathEl::ClosePath
        }),
{
}

} // verus!
