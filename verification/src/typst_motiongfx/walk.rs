//! The outlines of a typeset page.
use crate::peniko_motiongfx::morph::{Coord, PathEl, Point};
use crate::typst_motiongfx::{glyph_key, key_of_glyph, ShapeKind};
use vstd::prelude::*;

verus! {

/// A linear map and a translation, as the bits of double-precision numbers.
#[derive(Debug, Clone, Copy, PartialEq, Eq, Structural)]
pub struct Transform {
    pub sx: Coord,
    pub ky: Coord,
    pub kx: Coord,
    pub sy: Coord,
    pub tx: Coord,
    pub ty: Coord,
}

/// A step on the way from the page to a part of it.
#[derive(Debug, Clone, Copy, PartialEq, Eq, Structural)]
pub enum Step {
    /// To where an item stands in its frame.
    Shift(Point),
    /// Into a group.
    Enter(Transform),
}

/// A glyph of a text.
#[derive(Debug, Clone, Copy, PartialEq, Eq, Structural)]
pub struct Glyph {
    pub id: u16,
    /// Whether the font draws anything for it.
    pub outlined: bool,
}

/// A part of a curve.
#[derive(Debug, Clone, Copy, PartialEq, Eq, Structural)]
pub enum CurveItem {
    Move(Point),
    Line(Point),
    Cubic(Point, Point, Point),
    Close,
}

/// What a shape looks like.
#[derive(Debug)]
pub enum Geometry {
    /// A rectangle from the origin to the point.
    Rect(Point),
    /// A line from the origin to the point.
    Line(Point),
    Curve(Vec<CurveItem>),
}

impl Geometry {
    /// What kind of shape it is.
    pub open spec fn spec_kind(&self) -> ShapeKind {
        match self {
            Geometry::Rect(_) => ShapeKind::Rect,
            Geometry::Line(_) => ShapeKind::Line,
            Geometry::Curve(_) => ShapeKind::Curve,
        }
    }

    /// What kind of shape it is.
    #[verifier::when_used_as_spec(spec_kind)]
    pub fn kind(&self) -> (kind: ShapeKind)
        ensures
            kind == self.spec_kind(),
    {
        match self {
            Geometry::Rect(_) => ShapeKind::Rect,
            Geometry::Line(_) => ShapeKind::Line,
            Geometry::Curve(_) => ShapeKind::Curve,
        }
    }

    /// How a line or a curve is drawn.
    pub open spec fn drawn(self) -> Option<Seq<PathEl>> {
        match self {
            Geometry::Rect(_) => None,
            Geometry::Line(to) => Some(
                seq![PathEl::MoveTo(Point { x: 0, y: 0 }), PathEl::LineTo(to)],
            ),
            Geometry::Curve(items) => Some(items@.map_values(|item: CurveItem| element(item))),
        }
    }

    /// How a line or a curve is drawn. A rectangle is drawn from its corners.
    pub fn path(&self) -> (path: Option<Vec<PathEl>>)
        ensures
            match path {
                Some(path) => self.drawn() == Some(path@),
                None => self.drawn() is None,
            },
    {
        match self {
            Geometry::Rect(_) => None,
            Geometry::Line(to) => {
                let mut path: Vec<PathEl> = Vec::new();
                path.push(PathEl::MoveTo(Point { x: 0, y: 0 }));
                path.push(PathEl::LineTo(*to));
                assert(path@ =~= self.drawn()->0);
                Some(path)
            },
            Geometry::Curve(items) => {
                let mut path: Vec<PathEl> = Vec::new();
                let mut i: usize = 0;
                while i < items.len()
                    invariant
                        i <= items@.len(),
                        path@ == items@.map_values(|item: CurveItem| element(item)).take(i as int),
                    decreases items@.len() - i,
                {
                    path.push(
                        match items[i] {
                            CurveItem::Move(to) => PathEl::MoveTo(to),
                            CurveItem::Line(to) => PathEl::LineTo(to),
                            CurveItem::Cubic(a, b, to) => PathEl::CurveTo(a, b, to),
                            CurveItem::Close => PathEl::ClosePath,
                        },
                    );
                    assert(path@ =~= items@.map_values(|item: CurveItem| element(item)).take(i + 1));
                    i += 1;
                }
                assert(path@ =~= items@.map_values(|item: CurveItem| element(item)));
                Some(path)
            },
        }
    }
}

/// How a part of a curve is drawn.
pub open spec fn element(item: CurveItem) -> PathEl {
    match item {
        CurveItem::Move(to) => PathEl::MoveTo(to),
        CurveItem::Line(to) => PathEl::LineTo(to),
        CurveItem::Cubic(a, b, to) => PathEl::CurveTo(a, b, to),
        CurveItem::Close => PathEl::ClosePath,
    }
}

/// An item of a frame.
#[derive(Debug)]
pub enum Item {
    /// Items with a transformation in common.
    Group { transform: Transform, frame: Frame },
    /// A text in one font, with the hash of the name of its family.
    Text { handle: usize, family: u64, glyphs: Vec<Glyph> },
    /// A shape, with the hash of the name of its kind.
    Shape { handle: usize, kind: u64 },
    /// Anything that draws nothing.
    Other,
}

/// An item, and where it stands.
#[derive(Debug)]
pub struct Placed {
    pub at: Point,
    pub item: Item,
}

/// Items, those further back first.
#[derive(Debug)]
pub struct Frame {
    pub items: Vec<Placed>,
}

/// An outline of a page: where it is, what it draws, and what identifies it.
#[derive(Debug)]
pub struct Outline {
    /// The way from the page.
    pub place: Vec<Step>,
    /// The text or shape.
    pub handle: usize,
    /// Which glyph of the text it is.
    pub glyph: Option<usize>,
    /// Identity key for morphing.
    pub key: u64,
}

/// What an outline holds.
#[verifier::ext_equal]
pub struct OutlineModel {
    pub place: Seq<Step>,
    pub handle: usize,
    pub glyph: Option<usize>,
    pub key: u64,
}

impl View for Outline {
    type V = OutlineModel;

    open spec fn view(&self) -> OutlineModel {
        OutlineModel {
            place: self.place@,
            handle: self.handle,
            glyph: self.glyph,
            key: self.key,
        }
    }
}

/// What outlines hold.
pub open spec fn models(outlines: Seq<Outline>) -> Seq<OutlineModel> {
    outlines.map_values(|outline: Outline| outline@)
}

/// The outlines of a text: one for every glyph that the font draws something
/// for.
pub open spec fn text_outlines(
    handle: usize,
    family: u64,
    glyphs: Seq<Glyph>,
    place: Seq<Step>,
) -> Seq<OutlineModel>
    decreases glyphs.len(),
{
    if glyphs.len() == 0 {
        Seq::empty()
    } else {
        let before = text_outlines(handle, family, glyphs.drop_last(), place);
        let glyph = glyphs.last();
        if glyph.outlined {
            before.push(
                OutlineModel {
                    place,
                    handle,
                    glyph: Some((glyphs.len() - 1) as usize),
                    key: key_of_glyph(family, glyph.id),
                },
            )
        } else {
            before
        }
    }
}

/// The outlines of an item.
pub open spec fn item_outlines(placed: Placed, place: Seq<Step>) -> Seq<OutlineModel>
    decreases placed,
{
    let local = place.push(Step::Shift(placed.at));
    match placed.item {
        Item::Group { transform, frame } => outlines(
            frame.items@,
            local.push(Step::Enter(transform)),
        ),
        Item::Text { handle, family, glyphs } => text_outlines(handle, family, glyphs@, local),
        Item::Shape { handle, kind } => seq![
            OutlineModel { place: local, handle, glyph: None, key: kind },
        ],
        Item::Other => Seq::empty(),
    }
}

/// The outlines of items, one after another.
pub open spec fn outlines(items: Seq<Placed>, place: Seq<Step>) -> Seq<OutlineModel>
    decreases items,
{
    if items.len() == 0 {
        Seq::empty()
    } else {
        outlines(items.drop_last(), place) + item_outlines(items[items.len() - 1], place)
    }
}

/// A copy of a way.
fn copy_place(place: &Vec<Step>) -> (copy: Vec<Step>)
    ensures
        copy@ == place@,
{
    let mut copy: Vec<Step> = Vec::new();
    let mut i: usize = 0;
    while i < place.len()
        invariant
            i <= place@.len(),
            copy@ == place@.take(i as int),
        decreases place@.len() - i,
    {
        copy.push(place[i]);
        assert(copy@ =~= place@.take(i + 1));
        i += 1;
    }
    assert(copy@ =~= place@);
    copy
}

/// Finds the outlines of a text.
fn walk_text(
    handle: usize,
    family: u64,
    glyphs: &Vec<Glyph>,
    place: &Vec<Step>,
    out: &mut Vec<Outline>,
)
    ensures
        models(final(out)@) == models(old(out)@) + text_outlines(
            handle,
            family,
            glyphs@,
            place@,
        ),
{
    let ghost before = models(out@);
    let mut i: usize = 0;
    assert(models(out@) =~= before + text_outlines(handle, family, glyphs@.take(0), place@));
    while i < glyphs.len()
        invariant
            i <= glyphs@.len(),
            models(out@) == before + text_outlines(
                handle,
                family,
                glyphs@.take(i as int),
                place@,
            ),
        decreases glyphs@.len() - i,
    {
        let ghost done = out@;
        let ghost more = glyphs@.take(i + 1);
        assert(more.drop_last() =~= glyphs@.take(i as int));
        assert(more.last() == glyphs@[i as int]);
        if glyphs[i].outlined {
            out.push(
                Outline {
                    place: copy_place(place),
                    handle,
                    glyph: Some(i),
                    key: glyph_key(family, glyphs[i].id),
                },
            );
            assert(models(out@) =~= models(done).push(out@[done.len() as int]@));
            assert(models(out@) =~= before + text_outlines(handle, family, more, place@));
        }
        i += 1;
    }
    assert(glyphs@.take(i as int) =~= glyphs@);
}

/// Finds the outlines of a frame: those of its items one after another, and
/// of a group those of its own frame.
pub fn walk(frame: &Frame, place: &Vec<Step>, out: &mut Vec<Outline>)
    ensures
        models(final(out)@) == models(old(out)@) + outlines(frame.items@, place@),
    decreases frame,
{
    let ghost before = models(out@);
    let items = &frame.items;
    let mut i: usize = 0;
    assert(models(out@) =~= before + outlines(items@.take(0), place@));
    while i < items.len()
        invariant
            i <= items@.len(),
            items == frame.items,
            models(out@) == before + outlines(items@.take(i as int), place@),
        decreases items@.len() - i,
    {
        let ghost done = models(out@);
        let ghost more = items@.take(i + 1);
        let placed = &items[i];
        assert(more.drop_last() =~= items@.take(i as int));
        assert(more[more.len() - 1] == *placed);
        let mut local = copy_place(place);
        local.push(Step::Shift(placed.at));
        match &placed.item {
            Item::Group { transform, frame: inner } => {
                local.push(Step::Enter(*transform));
                walk(inner, &local, out);
            },
            Item::Text { handle, family, glyphs } => {
                walk_text(*handle, *family, glyphs, &local, out);
            },
            Item::Shape { handle, kind } => {
                let ghost found = out@;
                out.push(Outline { place: local, handle: *handle, glyph: None, key: *kind });
                assert(models(out@) =~= models(found).push(out@[found.len() as int]@));
            },
            Item::Other => {},
        }
        assert(models(out@) =~= done + item_outlines(*placed, place@));
        assert(models(out@) =~= before + outlines(more, place@));
        i += 1;
    }
    assert(items@.take(i as int) =~= items@);
}

/// Every outline of a text is where the text is.
proof fn text_is_in_place(
    handle: usize,
    family: u64,
    glyphs: Seq<Glyph>,
    place: Seq<Step>,
    i: int,
)
    requires
        0 <= i < text_outlines(handle, family, glyphs, place).len(),
    ensures
        text_outlines(handle, family, glyphs, place)[i].place == place,
    decreases glyphs.len(),
{
    let before = text_outlines(handle, family, glyphs.drop_last(), place);
    if i < before.len() {
        text_is_in_place(handle, family, glyphs.drop_last(), place, i);
    }
}

/// Whether one way goes on from another.
pub open spec fn goes_on(place: Seq<Step>, way: Seq<Step>) -> bool {
    place.len() < way.len() && way.take(place.len() as int) == place
}

/// The way to an outline goes on from that to the frame: what moves a frame
/// moves all of it.
pub proof fn outlines_move_along(items: Seq<Placed>, place: Seq<Step>, i: int)
    requires
        0 <= i < outlines(items, place).len(),
    ensures
        goes_on(place, outlines(items, place)[i].place),
    decreases items,
{
    reveal_with_fuel(item_outlines, 2);
    let before = outlines(items.drop_last(), place);
    if i < before.len() {
        outlines_move_along(items.drop_last(), place, i);
    } else {
        let placed = items[items.len() - 1];
        let local = place.push(Step::Shift(placed.at));
        assert(local.take(place.len() as int) =~= place);
        match placed.item {
            Item::Group { transform, frame } => {
                let inner = local.push(Step::Enter(transform));
                assert(item_outlines(placed, place) == outlines(frame.items@, inner));
                outlines_move_along(frame.items@, inner, i - before.len());
                let way = outlines(items, place)[i].place;
                assert(way.take(place.len() as int) =~= way.take(inner.len() as int).take(
                    place.len() as int,
                ));
                assert(inner.take(place.len() as int) =~= place);
            },
            Item::Text { handle, family, glyphs } => {
                assert(item_outlines(placed, place) == text_outlines(
                    handle,
                    family,
                    glyphs@,
                    local,
                ));
                text_is_in_place(handle, family, glyphs@, local, i - before.len());
            },
            Item::Shape { handle, kind } => {
                assert(item_outlines(placed, place) == seq![
                    OutlineModel { place: local, handle, glyph: None, key: kind },
                ]);
            },
            Item::Other => {
                assert(item_outlines(placed, place) == Seq::<OutlineModel>::empty());
            },
        }
    }
}

} // verus!
