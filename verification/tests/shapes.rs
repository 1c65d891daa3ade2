use motiongfx::name_table::NameTable;
use motiongfx::peniko_motiongfx::morph::{
    even_splits, pairings, remainder_splits, subpaths, Pairing, PathEl, Point, Segment,
};
use motiongfx::table::Table;
use motiongfx::text::{comes_before, decimal_text, replace_text, same_text, trim_start};
use motiongfx::typst_motiongfx::walk::{
    walk, CurveItem, Frame, Geometry, Glyph, Item, Placed, Step, Transform,
};
use motiongfx::typst_motiongfx::{
    glyph_key, latex_source, math_source, text_source, CompileError, ShapeKind,
};

fn at(x: f64, y: f64) -> Point {
    Point { x: x.to_bits(), y: y.to_bits() }
}

#[test]
fn a_path_falls_into_subpaths() {
    let path = vec![
        PathEl::MoveTo(at(0.0, 0.0)),
        PathEl::LineTo(at(1.0, 0.0)),
        PathEl::QuadTo(at(2.0, 0.0), at(2.0, 1.0)),
        PathEl::ClosePath,
        PathEl::MoveTo(at(5.0, 5.0)),
        PathEl::CurveTo(at(6.0, 5.0), at(6.0, 6.0), at(5.0, 6.0)),
    ];
    let parts = subpaths(&path);
    assert_eq!(parts.len(), 2);
    // Closing leads back to where the subpath began.
    assert!(parts[0].closed);
    assert_eq!(
        parts[0].segs,
        vec![
            Segment::Line(at(0.0, 0.0), at(1.0, 0.0)),
            Segment::Quad(at(1.0, 0.0), at(2.0, 0.0), at(2.0, 1.0)),
            Segment::Line(at(2.0, 1.0), at(0.0, 0.0)),
        ]
    );
    assert!(!parts[1].closed);
    assert_eq!(
        parts[1].segs,
        vec![Segment::Cubic(at(5.0, 5.0), at(6.0, 5.0), at(6.0, 6.0), at(5.0, 6.0))]
    );
}

#[test]
fn coming_back_to_the_start_needs_no_more_line() {
    let path = vec![
        PathEl::MoveTo(at(0.0, 0.0)),
        PathEl::LineTo(at(1.0, 0.0)),
        PathEl::LineTo(at(0.0, -0.0)),
        PathEl::ClosePath,
    ];
    let parts = subpaths(&path);
    assert_eq!((parts.len(), parts[0].segs.len(), parts[0].closed), (1, 2, true));
    assert!(subpaths(&vec![PathEl::MoveTo(at(1.0, 1.0))]).is_empty());
}

#[test]
fn splits_come_to_what_was_asked() {
    assert_eq!(even_splits(3, 7), vec![3, 2, 2]);
    assert_eq!(even_splits(4, 0), vec![0, 0, 0, 0]);
    assert_eq!(remainder_splits(vec![1, 0, 2], &vec![2, 0, 1], 5), vec![2, 0, 3]);
    assert_eq!(remainder_splits(vec![1, 0, 2], &vec![2, 0, 1], 3), vec![1, 0, 2]);
}

#[test]
fn what_has_no_partner_stands_alone() {
    assert_eq!(pairings(2, 3), vec![Pairing::Both, Pairing::Both, Pairing::ToOnly]);
    assert_eq!(pairings(2, 1), vec![Pairing::Both, Pairing::FromOnly]);
}

#[test]
fn sources_carry_the_page_and_the_size() {
    let preamble = "#set page(width: auto, height: auto, margin: 0pt, fill: none)\n\
                    #set text(size: 20pt, fill: white)\n";
    assert_eq!(math_source("x^2", "20"), format!("{preamble}$ x^2 $\n"));
    assert_eq!(text_source("Hi", "20"), format!("{preamble}Hi\n"));
    assert_eq!(
        latex_source("a\\b\"c", "20"),
        format!(
            "{preamble}#import \"mitex-scope.typ\": mitex-scope\n\
             #math.equation(block: true, eval(\"$ a\\\\b\\\"c $\", scope: mitex-scope))\n"
        )
    );
}

#[test]
fn glyphs_of_different_families_have_different_keys() {
    assert_ne!(glyph_key(1, 7), glyph_key(2, 7));
    assert_ne!(glyph_key(1, 7), glyph_key(1, 8));
    assert_eq!(ShapeKind::Rect.name(), "rect");
    assert_eq!(ShapeKind::Line.name(), "line");
    assert_eq!(ShapeKind::Curve.name(), "curve");
}

#[test]
fn a_page_is_walked_depth_first() {
    let placed = |x: f64, item: Item| Placed { at: at(x, 0.0), item };
    let turn = Transform { sx: 1, ky: 2, kx: 3, sy: 4, tx: 5, ty: 6 };
    let glyphs = vec![
        Glyph { id: 7, outlined: true },
        Glyph { id: 3, outlined: false },
        Glyph { id: 9, outlined: true },
    ];
    let inner = Frame { items: vec![placed(2.0, Item::Text { handle: 1, family: 32, glyphs })] };
    let frame = Frame {
        items: vec![
            placed(1.0, Item::Group { transform: turn, frame: inner }),
            placed(4.0, Item::Other),
            placed(3.0, Item::Shape { handle: 2, kind: 55 }),
        ],
    };
    let mut out = Vec::new();
    walk(&frame, &Vec::new(), &mut out);
    let found: Vec<(usize, Option<usize>, u64)> =
        out.iter().map(|outline| (outline.handle, outline.glyph, outline.key)).collect();
    assert_eq!(found, vec![(1, Some(0), 39), (1, Some(2), 41), (2, None, 55)]);
    assert_eq!(
        out[1].place,
        vec![Step::Shift(at(1.0, 0.0)), Step::Enter(turn), Step::Shift(at(2.0, 0.0))]
    );
    assert_eq!(out[2].place, vec![Step::Shift(at(3.0, 0.0))]);
}

#[test]
fn shapes_are_drawn_from_the_origin() {
    let line = Geometry::Line(at(2.0, 1.0));
    assert_eq!(line.kind(), ShapeKind::Line);
    assert_eq!(
        line.path(),
        Some(vec![PathEl::MoveTo(at(0.0, 0.0)), PathEl::LineTo(at(2.0, 1.0))])
    );
    let curve = Geometry::Curve(vec![
        CurveItem::Move(at(1.0, 1.0)),
        CurveItem::Cubic(at(1.0, 2.0), at(2.0, 2.0), at(2.0, 1.0)),
        CurveItem::Close,
    ]);
    assert_eq!(
        curve.path(),
        Some(vec![
            PathEl::MoveTo(at(1.0, 1.0)),
            PathEl::CurveTo(at(1.0, 2.0), at(2.0, 2.0), at(2.0, 1.0)),
            PathEl::ClosePath,
        ])
    );
    assert_eq!(Geometry::Rect(at(1.0, 1.0)).path(), None);
}

#[test]
fn compile_errors_tell_their_cause() {
    assert_eq!(CompileError::Typst("odd".to_string()).message(), "typst: odd");
    assert_eq!(CompileError::LaTeX("odd".to_string()).message(), "latex: odd");
    assert_eq!(CompileError::NoPage.message(), "document has no page");
}

#[test]
fn texts_are_written_and_compared() {
    assert_eq!(decimal_text(0), "0");
    assert_eq!(decimal_text(u64::MAX), "18446744073709551615");
    assert!(same_text("a", "a") && !same_text("a", "b"));
    assert!(comes_before("a", "ab") && comes_before("ab", "b") && !comes_before("b", "b"));
    assert_eq!(replace_text("a::b::c", "::", "."), "a.b.c");
    assert_eq!(trim_start("::::a::b", "::"), "a::b");
}

#[test]
fn a_table_finds_what_was_put_in() {
    let mut table: Table<u64, &str> = Table::new();
    assert!(table.is_empty());
    assert_eq!(table.insert(3, "a"), None);
    assert_eq!(table.insert(5, "b"), None);
    assert_eq!(table.insert(3, "c"), Some("a"));
    assert_eq!(table.get(&3), Some(&"c"));
    assert!(table.contains_key(&5));
    assert_eq!(table.remove(&3), Some("c"));
    assert_eq!(table.remove(&3), None);
    // What was behind the removed entry is still found.
    assert_eq!(table.get(&5), Some(&"b"));
    assert_eq!(table.keys(), vec![5]);
}

#[test]
fn a_name_table_finds_pairs_of_names() {
    let mut table: NameTable<u32> = NameTable::new();
    table.insert("a".to_string(), "x".to_string(), 1);
    table.insert("a".to_string(), "y".to_string(), 2);
    table.insert("a".to_string(), "x".to_string(), 3);
    assert_eq!(table.len(), 2);
    assert_eq!(table.get("a", "x"), Some(&3));
    assert_eq!(table.get("x", "a"), None);
    table.clear();
    assert_eq!(table.get("a", "x"), None);
}
