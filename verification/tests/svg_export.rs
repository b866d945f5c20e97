use stroke_selection::geometry::{Aabb, Vec2};
use stroke_selection::state::StrokesState;
use stroke_selection::stroke::Stroke;
use stroke_selection::svg::SvgError;

fn aabb(min_x: i64, min_y: i64, max_x: i64, max_y: i64) -> Aabb {
    Aabb::new(min_x, min_y, max_x, max_y)
}

#[test]
fn stroke_markup_exact_text() {
    let st = Stroke::ShapeStroke { bounds: aabb(3, 4, 13, 24) };
    let data = st.gen_svg_data(Vec2::new(0, 0)).unwrap();
    assert_eq!(data, "<rect x=\"3\" y=\"4\" width=\"10\" height=\"20\" class=\"shape\"/>");
}

#[test]
fn stroke_markup_shifts_by_offset() {
    let st = Stroke::MarkerStroke { bounds: aabb(100, 250, 180, 251), hitbox: vec![] };
    let data = st.gen_svg_data(Vec2::new(-100, -250)).unwrap();
    assert_eq!(data, "<rect x=\"0\" y=\"0\" width=\"80\" height=\"1\" class=\"marker\"/>");
}

#[test]
fn stroke_markup_rejects_negative_origin() {
    let st = Stroke::BrushStroke { bounds: aabb(5, 5, 10, 10), hitbox: vec![] };
    assert_eq!(st.gen_svg_data(Vec2::new(-6, 0)), Err(SvgError::OffsetOutOfRange));
    assert_eq!(st.gen_svg_data(Vec2::new(0, -6)), Err(SvgError::OffsetOutOfRange));
}

#[test]
fn empty_selection_exports_nothing() {
    let mut s = StrokesState::new();
    s.insert_stroke(Stroke::ShapeStroke { bounds: aabb(0, 0, 10, 10) });
    assert_eq!(s.gen_svg_selection(), None);
}

#[test]
fn single_stroke_document_exact_text() {
    let mut s = StrokesState::new();
    let a = s.insert_stroke(Stroke::ShapeStroke { bounds: aabb(10, 20, 40, 60) });
    s.set_selected(a, true);
    let doc = s.gen_svg_selection().unwrap();
    let expected = "<svg x=\"0\" y=\"0\" width=\"30\" height=\"40\" xmlns=\"http://www.w3.org/2000/svg\">\n<rect x=\"0\" y=\"0\" width=\"30\" height=\"40\" class=\"shape\"/>\n</svg>\n";
    assert_eq!(doc, expected);
}

#[test]
fn duplicate_then_export_shows_both_blocks_offset() {
    let mut s = StrokesState::new();
    let a = s.insert_stroke(Stroke::ShapeStroke { bounds: aabb(10, 10, 20, 20) });
    s.set_selected(a, true);
    s.duplicate_selection();
    // Bring the original back into the selection beside its clone.
    s.set_selected(a, true);

    let doc = s.gen_svg_selection().unwrap();
    let blocks: Vec<&str> = doc.matches("<rect ").collect();
    assert_eq!(blocks.len(), 2);
    // With the selection origin at the original's corner, the clone's
    // block sits at twice the per-axis duplication constant.
    assert!(doc.contains("<rect x=\"0\" y=\"0\" width=\"10\" height=\"10\" class=\"shape\"/>"));
    assert!(doc.contains("<rect x=\"40\" y=\"40\" width=\"10\" height=\"10\" class=\"shape\"/>"));
}

#[test]
fn export_shifts_negative_origin_to_zero() {
    let mut s = StrokesState::new();
    let a = s.insert_stroke(Stroke::ShapeStroke { bounds: aabb(-30, -20, -10, 0) });
    s.set_selected(a, true);
    let doc = s.gen_svg_selection().unwrap();
    assert!(doc.contains("<rect x=\"0\" y=\"0\" width=\"20\" height=\"20\" class=\"shape\"/>"));
    assert!(doc.contains("width=\"20\" height=\"20\" xmlns"));
}
