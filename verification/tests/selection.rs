use stroke_selection::components::{RenderComponent, SelectionComponent, TrashComponent};
use stroke_selection::geometry::{Aabb, Vec2};
use stroke_selection::selector::Selector;
use stroke_selection::state::StrokesState;
use stroke_selection::stroke::Stroke;

fn aabb(min_x: i64, min_y: i64, max_x: i64, max_y: i64) -> Aabb {
    Aabb::new(min_x, min_y, max_x, max_y)
}

fn shape(b: Aabb) -> Stroke {
    Stroke::ShapeStroke { bounds: b }
}

fn marker(b: Aabb, hitbox: Vec<Aabb>) -> Stroke {
    Stroke::MarkerStroke { bounds: b, hitbox }
}

fn union_of_selected(s: &StrokesState) -> Option<Aabb> {
    let mut acc: Option<Aabb> = None;
    for key in s.keys_selection() {
        let b = match &s.strokes[key] {
            Some(st) => st.bounds(),
            None => panic!("selected stroke missing"),
        };
        acc = Some(match acc {
            Some(a) => a.merge(&b),
            None => b,
        });
    }
    acc
}

#[test]
fn queries_on_missing_components() {
    let s = StrokesState::new();
    assert!(!s.can_select(0));
    assert_eq!(s.selected(0), None);
    assert_eq!(s.selection_len(), 0);
    assert!(s.keys_selection().is_empty());
}

#[test]
fn set_selected_updates_flag_and_bounds() {
    let mut s = StrokesState::new();
    let a = s.insert_stroke(shape(aabb(0, 0, 10, 10)));
    let b = s.insert_stroke(shape(aabb(20, 20, 30, 30)));
    assert!(s.can_select(a) && s.can_select(b));
    assert_eq!(s.selection_bounds, None);

    s.set_selected(a, true);
    assert_eq!(s.selected(a), Some(true));
    assert_eq!(s.selection_bounds, Some(aabb(0, 0, 10, 10)));

    s.set_selected(b, true);
    assert_eq!(s.selection_len(), 2);
    assert_eq!(s.keys_selection(), vec![a, b]);
    assert_eq!(s.selection_bounds, Some(aabb(0, 0, 30, 30)));
    assert_eq!(s.selection_bounds, union_of_selected(&s));

    s.set_selected(a, false);
    assert_eq!(s.selection_bounds, Some(aabb(20, 20, 30, 30)));
    assert_eq!(s.selection_bounds, union_of_selected(&s));
}

#[test]
fn select_then_deselect_restores_membership() {
    let mut s = StrokesState::new();
    let a = s.insert_stroke(shape(aabb(0, 0, 10, 10)));
    let b = s.insert_stroke(shape(aabb(5, 5, 15, 15)));
    s.set_selected(b, true);
    let before_membership: Vec<usize> = s.keys_selection();
    let before_bounds = s.selection_bounds;
    let before_chrono = s.chrono_counter;

    s.set_selected(a, true);
    s.set_selected(a, false);

    assert_eq!(s.keys_selection(), before_membership);
    assert_eq!(s.selection_bounds, before_bounds);
    // Selection is not idempotent on chrono: the counter moved on.
    assert!(s.chrono_counter > before_chrono);
}

#[test]
fn deselect_all_clears_and_stamps() {
    let mut s = StrokesState::new();
    let a = s.insert_stroke(shape(aabb(0, 0, 10, 10)));
    let b = s.insert_stroke(shape(aabb(20, 0, 30, 10)));
    s.set_selected(a, true);
    s.set_selected(b, true);
    let chrono_before = s.chrono_counter;

    s.deselect_all_strokes();
    assert_eq!(s.selection_len(), 0);
    assert_eq!(s.selection_bounds, None);
    // One fresh tick per previously selected stroke, in scan order.
    assert_eq!(s.chrono_counter, chrono_before + 2);
    assert_eq!(s.chrono_components[a].unwrap().t, chrono_before + 1);
    assert_eq!(s.chrono_components[b].unwrap().t, chrono_before + 2);
}

#[test]
fn translate_selection_moves_strokes_and_bounds() {
    let mut s = StrokesState::new();
    let a = s.insert_stroke(shape(aabb(0, 0, 10, 10)));
    let b = s.insert_stroke(shape(aabb(20, 20, 30, 30)));
    s.set_selected(a, true);
    let v = Vec2::new(5, 7);

    s.translate_selection(v);
    assert_eq!(s.strokes[a].as_ref().unwrap().bounds(), aabb(5, 7, 15, 17));
    // Unselected strokes stay put.
    assert_eq!(s.strokes[b].as_ref().unwrap().bounds(), aabb(20, 20, 30, 30));
    assert_eq!(s.selection_bounds, Some(aabb(5, 7, 15, 17)));
    // The cached render placement follows the stroke.
    assert_eq!(s.render_components[a].unwrap().image_bounds, aabb(5, 7, 15, 17));
}

#[test]
fn translate_then_back_restores() {
    let mut s = StrokesState::new();
    let a = s.insert_stroke(marker(
        aabb(0, 0, 10, 10),
        vec![aabb(0, 0, 4, 4), aabb(6, 6, 10, 10)],
    ));
    s.set_selected(a, true);
    let v = Vec2::new(13, -9);

    s.translate_selection(v);
    s.translate_selection(v.neg());

    assert_eq!(s.strokes[a].as_ref().unwrap().bounds(), aabb(0, 0, 10, 10));
    match &s.strokes[a] {
        Some(Stroke::MarkerStroke { hitbox, .. }) => {
            assert_eq!(hitbox.as_slice(), &[aabb(0, 0, 4, 4), aabb(6, 6, 10, 10)]);
        }
        _ => panic!("stroke changed variant"),
    }
    assert_eq!(s.selection_bounds, Some(aabb(0, 0, 10, 10)));
}

#[test]
fn resize_selection_rescales_the_group() {
    let mut s = StrokesState::new();
    let a = s.insert_stroke(shape(aabb(0, 0, 2, 2)));
    let b = s.insert_stroke(shape(aabb(2, 2, 4, 4)));
    s.set_selected(a, true);
    s.set_selected(b, true);
    assert_eq!(s.selection_bounds, Some(aabb(0, 0, 4, 4)));

    s.resize_selection(aabb(0, 0, 8, 8));
    // Each stroke keeps its relative place and extent within the group.
    assert_eq!(s.strokes[a].as_ref().unwrap().bounds(), aabb(0, 0, 4, 4));
    assert_eq!(s.strokes[b].as_ref().unwrap().bounds(), aabb(4, 4, 8, 8));
    assert_eq!(s.selection_bounds, Some(aabb(0, 0, 8, 8)));
    // Re-rasterization was requested for the touched strokes.
    assert!(s.render_components[a].unwrap().regenerate_flag);
    assert_eq!(s.render_components[a].unwrap().image_bounds, aabb(0, 0, 4, 4));
}

#[test]
fn resize_selection_with_offset_group() {
    let mut s = StrokesState::new();
    let a = s.insert_stroke(shape(aabb(10, 10, 20, 30)));
    s.set_selected(a, true);

    s.resize_selection(aabb(100, 200, 120, 240));
    assert_eq!(s.strokes[a].as_ref().unwrap().bounds(), aabb(100, 200, 120, 240));
    assert_eq!(s.selection_bounds, Some(aabb(100, 200, 120, 240)));
}

#[test]
fn resize_selection_degenerate_axis_is_rejected() {
    let mut s = StrokesState::new();
    let a = s.insert_stroke(shape(aabb(5, 0, 5, 10)));
    s.set_selected(a, true);
    let before = s.selection_bounds;

    s.resize_selection(aabb(0, 0, 10, 10));
    // Zero width leaves no ratio to rescale by: the call is a no-op.
    assert_eq!(s.strokes[a].as_ref().unwrap().bounds(), aabb(5, 0, 5, 10));
    assert_eq!(s.selection_bounds, before);
}

#[test]
fn resize_selection_without_selection_is_noop() {
    let mut s = StrokesState::new();
    let a = s.insert_stroke(shape(aabb(0, 0, 10, 10)));
    s.resize_selection(aabb(0, 0, 100, 100));
    assert_eq!(s.strokes[a].as_ref().unwrap().bounds(), aabb(0, 0, 10, 10));
    assert_eq!(s.selection_bounds, None);
}

#[test]
fn selector_selects_contained_shape() {
    let mut s = StrokesState::new();
    let a = s.insert_stroke(shape(aabb(10, 10, 20, 20)));
    let changed = s.update_selection_for_selector(
        &Selector::new(Some(aabb(0, 0, 30, 30))),
        None,
    );
    assert!(changed);
    assert_eq!(s.selected(a), Some(true));
    assert_eq!(s.selection_bounds, Some(aabb(10, 10, 20, 20)));
}

#[test]
fn selector_partial_overlap_never_selects_shape() {
    let mut s = StrokesState::new();
    let a = s.insert_stroke(shape(aabb(0, 0, 10, 10)));
    let changed = s.update_selection_for_selector(
        &Selector::new(Some(aabb(9, 9, 30, 30))),
        None,
    );
    assert!(!changed);
    assert_eq!(s.selected(a), Some(false));
}

#[test]
fn selector_partial_overlap_with_uncovered_hitbox_does_not_select() {
    let mut s = StrokesState::new();
    // A freehand stroke whose ink runs across the whole bounds; the
    // selector covers only a corner (about a tenth of the area) and misses
    // one hitbox sub-box entirely.
    let a = s.insert_stroke(marker(
        aabb(0, 0, 10, 10),
        vec![aabb(0, 0, 5, 5), aabb(5, 5, 10, 10)],
    ));
    let changed = s.update_selection_for_selector(
        &Selector::new(Some(aabb(9, 9, 12, 12))),
        None,
    );
    assert!(!changed);
    assert_eq!(s.selected(a), Some(false));
}

#[test]
fn selector_partial_overlap_covering_all_hitboxes_selects_freehand() {
    let mut s = StrokesState::new();
    // The hitbox hugs the lower-left ink; the selector covers every
    // sub-box without containing the full bounds.
    let a = s.insert_stroke(marker(
        aabb(0, 0, 20, 20),
        vec![aabb(0, 0, 4, 4), aabb(3, 3, 8, 8)],
    ));
    let changed = s.update_selection_for_selector(
        &Selector::new(Some(aabb(-1, -1, 10, 10))),
        None,
    );
    assert!(changed);
    assert_eq!(s.selected(a), Some(true));
}

#[test]
fn selector_without_bounds_is_noop() {
    let mut s = StrokesState::new();
    let a = s.insert_stroke(shape(aabb(0, 0, 10, 10)));
    s.set_selected(a, true);
    let changed = s.update_selection_for_selector(&Selector::new(None), None);
    assert!(!changed);
    assert_eq!(s.selected(a), Some(true));
}

#[test]
fn selector_skips_trashed_and_hidden_strokes() {
    let mut s = StrokesState::new();
    let trashed = s.insert_stroke(shape(aabb(0, 0, 10, 10)));
    let hidden = s.insert_stroke(shape(aabb(20, 0, 30, 10)));
    let visible = s.insert_stroke(shape(aabb(40, 0, 50, 10)));
    s.trash_components[trashed] = Some(TrashComponent { trashed: true });
    let rc = s.render_components[hidden].unwrap();
    s.render_components[hidden] = Some(RenderComponent {
        render: false,
        ..rc
    });

    let changed = s.update_selection_for_selector(
        &Selector::new(Some(aabb(-10, -10, 100, 100))),
        None,
    );
    assert!(changed);
    assert_eq!(s.selected(trashed), Some(false));
    assert_eq!(s.selected(hidden), Some(false));
    assert_eq!(s.selected(visible), Some(true));
}

#[test]
fn selector_skips_strokes_outside_viewport() {
    let mut s = StrokesState::new();
    let inside = s.insert_stroke(shape(aabb(0, 0, 10, 10)));
    let outside = s.insert_stroke(shape(aabb(500, 500, 510, 510)));
    let changed = s.update_selection_for_selector(
        &Selector::new(Some(aabb(-10, -10, 1000, 1000))),
        Some(aabb(-50, -50, 50, 50)),
    );
    assert!(changed);
    assert_eq!(s.selected(inside), Some(true));
    // Out of the viewport: the previous flag is kept, not rewritten.
    assert_eq!(s.selected(outside), Some(false));
}

#[test]
fn selector_chrono_stamps_only_new_selections() {
    let mut s = StrokesState::new();
    let a = s.insert_stroke(shape(aabb(0, 0, 10, 10)));
    s.set_selected(a, true);
    let chrono_before = s.chrono_counter;
    // The selector still covers the stroke: no transition, no new stamp.
    let changed = s.update_selection_for_selector(
        &Selector::new(Some(aabb(-5, -5, 15, 15))),
        None,
    );
    assert!(!changed);
    assert_eq!(s.chrono_counter, chrono_before);
}

#[test]
fn duplicate_selection_offsets_clones_by_double_constant() {
    let mut s = StrokesState::new();
    let a = s.insert_stroke(shape(aabb(10, 10, 20, 20)));
    let untouched = s.insert_stroke(shape(aabb(100, 100, 110, 110)));
    s.set_selected(a, true);

    s.duplicate_selection();

    assert_eq!(s.strokes.len(), 3);
    // The original keeps its place and leaves the selection.
    assert_eq!(s.strokes[a].as_ref().unwrap().bounds(), aabb(10, 10, 20, 20));
    assert_eq!(s.selected(a), Some(false));
    assert_eq!(s.strokes[untouched].as_ref().unwrap().bounds(), aabb(100, 100, 110, 110));
    // The clone is selected and displaced by twice the per-axis constant.
    let clone_key = 2;
    assert_eq!(s.selected(clone_key), Some(true));
    assert_eq!(s.strokes[clone_key].as_ref().unwrap().bounds(), aabb(50, 50, 60, 60));
    assert_eq!(s.selection_bounds, Some(aabb(50, 50, 60, 60)));
    assert_eq!(s.selection_bounds, union_of_selected(&s));
}

#[test]
fn selection_component_defaults_deselected() {
    assert!(!SelectionComponent::default().selected);
    assert!(SelectionComponent::new(true).selected);
    assert!(!SelectionComponent::new(false).selected);
}

#[test]
fn set_selected_on_missing_component_is_noop() {
    let mut s = StrokesState::new();
    let a = s.insert_stroke(shape(aabb(0, 0, 10, 10)));
    s.set_selected(a + 7, true);
    assert_eq!(s.selection_len(), 0);
    assert_eq!(s.selection_bounds, None);
}

#[test]
fn selector_intersection_with_empty_hitbox_selects() {
    let mut s = StrokesState::new();
    // A freehand stroke with no hitbox sub-boxes: "the selector covers
    // every sub-box" holds vacuously, so intersection selects.
    let a = s.insert_stroke(marker(aabb(0, 0, 10, 10), vec![]));
    let changed = s.update_selection_for_selector(
        &Selector::new(Some(aabb(9, 9, 30, 30))),
        None,
    );
    assert!(changed);
    assert_eq!(s.selected(a), Some(true));
}

#[test]
fn resize_carries_the_hitbox_along() {
    let mut s = StrokesState::new();
    let a = s.insert_stroke(marker(
        aabb(0, 0, 4, 4),
        vec![aabb(0, 0, 2, 2), aabb(2, 2, 4, 4)],
    ));
    s.set_selected(a, true);
    s.resize_selection(aabb(0, 0, 8, 8));
    match &s.strokes[a] {
        Some(Stroke::MarkerStroke { bounds, hitbox }) => {
            assert_eq!(*bounds, aabb(0, 0, 8, 8));
            assert_eq!(hitbox.as_slice(), &[aabb(0, 0, 4, 4), aabb(4, 4, 8, 8)]);
        }
        _ => panic!("stroke changed variant"),
    }
}

#[test]
fn keys_selection_is_ascending() {
    let mut s = StrokesState::new();
    let keys: Vec<usize> = (0..5).map(|i| {
        s.insert_stroke(shape(aabb(i * 10, 0, i * 10 + 5, 5)))
    }).collect();
    s.set_selected(keys[3], true);
    s.set_selected(keys[0], true);
    s.set_selected(keys[4], true);
    assert_eq!(s.keys_selection(), vec![keys[0], keys[3], keys[4]]);
    assert_eq!(s.selection_len(), 3);
}

#[test]
fn selector_stamps_newly_selected_strokes() {
    let mut s = StrokesState::new();
    let a = s.insert_stroke(shape(aabb(0, 0, 10, 10)));
    let before = s.chrono_counter;
    let changed = s.update_selection_for_selector(
        &Selector::new(Some(aabb(-5, -5, 15, 15))),
        None,
    );
    assert!(changed);
    assert_eq!(s.chrono_counter, before + 1);
    assert_eq!(s.chrono_components[a].unwrap().t, before + 1);
}
