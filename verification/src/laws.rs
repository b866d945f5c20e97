//! Laws relating several engine operations.
//!
//! The bounds invariant itself — the stored selection bounds equal the
//! union of the selected strokes' bounds in every reachable state — is part
//! of [`StrokesState::inv`](crate::state::StrokesState::inv), which every
//! engine operation requires and ensures; the proofs here state what holds
//! across sequences of operations, over the same relation predicates that
//! the operations' own contracts use.

use vstd::prelude::*;
use crate::geometry::{Aabb, Vec2, can_translate, spec_translate, lemma_translate_roundtrip,
    map_axis, lemma_map_axis_exact_ratio};
use crate::state::{
    StrokesState, set_selected_rel, translate_rel, lemma_sel_bounds_agree,
    lemma_sel_bounds_translate, lemma_upto_wf,
};
use crate::stroke::{is_translated, stroke_like};

verus! {

/// Selecting a stroke and then deselecting it restores the selection
/// membership of every stroke to its prior value, provided the stroke was
/// not already selected, and restores the selection bounds with it; the
/// chrono state, however, moves on — when the stroke carries a chrono
/// component the shared counter has strictly advanced, so selection is not
/// idempotent on chrono.
pub proof fn lemma_select_then_deselect(
    s0: StrokesState,
    s1: StrokesState,
    s2: StrokesState,
    key: int,
)
    requires
        s0.inv(),
        set_selected_rel(s0, s1, key, true),
        set_selected_rel(s1, s2, key, false),
        !s0.is_selected(key),
    ensures
        forall|j: int| #[trigger] s2.is_selected(j) == s0.is_selected(j),
        s2.selection_bounds == s0.selection_bounds,
        s0.has_selection_component(key) && s0.chrono_components@[key] is Some
            ==> s2.chrono_counter > s0.chrono_counter,
{
    if !s0.has_selection_component(key) {
        assert(s1 == s0);
        assert(s2 == s1);
    } else {
        assert(s1.has_selection_component(key));
        assert forall|j: int| #[trigger] s2.is_selected(j) == s0.is_selected(j) by {
            if j == key {
                assert(s2.selection_components@[key] == Some(
                    crate::components::SelectionComponent { selected: false },
                ));
            } else {
                if 0 <= j < s0.selection_components@.len() {
                    assert(s2.selection_components@[j] == s1.selection_components@[j]);
                    assert(s1.selection_components@[j] == s0.selection_components@[j]);
                }
            }
        }
        let n = s0.num_strokes();
        assert forall|i: int|
            0 <= i < n implies #[trigger] s0.selection_components@[i] == s2.selection_components@[i]
            && s0.strokes@[i] == s2.strokes@[i] by {
            if i == key {
                assert(s0.selection_components@[key]->Some_0.selected == false);
            }
        }
        lemma_sel_bounds_agree(s0, s2, n);
        assert(s2.selection_bounds == s2.spec_selection_bounds());
        assert(s2.num_strokes() == n);
    }
}

/// Translating the selection by `v` and then by its negation restores
/// every selected stroke's bounds and hitbox, leaves unselected strokes
/// untouched throughout, and restores the selection bounds: group
/// translation is an inverse pair.
pub proof fn lemma_translate_selection_roundtrip(
    s0: StrokesState,
    s1: StrokesState,
    s2: StrokesState,
    v: Vec2,
    w: Vec2,
)
    requires
        s0.inv(),
        s0.selection_translatable(v),
        translate_rel(s0, s1, v),
        translate_rel(s1, s2, w),
        w.x as int == -(v.x as int),
        w.y as int == -(v.y as int),
    ensures
        forall|i: int|
            0 <= i < s0.num_strokes() && !s0.is_selected(i) ==> #[trigger] s2.strokes@[i]
                == s0.strokes@[i],
        forall|i: int|
            0 <= i < s0.num_strokes() && s0.is_selected(i) ==> #[trigger] s2.strokes@[i] is Some
                && stroke_like(s0.strokes@[i]->Some_0, s2.strokes@[i]->Some_0),
        s2.selection_bounds == s0.selection_bounds,
{
    let n = s0.num_strokes();
    assert forall|i: int|
        0 <= i < n && s0.is_selected(i) implies #[trigger] s2.strokes@[i] is Some && stroke_like(
        s0.strokes@[i]->Some_0,
        s2.strokes@[i]->Some_0,
    ) by {
        assert(s1.is_selected(i) == s0.is_selected(i));
        let a = s0.strokes@[i]->Some_0;
        let b = s1.strokes@[i]->Some_0;
        let c = s2.strokes@[i]->Some_0;
        assert(a.wf());
        assert(can_translate(s0.stroke_bounds_at(i), v));
        assert(can_translate(a.bounds_spec(), v));
        assert(is_translated(a, b, v));
        assert(is_translated(b, c, w));
        assert(c.bounds_spec() == a.bounds_spec());
        assert forall|k: int| 0 <= k < a.hitbox_spec().len() implies #[trigger] c.hitbox_spec()[k]
            == a.hitbox_spec()[k] by {
            assert(b.hitbox_spec()[k] == spec_translate(a.hitbox_spec()[k], v));
            assert(c.hitbox_spec()[k] == spec_translate(b.hitbox_spec()[k], w));
        }
        assert(c.hitbox_spec() =~= a.hitbox_spec());
    }
    assert forall|i: int|
        0 <= i < n && !s0.is_selected(i) implies #[trigger] s2.strokes@[i] == s0.strokes@[i] by {
        assert(s1.is_selected(i) == s0.is_selected(i));
        assert(s1.strokes@[i] == s0.strokes@[i]);
    }
    match s0.selection_bounds {
        Option::None => {},
        Option::Some(b) => {
            lemma_sel_bounds_translate(s0, s1, v, n);
            lemma_upto_wf(s0, n);
            lemma_translate_roundtrip(b, v, w);
        },
    }
}

/// The exact-ratio form of the group resize: when the rescaled offset of a
/// selected stroke's corner divides evenly, the corner's offset within the
/// new group bounds stands in exactly the same ratio to the new extent as
/// its old offset did to the old extent (here for the horizontal minimum;
/// the other corners follow the same per-axis map).
pub proof fn lemma_resize_exact_ratio(pre: StrokesState, post: StrokesState, nb: Aabb, i: int)
    requires
        pre.inv(),
        crate::state::resize_rel(pre, post, nb),
        pre.selection_bounds is Some,
        pre.selection_bounds->Some_0.min_x < pre.selection_bounds->Some_0.max_x,
        pre.selection_bounds->Some_0.min_y < pre.selection_bounds->Some_0.max_y,
        nb.min_x <= nb.max_x,
        0 <= i < pre.num_strokes(),
        pre.is_selected(i),
        (pre.stroke_bounds_at(i).min_x - pre.selection_bounds->Some_0.min_x) * (nb.max_x
            - nb.min_x) % (pre.selection_bounds->Some_0.max_x
            - pre.selection_bounds->Some_0.min_x) == 0,
    ensures
        (post.stroke_bounds_at(i).min_x - nb.min_x) * (pre.selection_bounds->Some_0.max_x
            - pre.selection_bounds->Some_0.min_x) == (pre.stroke_bounds_at(i).min_x
            - pre.selection_bounds->Some_0.min_x) * (nb.max_x - nb.min_x),
{
    let group = pre.selection_bounds->Some_0;
    assert(post.strokes@[i] is Some && crate::state::group_resized(
        pre.strokes@[i]->Some_0,
        post.strokes@[i]->Some_0,
        group,
        nb,
    ));
    assert(post.stroke_bounds_at(i).min_x as int == map_axis(
        pre.stroke_bounds_at(i).min_x as int,
        group.min_x as int,
        group.max_x as int,
        nb.min_x as int,
        nb.max_x as int,
    ));
    lemma_map_axis_exact_ratio(
        pre.stroke_bounds_at(i).min_x as int,
        group.min_x as int,
        group.max_x as int,
        nb.min_x as int,
        nb.max_x as int,
    );
}

} // verus!
