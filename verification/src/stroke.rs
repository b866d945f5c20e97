//! Drawable objects and their spatial capabilities.
//!
//! A stroke is one of five variants: two freehand kinds (marker, brush) that
//! carry a hitbox — an ordered sequence of sub-boxes following the ink path
//! more tightly than the bounding box — and three block kinds (geometric
//! shape, embedded vector image, embedded bitmap image) whose bounding box is
//! all there is to hit. Every variant exposes its bounds and supports
//! translation and resizing; hit-testing against a selector rectangle is
//! decided here as well.

use vstd::prelude::*;
use crate::geometry::{
    Aabb, Vec2, aabb_wf, vec2_ok, spec_contains, spec_intersects, spec_translate, can_translate,
    is_mapped_aabb, map_aabb,
};

verus! {

/// One drawable object on the canvas.
#[derive(Debug)]
pub enum Stroke {
    MarkerStroke { bounds: Aabb, hitbox: Vec<Aabb> },
    BrushStroke { bounds: Aabb, hitbox: Vec<Aabb> },
    ShapeStroke { bounds: Aabb },
    VectorImage { bounds: Aabb },
    BitmapImage { bounds: Aabb },
}

impl Stroke {
    /// The stroke's bounding box.
    pub open spec fn bounds_spec(self) -> Aabb {
        match self {
            Stroke::MarkerStroke { bounds, .. } => bounds,
            Stroke::BrushStroke { bounds, .. } => bounds,
            Stroke::ShapeStroke { bounds } => bounds,
            Stroke::VectorImage { bounds } => bounds,
            Stroke::BitmapImage { bounds } => bounds,
        }
    }

    /// Whether the variant carries a hitbox (the freehand kinds do).
    pub open spec fn has_hitbox(self) -> bool {
        self is MarkerStroke || self is BrushStroke
    }

    /// The hitbox sub-boxes; empty for variants without one.
    pub open spec fn hitbox_spec(self) -> Seq<Aabb> {
        match self {
            Stroke::MarkerStroke { hitbox, .. } => hitbox@,
            Stroke::BrushStroke { hitbox, .. } => hitbox@,
            _ => Seq::<Aabb>::empty(),
        }
    }

    /// A well-formed stroke: its bounds are a well-formed box and every
    /// hitbox sub-box is well-formed and lies inside the bounds.
    pub open spec fn wf(self) -> bool {
        &&& aabb_wf(self.bounds_spec())
        &&& forall|k: int|
            0 <= k < self.hitbox_spec().len() ==> aabb_wf(#[trigger] self.hitbox_spec()[k])
                && spec_contains(self.bounds_spec(), self.hitbox_spec()[k])
    }

    /// The bounds together with every hitbox sub-box can be shifted by `v`
    /// without leaving the coordinate range.
    pub open spec fn translatable(self, v: Vec2) -> bool {
        can_translate(self.bounds_spec(), v)
    }

    /// The stroke's bounding box.
    pub fn bounds(&self) -> (r: Aabb)
        ensures
            r == self.bounds_spec(),
    {
        match self {
            Stroke::MarkerStroke { bounds, .. } => *bounds,
            Stroke::BrushStroke { bounds, .. } => *bounds,
            Stroke::ShapeStroke { bounds } => *bounds,
            Stroke::VectorImage { bounds } => *bounds,
            Stroke::BitmapImage { bounds } => *bounds,
        }
    }

    /// Whether a selector rectangle `sb` picks this stroke up: either `sb`
    /// contains the full bounds, or — for the freehand kinds only — `sb`
    /// intersects the bounds and contains every hitbox sub-box, the
    /// approximation of "the selector covers all ink". Partial overlap never
    /// selects a variant without a hitbox.
    pub fn hit_by_selector(&self, sb: &Aabb) -> (r: bool)
        ensures
            r == spec_hit(*sb, *self),
    {
        let bounds = self.bounds();
        if sb.contains(&bounds) {
            true
        } else {
            match self {
                Stroke::MarkerStroke { hitbox, .. } => {
                    proof {
                        assert(self.hitbox_spec() == hitbox@);
                    }
                    sb.intersects(&bounds) && all_contained(sb, hitbox)
                },
                Stroke::BrushStroke { hitbox, .. } => {
                    proof {
                        assert(self.hitbox_spec() == hitbox@);
                    }
                    sb.intersects(&bounds) && all_contained(sb, hitbox)
                },
                _ => false,
            }
        }
    }

    /// Shift the stroke's bounds and hitbox by `v`.
    pub fn translate(&mut self, v: Vec2)
        requires
            old(self).wf(),
            old(self).translatable(v),
        ensures
            is_translated(*old(self), *final(self), v),
            final(self).wf(),
    {
        let next = match &*self {
            Stroke::MarkerStroke { bounds, hitbox } => {
                proof {
                    assert(self.hitbox_spec() == hitbox@ && self.bounds_spec() == *bounds);
                }
                Stroke::MarkerStroke {
                    bounds: bounds.translate(v),
                    hitbox: translate_boxes(hitbox, v, *bounds),
                }
            },
            Stroke::BrushStroke { bounds, hitbox } => {
                proof {
                    assert(self.hitbox_spec() == hitbox@ && self.bounds_spec() == *bounds);
                }
                Stroke::BrushStroke {
                    bounds: bounds.translate(v),
                    hitbox: translate_boxes(hitbox, v, *bounds),
                }
            },
            Stroke::ShapeStroke { bounds } => Stroke::ShapeStroke { bounds: bounds.translate(v) },
            Stroke::VectorImage { bounds } => Stroke::VectorImage { bounds: bounds.translate(v) },
            Stroke::BitmapImage { bounds } => Stroke::BitmapImage { bounds: bounds.translate(v) },
        };
        *self = next;
    }

    /// Rescale the stroke so its bounds become `new_bounds`; the hitbox is
    /// carried along by the same affine map.
    pub fn resize(&mut self, new_bounds: Aabb)
        requires
            old(self).wf(),
            aabb_wf(new_bounds),
        ensures
            is_resized(*old(self), *final(self), new_bounds),
            final(self).wf(),
    {
        let next = match &*self {
            Stroke::MarkerStroke { bounds, hitbox } => {
                proof {
                    assert(self.hitbox_spec() == hitbox@ && self.bounds_spec() == *bounds);
                }
                Stroke::MarkerStroke {
                    bounds: new_bounds,
                    hitbox: map_boxes(hitbox, bounds, &new_bounds),
                }
            },
            Stroke::BrushStroke { bounds, hitbox } => {
                proof {
                    assert(self.hitbox_spec() == hitbox@ && self.bounds_spec() == *bounds);
                }
                Stroke::BrushStroke {
                    bounds: new_bounds,
                    hitbox: map_boxes(hitbox, bounds, &new_bounds),
                }
            },
            Stroke::ShapeStroke { .. } => Stroke::ShapeStroke { bounds: new_bounds },
            Stroke::VectorImage { .. } => Stroke::VectorImage { bounds: new_bounds },
            Stroke::BitmapImage { .. } => Stroke::BitmapImage { bounds: new_bounds },
        };
        *self = next;
    }

    /// An independent copy of the stroke, for duplication into a new arena
    /// entry.
    pub fn duplicate(&self) -> (r: Stroke)
        ensures
            stroke_like(*self, r),
    {
        match self {
            Stroke::MarkerStroke { bounds, hitbox } => Stroke::MarkerStroke {
                bounds: *bounds,
                hitbox: copy_boxes(hitbox),
            },
            Stroke::BrushStroke { bounds, hitbox } => Stroke::BrushStroke {
                bounds: *bounds,
                hitbox: copy_boxes(hitbox),
            },
            Stroke::ShapeStroke { bounds } => Stroke::ShapeStroke { bounds: *bounds },
            Stroke::VectorImage { bounds } => Stroke::VectorImage { bounds: *bounds },
            Stroke::BitmapImage { bounds } => Stroke::BitmapImage { bounds: *bounds },
        }
    }
}

/// Both strokes are the same variant.
pub open spec fn same_kind(a: Stroke, b: Stroke) -> bool {
    &&& (a is MarkerStroke <==> b is MarkerStroke)
    &&& (a is BrushStroke <==> b is BrushStroke)
    &&& (a is ShapeStroke <==> b is ShapeStroke)
    &&& (a is VectorImage <==> b is VectorImage)
    &&& (a is BitmapImage <==> b is BitmapImage)
}

/// `b` holds the same drawable content as `a`: same variant, same bounds,
/// same hitbox.
pub open spec fn stroke_like(a: Stroke, b: Stroke) -> bool {
    &&& same_kind(a, b)
    &&& b.bounds_spec() == a.bounds_spec()
    &&& b.hitbox_spec() == a.hitbox_spec()
}

/// `out` is `orig` with bounds and hitbox shifted by `v`.
pub open spec fn is_translated(orig: Stroke, out: Stroke, v: Vec2) -> bool {
    &&& same_kind(orig, out)
    &&& out.bounds_spec() == spec_translate(orig.bounds_spec(), v)
    &&& out.hitbox_spec().len() == orig.hitbox_spec().len()
    &&& forall|k: int|
        0 <= k < orig.hitbox_spec().len() ==> #[trigger] out.hitbox_spec()[k]
            == spec_translate(orig.hitbox_spec()[k], v)
}

/// `out` is `orig` with bounds replaced by `nb` and the hitbox carried by
/// the affine map from the old bounds onto `nb`.
pub open spec fn is_resized(orig: Stroke, out: Stroke, nb: Aabb) -> bool {
    &&& same_kind(orig, out)
    &&& out.bounds_spec() == nb
    &&& out.hitbox_spec().len() == orig.hitbox_spec().len()
    &&& forall|k: int|
        0 <= k < orig.hitbox_spec().len() ==> is_mapped_aabb(
            orig.bounds_spec(),
            nb,
            orig.hitbox_spec()[k],
            #[trigger] out.hitbox_spec()[k],
        )
}

/// Whether the selector rectangle `sb` selects the stroke; see
/// [`Stroke::hit_by_selector`].
pub open spec fn spec_hit(sb: Aabb, s: Stroke) -> bool {
    ||| spec_contains(sb, s.bounds_spec())
    ||| (spec_intersects(sb, s.bounds_spec()) && s.has_hitbox() && forall|k: int|
        0 <= k < s.hitbox_spec().len() ==> spec_contains(sb, #[trigger] s.hitbox_spec()[k]))
}

/// Whether `outer` contains every box of `hb`.
fn all_contained(outer: &Aabb, hb: &Vec<Aabb>) -> (r: bool)
    ensures
        r == forall|k: int| 0 <= k < hb@.len() ==> spec_contains(*outer, #[trigger] hb@[k]),
{
    let mut i: usize = 0;
    while i < hb.len()
        invariant
            0 <= i <= hb@.len(),
            forall|k: int| 0 <= k < i ==> spec_contains(*outer, #[trigger] hb@[k]),
        decreases hb@.len() - i,
    {
        if !outer.contains(&hb[i]) {
            return false;
        }
        i = i + 1;
    }
    true
}

/// Every box of `hb`, shifted by `v`. The boxes lie inside `outer`, so the
/// shifted corners stay within the coordinate range whenever `outer`'s do.
fn translate_boxes(hb: &Vec<Aabb>, v: Vec2, outer: Aabb) -> (r: Vec<Aabb>)
    requires
        aabb_wf(outer),
        can_translate(outer, v),
        forall|k: int|
            0 <= k < hb@.len() ==> aabb_wf(#[trigger] hb@[k]) && spec_contains(outer, hb@[k]),
    ensures
        r@.len() == hb@.len(),
        forall|k: int| 0 <= k < hb@.len() ==> #[trigger] r@[k] == spec_translate(hb@[k], v),
{
    let mut r: Vec<Aabb> = Vec::new();
    let mut i: usize = 0;
    while i < hb.len()
        invariant
            0 <= i <= hb@.len(),
            r@.len() == i,
            aabb_wf(outer),
            can_translate(outer, v),
            forall|k: int|
                0 <= k < hb@.len() ==> aabb_wf(#[trigger] hb@[k]) && spec_contains(outer, hb@[k]),
            forall|k: int| 0 <= k < i ==> #[trigger] r@[k] == spec_translate(hb@[k], v),
        decreases hb@.len() - i,
    {
        r.push(hb[i].translate(v));
        i = i + 1;
    }
    r
}

/// Every box of `hb`, carried by the affine map from `src` onto `dst`.
fn map_boxes(hb: &Vec<Aabb>, src: &Aabb, dst: &Aabb) -> (r: Vec<Aabb>)
    requires
        aabb_wf(*src),
        aabb_wf(*dst),
        forall|k: int|
            0 <= k < hb@.len() ==> aabb_wf(#[trigger] hb@[k]) && spec_contains(*src, hb@[k]),
    ensures
        r@.len() == hb@.len(),
        forall|k: int|
            0 <= k < hb@.len() ==> is_mapped_aabb(*src, *dst, hb@[k], #[trigger] r@[k]) && aabb_wf(
                r@[k],
            ) && spec_contains(*dst, r@[k]),
{
    let mut r: Vec<Aabb> = Vec::new();
    let mut i: usize = 0;
    while i < hb.len()
        invariant
            0 <= i <= hb@.len(),
            r@.len() == i,
            aabb_wf(*src),
            aabb_wf(*dst),
            forall|k: int|
                0 <= k < hb@.len() ==> aabb_wf(#[trigger] hb@[k]) && spec_contains(*src, hb@[k]),
            forall|k: int|
                0 <= k < i ==> is_mapped_aabb(*src, *dst, hb@[k], #[trigger] r@[k]) && aabb_wf(
                    r@[k],
                ) && spec_contains(*dst, r@[k]),
        decreases hb@.len() - i,
    {
        r.push(map_aabb(src, dst, &hb[i]));
        i = i + 1;
    }
    r
}

/// An elementwise copy of the boxes.
fn copy_boxes(hb: &Vec<Aabb>) -> (r: Vec<Aabb>)
    ensures
        r@ == hb@,
{
    let mut r: Vec<Aabb> = Vec::new();
    let mut i: usize = 0;
    while i < hb.len()
        invariant
            0 <= i <= hb@.len(),
            r@ == hb@.subrange(0, i as int),
        decreases hb@.len() - i,
    {
        r.push(hb[i]);
        proof {
            assert(r@ =~= hb@.subrange(0, i + 1));
        }
        i = i + 1;
    }
    proof {
        assert(r@ =~= hb@);
    }
    r
}

} // verus!
