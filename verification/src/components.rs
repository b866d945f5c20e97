//! Per-stroke component records.
//!
//! Each facet of a stroke's state lives in its own component table on the
//! canvas, keyed by the stroke's arena index: the selection flag, the
//! chronological touch stamp, the trash flag, and the cached-render record.
//! Only the selection engine mutates the selection and chrono tables; the
//! trash and render tables are owned by collaborators and are only read here,
//! except that group transforms update the cached render placement.

use vstd::prelude::*;
use crate::geometry::Aabb;

verus! {

/// Whether the stroke is part of the current selection. A stroke without
/// this component cannot be selected at all.
#[derive(Clone, Copy, Debug, PartialEq, Eq, Structural)]
pub struct SelectionComponent {
    pub selected: bool,
}

impl Default for SelectionComponent {
    /// A fresh component starts deselected.
    fn default() -> (r: Self)
        ensures
            !r.selected,
    {
        Self { selected: false }
    }
}

impl SelectionComponent {
    /// How far a duplicated stroke is shifted per axis so the copy is
    /// apparent to the user.
    pub const SELECTION_DUPLICATION_OFFSET_X: i64 = 20;

    pub const SELECTION_DUPLICATION_OFFSET_Y: i64 = 20;

    pub fn new(selected: bool) -> (r: Self)
        ensures
            r.selected == selected,
    {
        Self { selected }
    }
}

/// The stroke's place in the total order of most recently touched strokes.
/// The canvas advances one shared counter and stamps it here whenever the
/// stroke is newly selected or explicitly deselected.
#[derive(Clone, Copy, Debug, PartialEq, Eq, Structural)]
pub struct ChronoComponent {
    pub t: u64,
}

/// Whether the stroke has been moved to the trash. Trashed strokes are
/// excluded from hit-testing.
#[derive(Clone, Copy, Debug, PartialEq, Eq, Structural)]
pub struct TrashComponent {
    pub trashed: bool,
}

/// The rendering collaborator's cached state for one stroke: whether the
/// stroke is rendered at all, where its cached image and the display node
/// derived from it sit on the canvas, and whether a re-rasterization has
/// been requested. The engine only repositions the cached placement after a
/// group transform and raises the regenerate flag; rasterizing is the
/// collaborator's work.
#[derive(Clone, Copy, Debug, PartialEq, Eq, Structural)]
pub struct RenderComponent {
    pub render: bool,
    pub regenerate_flag: bool,
    pub image_bounds: Aabb,
    pub node_bounds: Aabb,
}

} // verus!
