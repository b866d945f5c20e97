//! The drag-selection input collaborator.
//!
//! A selector supplies the candidate region of an active rectangular
//! selection gesture in canvas coordinates, or nothing while no gesture is
//! in progress. The selection engine only reads this value.

use vstd::prelude::*;
use crate::geometry::Aabb;

verus! {

/// The external drag-rectangle input source.
#[derive(Clone, Copy, Debug)]
pub struct Selector {
    /// The active drag-selection rectangle, or nothing.
    pub bounds: Option<Aabb>,
}

impl Selector {
    pub fn new(bounds: Option<Aabb>) -> (r: Selector)
        ensures
            r.bounds == bounds,
    {
        Selector { bounds }
    }
}

} // verus!
