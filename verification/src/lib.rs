//! Selection and spatial-transform subsystem of a vector-drawing canvas.
//!
//! The library tracks which strokes on a canvas are selected, maintains the
//! selection's union bounding box as a derived invariant, performs group
//! transforms (translate, resize, duplicate) on the selected subset, and
//! renders the selection as vector markup. Coordinates are integer canvas
//! units so that every geometric claim is exact.

pub mod components;
pub mod geometry;
pub mod laws;
pub mod selector;
pub mod state;
pub mod stroke;
pub mod svg;
