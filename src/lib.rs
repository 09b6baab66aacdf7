//! Outline mutation engine for a vector glyph editor: partitioning contours
//! around a selection, copy / delete / paste of selections, splicing a
//! subdivided curve segment into a contour, merging open contours, and the
//! decisions of the editing tools.

pub mod model;
pub mod partition;
pub mod editor;
pub mod subdivide;
pub mod merge;
pub mod tools;
