//! Geometry and grid-recovery logic for rectifying a photographed table.
//!
//! The crate holds the decisions of a document-scanning pipeline: which
//! contour is the page, how its corners are ordered, what size the flattened
//! page has, and how the detected cell boxes fall into rows and columns.
//! Pixel work (filtering, contour tracing, warping, text recognition) is done
//! by the caller, who hands plain values in and takes plain values back.

pub mod angle;
pub mod area_order;
pub mod cells;
pub mod config;
pub mod detect;
pub mod geometry;
pub mod keyed_sort;
pub mod pipeline;
pub mod polygon;
pub mod polygon_laws;
pub mod rectify;
pub mod stable_sort;
pub mod table;
pub mod table_laws;
