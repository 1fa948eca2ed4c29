//! A backed annotated-matrix store over an in-memory hierarchical container.
//!
//! The crate persists a primary observation-by-variable matrix together with
//! per-axis name indices, annotation tables and unstructured metadata inside a
//! self-describing tree of named groups and typed datasets.  Every stored node
//! carries an encoding-type tag that selects the decoder on the way back.  On
//! top of the container sit a lazy, subsettable element cache and a composite
//! store that presents several independent backed stores as one table
//! concatenated along the observation axis.

pub mod backend;
pub mod codec;
pub mod container;
pub mod dataset;
pub mod element;
pub mod errors;
pub mod index;
pub mod select;
pub mod store;
pub mod values;
