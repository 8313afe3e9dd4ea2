//! Array-of-bytes signature scanning: signatures with wildcard slots, built
//! from three notations, and searched for in byte buffers.

pub mod builder;
pub mod matching;
pub mod notation;
pub mod object_image;
pub mod object_scan;
pub mod pattern;
pub mod shared;
pub mod sink;
pub mod text;
pub mod theorems;

pub use builder::{BuilderError, PatternBuilder};
pub use object_scan::{ObjectError, ObjectScan, SectionResult};
pub use pattern::Pattern;
