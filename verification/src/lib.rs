//! Decoders and indexed readers for IDX image and label files, with the
//! in-memory parts of fetching and unpacking them.

pub mod idx;
pub mod mnist;
pub mod moons;
pub mod utility;
