//! Serialization of animated AVIF and HEIC files.
//!
//! [`AnimatedImage`] takes pre-encoded frames and lays them out as a timed
//! sequence: the file type, a still item for readers that only show images,
//! the movie with its tracks, and the media. [`sequence`] says which bytes
//! those are, [`reader`] how a reader finds its way through them, and [`laws`]
//! what such a reader gets back.
pub mod animated;
pub mod boxes;
pub mod bytes;
pub mod codec;
pub mod fourcc;
pub mod framing;
pub mod hvcc;
pub mod laws;
pub mod meta;
pub mod navigation;
pub mod presentation;
pub mod reader;
pub mod sample_table;
pub mod sequence;
pub mod track;

pub use crate::animated::{AnimFrame, AnimatedImage};
pub use crate::boxes::{Av1CBox, ClapBox, ClliBox, ColrBox, MdcvBox};
pub use crate::hvcc::{HvcCBox, HvcCParameterSet};
