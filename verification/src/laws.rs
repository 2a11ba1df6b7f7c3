//! What a reader gets back of what was serialized.
//!
//! Sizes and offsets are 32 bits wide, so what is said of whole files holds of
//! files no longer than that many bytes.
pub mod coding;
pub mod fields;
pub mod given;
pub mod headers;
pub mod hevc;
pub mod item;
pub mod layout;
pub mod samples;
pub mod settings;
pub mod tables;
