//! Decoders for a game level container, a model container and material
//! descriptors, together with the dependency walk that collects every
//! asset path the level refers to.
//!
//! All decoders work on in-memory byte buffers; reading files and copying
//! them is left to the caller.

pub mod bsp;
pub mod bytes;
pub mod kv;
pub mod mdl;
pub mod paths;
pub mod scan;
pub mod text;
pub mod vmt;
pub mod walk;

pub use bytes::FromSlice;
