//! Core of a Doom-style level loader: a type-keyed asset registry with
//! deferred building and reference-counted handles, binary lump decoders,
//! a cross-reference validator, and the builder that turns validated lump
//! data into a queryable in-memory map.

pub mod error;
pub mod bytes;
pub mod geom;
pub mod handle;
pub mod assets;
pub mod lumps;
pub mod textures;
pub mod map;
pub mod builder;
pub mod pipeline;
