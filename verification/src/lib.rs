//! Verified decoders for self-describing game-engine serialization formats:
//! a stack-based pickle bytecode interpreter, a tagged binary variant
//! decoder with its resource-container loader, and the small shared
//! byte-reading utilities beneath them.

pub mod bytes;
pub mod pickle;
pub mod pickle_ops;
pub mod pickle_parse;
pub mod variant;
pub mod compress;
pub mod resource;
pub mod renpy;
pub mod texture;
pub mod v3stream;
pub mod ctex;
pub mod vfs;
pub mod text;

pub use bytes::decode_hex;
