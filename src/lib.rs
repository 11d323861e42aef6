//! Decoder for the Named Binary Tag (NBT) format and the region container
//! that stores up to 1024 compressed NBT documents behind a sector index.

pub mod tag;
pub mod format;
mod decode;
pub mod nbt;
pub mod compression;
pub mod region;
