//! Recovery of files from raw FATX ("XTAF") disk images.
//!
//! The library decodes the partition table and superblocks of a development-kit
//! disk image, walks the allocation table, parses directory records (live and
//! deleted), reassembles file contents from cluster chains, and carves the
//! image for deleted directory records and well-known container signatures.
//! Every function works on an immutable byte slice holding the whole image.

pub mod errors;
pub mod cursor;
pub mod text;
pub mod attributes;
pub mod geometry;
pub mod partition;
pub mod record;
pub mod chain;
pub mod entry;
pub mod contents;
pub mod directory;
pub mod devkit;
pub mod scanners;
pub mod carve;
pub mod fatx;
