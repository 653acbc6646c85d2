//! The FAT16 filesystem.
//!
//! A volume is a sequence of 512-byte sectors in four regions: the reserved sectors, of which the
//! first describes the geometry; the copies of the allocation table, which links the clusters of
//! each file into a chain; the root directory, an array of 32-byte entries; and the data, in
//! clusters numbered from 2.

pub mod bpb;
pub mod chain;
pub mod dir;
pub mod laws;
pub mod name;
pub mod table;
pub mod volume;

pub use bpb::Bpb;
pub use bpb::FatError;
pub use volume::{read_bpb, Fat};
