//! What a sound volume promises.

pub mod claim;
pub mod contents;
pub mod directory;
pub mod entries;
pub mod files;
pub mod mounted;
pub mod naming;
pub mod reading;
pub mod replacing;
pub mod room;
