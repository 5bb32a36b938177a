//! A verified reader for packaged documents: it resolves the container
//! descriptor to the package file, builds the resource table, reading
//! spine and metadata dictionary, and drives a bounded navigation cursor
//! over the spine.

pub mod errors;
pub mod strutil;
pub mod archive;
pub mod restable;
pub mod strmap;
pub mod xmltree;
pub mod xmlparse;
pub mod doc;
