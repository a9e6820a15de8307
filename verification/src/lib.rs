//! Extraction of track metadata from comment packets embedded in a
//! continuous audio byte stream: signature scanning, packet decoding,
//! merging into a record, and the publication policy around it.

pub mod text;
pub mod scan;
pub mod record;
pub mod packet;
pub mod gate;
pub mod distributor;
pub mod stream;
pub mod supervisor;
