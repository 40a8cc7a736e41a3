//! Value pages: fixed-width column values stored raw, bit-packed or
//! block-compressed, with the byte-range scheduling and scatter/gather
//! decoding that read them back.

pub mod compression;
pub mod error;
pub mod scheduler;
pub mod decoder;
pub mod encoder;
pub mod round_trip;
