//! PNG encoding of 8-bit RGBA rasters: Sub-filtered scanlines, a byte-oriented
//! LZ77 stream in a zlib-shaped envelope, and length- and CRC-framed chunks.

pub mod bytes;
pub mod checksum;
pub mod chunk;
pub mod codec;
pub mod encoder;
pub mod matcher;
pub mod raster;
pub mod round_trip;
pub mod zlib;

pub use codec::DecodeError;
pub use encoder::{CompressionMethod, EncodeError, PngEncoder};
pub use raster::RawImage;
