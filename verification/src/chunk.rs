//! Chunks: a payload between its length and type in front and a CRC-32 of
//! type and payload behind, and the stream that they make up.

use crate::bytes::{be32, push_all, push_be32};
use crate::checksum::{crc32, crc32_ieee};
use crate::encoder::PngEncoder;
use vstd::prelude::*;

verus! {

/// The eight bytes that start every PNG stream.
pub const PNG_SIGNATURE: [u8; 8] = [137, 80, 78, 71, 13, 10, 26, 10];

/// The chunk type `IHDR`, in ASCII.
pub const IHDR: [u8; 4] = [73, 72, 68, 82];

/// The chunk type `IDAT`, in ASCII.
pub const IDAT: [u8; 4] = [73, 68, 65, 84];

/// The chunk type `IEND`, in ASCII.
pub const IEND: [u8; 4] = [73, 69, 78, 68];

/// Bits per channel.
pub const BIT_DEPTH: u8 = 8;

/// The colour type of RGBA.
pub const COLOR_TYPE_RGBA: u8 = 6;

/// A chunk with `checksum` in its last field: the length of `data`, the type,
/// `data`, and the checksum, both numbers most significant byte first.
pub open spec fn framed_chunk(chunk_type: Seq<u8>, data: Seq<u8>, checksum: u32) -> Seq<u8> {
    be32(data.len() as u32) + chunk_type + data + be32(checksum)
}

/// A chunk: its checksum is the CRC-32 of the type followed by `data`.
pub open spec fn chunk(chunk_type: Seq<u8>, data: Seq<u8>) -> Seq<u8> {
    framed_chunk(chunk_type, data, crc32_ieee(chunk_type + data))
}

/// The thirteen bytes of a header: width and height, eight bits per channel,
/// RGBA, and zero for the compression method, the filter method and the
/// interlace method.
pub open spec fn ihdr_payload(width: u32, height: u32) -> Seq<u8> {
    be32(width) + be32(height) + seq![BIT_DEPTH, COLOR_TYPE_RGBA, 0u8, 0u8, 0u8]
}

/// A whole PNG stream: the signature, the header chunk, one data chunk with
/// `idat_payload`, and the empty end chunk.
pub open spec fn png_stream(width: u32, height: u32, idat_payload: Seq<u8>) -> Seq<u8> {
    PNG_SIGNATURE@ + chunk(IHDR@, ihdr_payload(width, height)) + chunk(IDAT@, idat_payload)
        + chunk(IEND@, Seq::empty())
}

/// The chunk of type `chunk_type` with payload `data` and `checksum` in its
/// last field.
pub fn frame_chunk(chunk_type: &[u8; 4], data: &[u8], checksum: u32) -> (framed: Vec<u8>)
    requires
        data.len() <= u32::MAX,
    ensures
        framed@ == framed_chunk(chunk_type@, data@, checksum),
{
    let mut framed: Vec<u8> = Vec::new();
    push_be32(&mut framed, data.len() as u32);
    push_all(&mut framed, chunk_type.as_slice());
    push_all(&mut framed, data);
    push_be32(&mut framed, checksum);
    framed
}

impl PngEncoder {
    /// The chunk of type `chunk_type` with payload `data`.
    pub fn write_chunk(&self, chunk_type: &[u8; 4], data: &[u8]) -> (framed: Vec<u8>)
        requires
            data.len() <= u32::MAX,
        ensures
            framed@ == chunk(chunk_type@, data@),
    {
        let checksum: u32 = crc32(chunk_type, data);
        frame_chunk(chunk_type, data, checksum)
    }

    /// The header chunk for the encoder's width and height.
    pub fn write_ihdr(&self) -> (framed: Vec<u8>)
        ensures
            framed@ == chunk(IHDR@, ihdr_payload(self.width, self.height)),
    {
        let mut chunk_data: Vec<u8> = Vec::new();
        push_be32(&mut chunk_data, self.width);
        push_be32(&mut chunk_data, self.height);
        chunk_data.push(BIT_DEPTH);
        chunk_data.push(COLOR_TYPE_RGBA);
        chunk_data.push(0);
        chunk_data.push(0);
        chunk_data.push(0);
        proof {
            assert(chunk_data@ =~= ihdr_payload(self.width, self.height));
        }
        self.write_chunk(&IHDR, chunk_data.as_slice())
    }

    /// The end chunk, which has no payload.
    pub fn write_iend(&self) -> (framed: Vec<u8>)
        ensures
            framed@ == chunk(IEND@, Seq::empty()),
    {
        let empty: Vec<u8> = Vec::new();
        self.write_chunk(&IEND, empty.as_slice())
    }
}

} // verus!
