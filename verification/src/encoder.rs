//! The encoder: its configuration, the choice of a compressor, and the
//! assembly of a PNG byte stream.

use crate::bytes::{bytes_equal, push_all, push_be32};
use crate::chunk::{chunk, png_stream, IDAT, PNG_SIGNATURE};
use crate::codec::{compressed_stream, decompressed, DecodeError, HEADER_CMF, HEADER_FLG};
use crate::raster::{filtered, RawImage};
use crate::round_trip::lemma_round_trip;
use crate::zlib::{zlib_compress, zlib_stream};
use vstd::prelude::*;

verus! {

/// Which compressor produces the payload of the image data chunk.
#[derive(Clone, Copy, Debug)]
pub enum CompressionMethod {
    /// The escape-coded LZ77 stream of this crate.
    Custom,
    /// A standard zlib stream produced by `flate2`.
    Flate2,
}

/// Why no PNG stream was produced.
#[derive(Clone, Copy, Debug, PartialEq, Eq, Structural)]
pub enum EncodeError {
    /// The standard compressor reported an error.
    Compressor,
    /// The compressed image data do not fit the 32-bit length field of a
    /// chunk.
    ChunkTooLong,
}

/// An encoder for rasters of a fixed size.
pub struct PngEncoder {
    pub width: u32,
    pub height: u32,
    pub compression_method: CompressionMethod,
}

/// The compressed stream that `method` produces for `data`.
pub open spec fn compressed_by(method: CompressionMethod, data: Seq<u8>) -> Seq<u8> {
    match method {
        CompressionMethod::Custom => compressed_stream(data),
        CompressionMethod::Flate2 => zlib_stream(data),
    }
}

impl PngEncoder {
    /// An encoder for rasters of `width` by `height` pixels.
    pub fn new(width: u32, height: u32, compression_method: CompressionMethod) -> (encoder: Self)
        ensures
            encoder.width == width,
            encoder.height == height,
            encoder.compression_method == compression_method,
    {
        PngEncoder { width, height, compression_method }
    }

    /// Compresses `data` with the encoder's method. The compressor of this
    /// crate never fails.
    pub fn compress_data(&self, data: &[u8]) -> (stream: Result<Vec<u8>, EncodeError>)
        ensures
            match stream {
                Ok(bytes) => bytes@ == compressed_by(self.compression_method, data@),
                Err(error) => error == EncodeError::Compressor
                    && self.compression_method is Flate2,
            },
    {
        match self.compression_method {
            CompressionMethod::Custom => {
                let mut compressed: Vec<u8> = Vec::new();
                compressed.push(HEADER_CMF);
                compressed.push(HEADER_FLG);
                let deflate_data = self.simple_deflate(data);
                push_all(&mut compressed, deflate_data.as_slice());
                let checksum: u32 = self.adler32(data);
                push_be32(&mut compressed, checksum);
                proof {
                    assert(compressed@ =~= compressed_stream(data@));
                }
                Ok(compressed)
            },
            CompressionMethod::Flate2 => match zlib_compress(data) {
                Ok(compressed) => Ok(compressed),
                Err(_) => Err(EncodeError::Compressor),
            },
        }
    }

    /// Whether `compressed` is a stream of this crate's compressor that
    /// decodes, without error, to exactly `data`.
    pub fn decodes_to(&self, compressed: &[u8], data: &[u8]) -> (same: bool)
        ensures
            same == (decompressed(compressed@) == Ok::<Seq<u8>, DecodeError>(data@)),
    {
        match self.decompress_data(compressed) {
            Ok(decoded) => bytes_equal(decoded.as_slice(), data),
            Err(_) => false,
        }
    }

    /// Compresses `data` with the encoder's method and checks that this
    /// crate's decoder gives `data` back. With this crate's compressor it
    /// always does.
    pub fn test_compression(&self, data: &[u8]) -> (round_trip: bool)
        ensures
            self.compression_method is Custom ==> round_trip,
            round_trip ==> decompressed(compressed_by(self.compression_method, data@)) == Ok::<
                Seq<u8>,
                DecodeError,
            >(data@),
    {
        proof {
            lemma_round_trip(data@);
        }
        match self.compress_data(data) {
            Ok(compressed) => self.decodes_to(compressed.as_slice(), data),
            Err(_) => false,
        }
    }

    /// The data chunk for `image`: its filtered bytes, compressed with the
    /// encoder's method.
    pub fn write_idat(&self, image: &RawImage) -> (framed: Result<Vec<u8>, EncodeError>)
        requires
            image@.width == self.width,
            image@.height == self.height,
        ensures
            match framed {
                Ok(bytes) => {
                    &&& compressed_by(self.compression_method, filtered(image@)).len() <= u32::MAX
                    &&& bytes@ == chunk(
                        IDAT@,
                        compressed_by(self.compression_method, filtered(image@)),
                    )
                },
                Err(EncodeError::ChunkTooLong) => compressed_by(
                    self.compression_method,
                    filtered(image@),
                ).len() > u32::MAX,
                Err(EncodeError::Compressor) => self.compression_method is Flate2,
            },
    {
        let filtered_data = self.apply_filters(image);
        let compressed_data = match self.compress_data(filtered_data.as_slice()) {
            Ok(bytes) => bytes,
            Err(error) => {
                return Err(error);
            },
        };
        if compressed_data.len() > u32::MAX as usize {
            return Err(EncodeError::ChunkTooLong);
        }
        Ok(self.write_chunk(&IDAT, compressed_data.as_slice()))
    }

    /// The PNG stream for `image`: the signature, the header chunk, the data
    /// chunk and the end chunk.
    pub fn encode(&self, image: &RawImage) -> (png: Result<Vec<u8>, EncodeError>)
        requires
            image@.width == self.width,
            image@.height == self.height,
        ensures
            match png {
                Ok(bytes) => {
                    &&& compressed_by(self.compression_method, filtered(image@)).len() <= u32::MAX
                    &&& bytes@ == png_stream(
                        self.width,
                        self.height,
                        compressed_by(self.compression_method, filtered(image@)),
                    )
                },
                Err(EncodeError::ChunkTooLong) => compressed_by(
                    self.compression_method,
                    filtered(image@),
                ).len() > u32::MAX,
                Err(EncodeError::Compressor) => self.compression_method is Flate2,
            },
    {
        let idat = match self.write_idat(image) {
            Ok(bytes) => bytes,
            Err(error) => {
                return Err(error);
            },
        };
        let ihdr = self.write_ihdr();
        let iend = self.write_iend();
        let mut png: Vec<u8> = Vec::new();
        push_all(&mut png, PNG_SIGNATURE.as_slice());
        push_all(&mut png, ihdr.as_slice());
        push_all(&mut png, idat.as_slice());
        push_all(&mut png, iend.as_slice());
        Ok(png)
    }
}

} // verus!
