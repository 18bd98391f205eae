//! The compressed stream: tokens of an LZ77 match finder, written with an
//! escape byte, between a two-byte header and an Adler-32 trailer.
//!
//! A literal byte other than 255 stands for itself and 255 is written twice.
//! A back-reference is written as 255, the distance with its low byte first,
//! and the length. A stream is therefore read unambiguously only if the low
//! byte of a distance is never 255: where the best match has such a distance
//! the compressor emits a literal instead.

use crate::bytes::{be32, be32_value, read_be32};
use crate::checksum::adler32_checksum;
use crate::encoder::PngEncoder;
use crate::matcher::{
    lemma_best_match, lemma_match_length, longest_match, max_distance_at, repeats_at, WINDOW_SIZE,
};
use vstd::prelude::*;
use vstd::slice::slice_subrange;

verus! {

/// The byte that opens every token but a plain literal.
pub const ESCAPE: u8 = 255;

/// The shortest match that is written as a back-reference.
pub const MIN_MATCH_LENGTH: usize = 4;

/// The longest run that one back-reference covers.
pub const MAX_TOKEN_LENGTH: usize = 255;

/// The first byte of a compressed stream.
pub const HEADER_CMF: u8 = 0x78;

/// The second byte of a compressed stream.
pub const HEADER_FLG: u8 = 0x9C;

/// Why a compressed stream was not decoded.
#[derive(Clone, Copy, Debug, PartialEq, Eq, Structural)]
pub enum DecodeError {
    /// The stream is shorter than its header and trailer, or does not start
    /// with the two header bytes.
    MalformedHeader,
    /// The stream ends inside an escaped literal or a back-reference.
    TruncatedToken,
    /// A back-reference has distance zero, reaches back before the start of
    /// the output, or has length zero.
    InvalidBackReference,
    /// The Adler-32 of the decoded bytes is not the one stored in the trailer.
    ChecksumMismatch,
}

/// One entry of the token stream.
pub enum Token {
    /// A byte of the input.
    Literal(u8),
    /// `length` bytes that repeat, cyclically, the `distance` bytes before them.
    BackReference { distance: int, length: int },
}

/// The token that the compressor emits at `pos`: a back-reference to the
/// longest match if that is at least four bytes long and the low byte of its
/// distance is not the escape byte, and the byte at `pos` otherwise.
pub open spec fn token_at(data: Seq<u8>, pos: int) -> Token {
    let (distance, length) = longest_match(data, pos);
    if length >= MIN_MATCH_LENGTH as int && distance % 256 != ESCAPE as int {
        Token::BackReference {
            distance,
            length: if length < MAX_TOKEN_LENGTH as int {
                length
            } else {
                MAX_TOKEN_LENGTH as int
            },
        }
    } else {
        Token::Literal(data[pos])
    }
}

/// A back-reference that the compressor emits reaches back into the input,
/// by no more than the window, with a distance whose low byte is not the
/// escape byte, and covers four to 255 bytes that lie within the input and
/// repeat what stands before them.
pub proof fn lemma_token_at(data: Seq<u8>, pos: int)
    requires
        0 <= pos < data.len(),
    ensures
        token_at(data, pos) matches Token::BackReference { distance, length } ==> {
            &&& 1 <= distance <= pos
            &&& distance <= WINDOW_SIZE
            &&& distance % 256 != ESCAPE
            &&& MIN_MATCH_LENGTH <= length <= MAX_TOKEN_LENGTH
            &&& pos + length <= data.len()
            &&& forall|k: int| 0 <= k < length ==> repeats_at(data, pos, distance, k)
        },
        token_at(data, pos) matches Token::Literal(byte) ==> byte == data[pos],
{
    lemma_best_match(data, pos, max_distance_at(pos));
    lemma_match_length(data, pos, longest_match(data, pos).0);
}

/// The number of input bytes that a token stands for.
pub open spec fn token_span(token: Token) -> int {
    match token {
        Token::Literal(_) => 1,
        Token::BackReference { length, .. } => length,
    }
}

/// The bytes that a token is written as.
pub open spec fn token_bytes(token: Token) -> Seq<u8> {
    match token {
        Token::Literal(byte) => if byte == ESCAPE {
            seq![ESCAPE, ESCAPE]
        } else {
            seq![byte]
        },
        Token::BackReference { distance, length } => seq![
            ESCAPE,
            (distance % 256) as u8,
            (distance / 256) as u8,
            length as u8,
        ],
    }
}

/// The token stream for the bytes of `data` from `pos` on.
pub open spec fn deflate_from(data: Seq<u8>, pos: int) -> Seq<u8>
    decreases data.len() - pos,
{
    if 0 <= pos < data.len() {
        let token = token_at(data, pos);
        proof {
            lemma_best_match(data, pos, max_distance_at(pos));
        }
        token_bytes(token) + deflate_from(data, pos + token_span(token))
    } else {
        Seq::empty()
    }
}

/// The token stream for `data`.
pub open spec fn deflate(data: Seq<u8>) -> Seq<u8> {
    deflate_from(data, 0)
}

/// The compressed stream for `data`: the header, the token stream, and the
/// Adler-32 of `data` itself, most significant byte first.
pub open spec fn compressed_stream(data: Seq<u8>) -> Seq<u8> {
    seq![HEADER_CMF, HEADER_FLG] + deflate(data) + be32(adler32_checksum(data))
}

/// What a back-reference appends to `output`: `length` bytes that repeat the
/// last `distance` bytes of `output` cyclically.
pub open spec fn back_reference_bytes(output: Seq<u8>, distance: int, length: int) -> Seq<u8> {
    Seq::new(length as nat, |k: int| output[output.len() - distance + k % distance])
}

/// The result of reading the token stream `stream` with `output` already
/// written: the output after the last token, or the first error met.
pub open spec fn inflate(stream: Seq<u8>, output: Seq<u8>) -> Result<Seq<u8>, DecodeError>
    decreases stream.len(),
{
    if stream.len() == 0 {
        Ok(output)
    } else if stream[0] != ESCAPE {
        inflate(stream.skip(1), output.push(stream[0]))
    } else if stream.len() < 2 {
        Err(DecodeError::TruncatedToken)
    } else if stream[1] == ESCAPE {
        inflate(stream.skip(2), output.push(ESCAPE))
    } else if stream.len() < 4 {
        Err(DecodeError::TruncatedToken)
    } else {
        let distance = stream[1] + 256 * stream[2];
        let length = stream[3] as int;
        if distance == 0 || distance > output.len() || length == 0 {
            Err(DecodeError::InvalidBackReference)
        } else {
            inflate(stream.skip(4), output + back_reference_bytes(output, distance, length))
        }
    }
}

/// The result of decoding a compressed stream: the header is checked first,
/// then the tokens between header and trailer are read, then the Adler-32 of
/// what they gave is compared with the trailer.
pub open spec fn decompressed(stream: Seq<u8>) -> Result<Seq<u8>, DecodeError> {
    if stream.len() < 6 || stream[0] != HEADER_CMF || stream[1] != HEADER_FLG {
        Err(DecodeError::MalformedHeader)
    } else {
        match inflate(stream.subrange(2, stream.len() - 4), Seq::empty()) {
            Err(error) => Err(error),
            Ok(output) => if adler32_checksum(output) == be32_value(
                stream.subrange(stream.len() - 4, stream.len() as int),
            ) {
                Ok(output)
            } else {
                Err(DecodeError::ChecksumMismatch)
            },
        }
    }
}

impl PngEncoder {
    /// The token stream for `data`.
    pub fn simple_deflate(&self, data: &[u8]) -> (stream: Vec<u8>)
        ensures
            stream@ == deflate(data@),
    {
        let mut result: Vec<u8> = Vec::new();
        let mut i: usize = 0;
        while i < data.len()
            invariant
                i <= data.len(),
                result@ + deflate_from(data@, i as int) == deflate(data@),
            decreases data.len() - i,
        {
            let (match_distance, match_length) = self.find_longest_match(data, i);
            proof {
                lemma_best_match(data@, i as int, max_distance_at(i as int));
            }
            let ghost before = result@;
            let ghost token = token_at(data@, i as int);
            let distance_low: u8 = (match_distance % 256) as u8;
            if match_length >= MIN_MATCH_LENGTH && distance_low != ESCAPE {
                let distance_high: u8 = (match_distance / 256) as u8;
                let length: usize = if match_length < MAX_TOKEN_LENGTH {
                    match_length
                } else {
                    MAX_TOKEN_LENGTH
                };
                result.push(ESCAPE);
                result.push(distance_low);
                result.push(distance_high);
                result.push(length as u8);
                i += length;
            } else {
                if data[i] == ESCAPE {
                    result.push(ESCAPE);
                    result.push(ESCAPE);
                } else {
                    result.push(data[i]);
                }
                i += 1;
            }
            proof {
                assert(result@ =~= before + token_bytes(token));
                assert(result@ + deflate_from(data@, i as int) =~= before + (token_bytes(token)
                    + deflate_from(data@, i as int)));
            }
        }
        result
    }

    /// Reads the token stream `data` and returns the bytes it stands for, or
    /// the first error met.
    pub fn simple_inflate(&self, data: &[u8]) -> (output: Result<Vec<u8>, DecodeError>)
        ensures
            match output {
                Ok(bytes) => inflate(data@, Seq::empty()) == Ok::<Seq<u8>, DecodeError>(bytes@),
                Err(error) => inflate(data@, Seq::empty()) == Err::<Seq<u8>, DecodeError>(error),
            },
    {
        let mut result: Vec<u8> = Vec::new();
        let mut i: usize = 0;
        proof {
            assert(data@.skip(0) =~= data@);
        }
        while i < data.len()
            invariant
                i <= data.len(),
                inflate(data@.skip(i as int), result@) == inflate(data@, Seq::empty()),
            decreases data.len() - i,
        {
            let ghost rest = data@.skip(i as int);
            if data[i] == ESCAPE {
                if data.len() - i < 2 {
                    return Err(DecodeError::TruncatedToken);
                }
                if data[i + 1] == ESCAPE {
                    result.push(ESCAPE);
                    proof {
                        assert(rest.skip(2) =~= data@.skip(i + 2));
                    }
                    i += 2;
                } else {
                    if data.len() - i < 4 {
                        return Err(DecodeError::TruncatedToken);
                    }
                    let distance: usize = data[i + 1] as usize + 256 * (data[i + 2] as usize);
                    let length: usize = data[i + 3] as usize;
                    if distance == 0 || distance > result.len() || length == 0 {
                        return Err(DecodeError::InvalidBackReference);
                    }
                    let ghost before = result@;
                    let start: usize = result.len() - distance;
                    let mut j: usize = 0;
                    while j < length
                        invariant
                            j <= length,
                            1 <= distance <= before.len(),
                            start == before.len() - distance,
                            result.len() == before.len() + j,
                            result@ == before + back_reference_bytes(
                                before,
                                distance as int,
                                j as int,
                            ),
                        decreases length - j,
                    {
                        let byte: u8 = result[start + j % distance];
                        result.push(byte);
                        proof {
                            assert(result@ =~= before + back_reference_bytes(
                                before,
                                distance as int,
                                j + 1,
                            ));
                        }
                        j += 1;
                    }
                    proof {
                        assert(rest.skip(4) =~= data@.skip(i + 4));
                    }
                    i += 4;
                }
            } else {
                result.push(data[i]);
                proof {
                    assert(rest.skip(1) =~= data@.skip(i + 1));
                }
                i += 1;
            }
        }
        Ok(result)
    }

    /// Decodes a compressed stream and checks it against its trailer.
    pub fn decompress_data(&self, compressed: &[u8]) -> (output: Result<Vec<u8>, DecodeError>)
        ensures
            match output {
                Ok(bytes) => decompressed(compressed@) == Ok::<Seq<u8>, DecodeError>(bytes@),
                Err(error) => decompressed(compressed@) == Err::<Seq<u8>, DecodeError>(error),
            },
    {
        if compressed.len() < 6 {
            return Err(DecodeError::MalformedHeader);
        }
        if compressed[0] != HEADER_CMF || compressed[1] != HEADER_FLG {
            return Err(DecodeError::MalformedHeader);
        }
        let trailer_start: usize = compressed.len() - 4;
        let deflate_data = slice_subrange(compressed, 2, trailer_start);
        let decoded = match self.simple_inflate(deflate_data) {
            Ok(bytes) => bytes,
            Err(error) => {
                return Err(error);
            },
        };
        let expected_checksum: u32 = read_be32(compressed, trailer_start);
        let actual_checksum: u32 = self.adler32(decoded.as_slice());
        if actual_checksum != expected_checksum {
            return Err(DecodeError::ChecksumMismatch);
        }
        Ok(decoded)
    }
}

} // verus!
