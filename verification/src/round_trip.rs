//! What the decoder makes of the streams that the compressor writes, and of
//! streams that were damaged afterwards.

use crate::bytes::{be32, be32_value, lemma_be32_of_value, lemma_be32_value};
use crate::checksum::adler32_checksum;
use crate::codec::{
    back_reference_bytes, compressed_stream, decompressed, deflate, deflate_from, inflate,
    lemma_token_at, token_at, token_bytes, token_span, DecodeError, Token, ESCAPE, HEADER_CMF,
    HEADER_FLG,
};
use crate::matcher::repeats_at;
use vstd::prelude::*;

verus! {

/// The token stream for the input from `pos` on takes at most two bytes for
/// each byte of input: a literal takes one or two, a back-reference takes four
/// and stands for at least four.
pub proof fn lemma_deflate_from_len(data: Seq<u8>, pos: int)
    requires
        0 <= pos <= data.len(),
    ensures
        deflate_from(data, pos).len() <= 2 * (data.len() - pos),
    decreases data.len() - pos,
{
    if pos < data.len() {
        lemma_token_at(data, pos);
        lemma_deflate_from_len(data, pos + token_span(token_at(data, pos)));
    }
}

/// Compression never more than doubles its input, header and trailer aside.
pub proof fn lemma_compressed_stream_len(data: Seq<u8>)
    ensures
        6 <= compressed_stream(data).len() <= 2 * data.len() + 6,
{
    lemma_deflate_from_len(data, 0);
}

/// Reading the token emitted at `pos`, with the input before `pos` as the
/// output so far, writes the input up to the end of the token and goes on with
/// the bytes behind it.
pub proof fn lemma_token_read_back(data: Seq<u8>, pos: int, rest: Seq<u8>)
    requires
        0 <= pos < data.len(),
    ensures
        1 <= token_span(token_at(data, pos)) <= data.len() - pos,
        inflate(token_bytes(token_at(data, pos)) + rest, data.take(pos)) == inflate(
            rest,
            data.take(pos + token_span(token_at(data, pos))),
        ),
{
    let token = token_at(data, pos);
    let stream = token_bytes(token) + rest;
    let output = data.take(pos);
    lemma_token_at(data, pos);
    match token {
        Token::Literal(byte) => {
            if byte == ESCAPE {
                assert(stream.skip(2) =~= rest);
                assert(output.push(ESCAPE) =~= data.take(pos + 1));
            } else {
                assert(stream.skip(1) =~= rest);
                assert(output.push(byte) =~= data.take(pos + 1));
            }
        },
        Token::BackReference { distance, length } => {
            assert(stream[1] + 256 * stream[2] == distance);
            assert(stream[3] == length);
            assert(stream.skip(4) =~= rest);
            assert forall|k: int| 0 <= k < length implies #[trigger] back_reference_bytes(
                output,
                distance,
                length,
            )[k] == data[pos + k] by {
                assert(repeats_at(data, pos, distance, k));
            }
            assert(output + back_reference_bytes(output, distance, length) =~= data.take(
                pos + length,
            ));
        },
    }
}

/// Reading the token stream for the input from `pos` on, with the input before
/// `pos` as the output so far, gives the whole input.
pub proof fn lemma_inflate_deflate_from(data: Seq<u8>, pos: int)
    requires
        0 <= pos <= data.len(),
    ensures
        inflate(deflate_from(data, pos), data.take(pos)) == Ok::<Seq<u8>, DecodeError>(data),
    decreases data.len() - pos,
{
    if pos < data.len() {
        let token = token_at(data, pos);
        let next = pos + token_span(token);
        lemma_token_read_back(data, pos, deflate_from(data, next));
        lemma_inflate_deflate_from(data, next);
    } else {
        assert(data.take(pos) =~= data);
    }
}

/// Reading the token stream of any input gives the input again.
pub proof fn lemma_inflate_deflate(data: Seq<u8>)
    ensures
        inflate(deflate(data), Seq::empty()) == Ok::<Seq<u8>, DecodeError>(data),
{
    lemma_inflate_deflate_from(data, 0);
    assert(data.take(0) =~= Seq::<u8>::empty());
}

/// A stream made of the header, any token stream and any four-byte trailer is
/// decoded by reading the tokens and comparing the Adler-32 of what they give
/// with the number in the trailer.
pub proof fn lemma_decompressed_parts(tokens: Seq<u8>, trailer: Seq<u8>)
    requires
        trailer.len() == 4,
    ensures
        decompressed(seq![HEADER_CMF, HEADER_FLG] + tokens + trailer) == match inflate(
            tokens,
            Seq::empty(),
        ) {
            Err(error) => Err::<Seq<u8>, DecodeError>(error),
            Ok(output) => if adler32_checksum(output) == be32_value(trailer) {
                Ok(output)
            } else {
                Err(DecodeError::ChecksumMismatch)
            },
        },
{
    let stream = seq![HEADER_CMF, HEADER_FLG] + tokens + trailer;
    assert(stream.subrange(2, stream.len() - 4) =~= tokens);
    assert(stream.subrange(stream.len() - 4, stream.len() as int) =~= trailer);
}

/// Decompressing what was compressed gives the input again, for every input.
pub proof fn lemma_round_trip(data: Seq<u8>)
    ensures
        decompressed(compressed_stream(data)) == Ok::<Seq<u8>, DecodeError>(data),
{
    lemma_inflate_deflate(data);
    lemma_be32_value(adler32_checksum(data));
    lemma_decompressed_parts(deflate(data), be32(adler32_checksum(data)));
}

/// A compressed stream whose trailer was replaced by any other four bytes is
/// refused with `ChecksumMismatch`.
pub proof fn lemma_wrong_trailer_detected(data: Seq<u8>, trailer: Seq<u8>)
    requires
        trailer.len() == 4,
        trailer != be32(adler32_checksum(data)),
    ensures
        decompressed(seq![HEADER_CMF, HEADER_FLG] + deflate(data) + trailer) == Err::<
            Seq<u8>,
            DecodeError,
        >(DecodeError::ChecksumMismatch),
{
    lemma_inflate_deflate(data);
    lemma_be32_of_value(trailer);
    lemma_decompressed_parts(deflate(data), trailer);
}

/// A compressed stream in which one bit of the trailer was flipped is refused
/// with `ChecksumMismatch`: `index` picks one of the last four bytes and `bit`
/// one of its bits.
pub proof fn lemma_flipped_trailer_bit_detected(data: Seq<u8>, index: int, bit: u8)
    requires
        0 <= index < 4,
        bit < 8,
    ensures
        ({
            let stream = compressed_stream(data);
            let at = stream.len() - 4 + index;
            decompressed(stream.update(at, stream[at] ^ (1u8 << bit))) == Err::<
                Seq<u8>,
                DecodeError,
            >(DecodeError::ChecksumMismatch)
        }),
{
    let stream = compressed_stream(data);
    let at = stream.len() - 4 + index;
    let good = be32(adler32_checksum(data));
    let byte = good[index];
    let trailer = good.update(index, byte ^ (1u8 << bit));
    assert(stream[at] == byte);
    assert(byte ^ (1u8 << bit) != byte) by (bit_vector)
        requires
            bit < 8,
    ;
    assert(trailer[index] != good[index]);
    assert(stream.update(at, stream[at] ^ (1u8 << bit)) =~= seq![HEADER_CMF, HEADER_FLG] + deflate(
        data,
    ) + trailer);
    lemma_wrong_trailer_detected(data, trailer);
}

/// Where a token stream is read without error, reading it with more bytes
/// behind it goes on with those bytes from the output that it gave.
pub proof fn lemma_inflate_append(first: Seq<u8>, second: Seq<u8>, output: Seq<u8>)
    requires
        inflate(first, output) is Ok,
    ensures
        inflate(first + second, output) == inflate(second, inflate(first, output)->Ok_0),
    decreases first.len(),
{
    let stream = first + second;
    if first.len() == 0 {
        assert(stream =~= second);
    } else if first[0] != ESCAPE {
        assert(stream.skip(1) =~= first.skip(1) + second);
        lemma_inflate_append(first.skip(1), second, output.push(first[0]));
    } else if first[1] == ESCAPE {
        assert(stream.skip(2) =~= first.skip(2) + second);
        lemma_inflate_append(first.skip(2), second, output.push(ESCAPE));
    } else {
        let distance = first[1] + 256 * first[2];
        let length = first[3] as int;
        assert(stream.skip(4) =~= first.skip(4) + second);
        lemma_inflate_append(
            first.skip(4),
            second,
            output + back_reference_bytes(output, distance, length),
        );
    }
}

/// The first one, two or three bytes of a back-reference: the escape byte,
/// then at most the two bytes of a distance, of which the first is no escape
/// byte.
pub open spec fn is_cut_back_reference(bytes: Seq<u8>) -> bool {
    &&& 1 <= bytes.len() <= 3
    &&& bytes[0] == ESCAPE
    &&& bytes.len() >= 2 ==> bytes[1] != ESCAPE
}

/// A token stream that ends in a back-reference cut short is refused with
/// `TruncatedToken`, whatever sound tokens stand before it.
pub proof fn lemma_cut_back_reference_detected(tokens: Seq<u8>, cut: Seq<u8>)
    requires
        inflate(tokens, Seq::empty()) is Ok,
        is_cut_back_reference(cut),
    ensures
        inflate(tokens + cut, Seq::empty()) == Err::<Seq<u8>, DecodeError>(
            DecodeError::TruncatedToken,
        ),
{
    lemma_inflate_append(tokens, cut, Seq::empty());
}

/// A compressed stream whose last token is a back-reference cut short is
/// refused with `TruncatedToken`, whatever its trailer holds.
pub proof fn lemma_truncated_stream_detected(tokens: Seq<u8>, cut: Seq<u8>, trailer: Seq<u8>)
    requires
        inflate(tokens, Seq::empty()) is Ok,
        is_cut_back_reference(cut),
        trailer.len() == 4,
    ensures
        decompressed(seq![HEADER_CMF, HEADER_FLG] + tokens + cut + trailer) == Err::<
            Seq<u8>,
            DecodeError,
        >(DecodeError::TruncatedToken),
{
    lemma_cut_back_reference_detected(tokens, cut);
    lemma_decompressed_parts(tokens + cut, trailer);
    assert(seq![HEADER_CMF, HEADER_FLG] + tokens + cut + trailer =~= seq![HEADER_CMF, HEADER_FLG]
        + (tokens + cut) + trailer);
}

} // verus!
