//! The two checksums of the format: Adler-32 of the uncompressed bytes, in the
//! trailer of a compressed stream, and CRC-32 of type and payload, behind
//! each chunk.

use crate::encoder::PngEncoder;
use vstd::prelude::*;

verus! {

/// The largest prime below 2^16: both Adler-32 sums are reduced by it.
pub const ADLER_MODULUS: u32 = 65521;

/// The low half of Adler-32: one plus the sum of the bytes, modulo 65521.
pub open spec fn adler_low(data: Seq<u8>) -> nat
    decreases data.len(),
{
    if data.len() == 0 {
        1
    } else {
        (adler_low(data.drop_last()) + data.last() as nat) % (ADLER_MODULUS as nat)
    }
}

/// The high half of Adler-32: the sum of the low halves of all non-empty
/// prefixes, modulo 65521.
pub open spec fn adler_high(data: Seq<u8>) -> nat
    decreases data.len(),
{
    if data.len() == 0 {
        0
    } else {
        (adler_high(data.drop_last()) + adler_low(data)) % (ADLER_MODULUS as nat)
    }
}

/// Adler-32 of `data`: the high sum in the upper sixteen bits, the low sum in
/// the lower sixteen.
pub open spec fn adler32_checksum(data: Seq<u8>) -> u32 {
    (adler_high(data) * 65536 + adler_low(data)) as u32
}

/// Both sums stay below the modulus, so that each fills its own half of the
/// checksum.
pub proof fn lemma_adler32_halves(data: Seq<u8>)
    ensures
        adler_low(data) < ADLER_MODULUS,
        adler_high(data) < ADLER_MODULUS,
        adler32_checksum(data) % 65536 == adler_low(data),
        adler32_checksum(data) / 65536 == adler_high(data),
    decreases data.len(),
{
    if data.len() > 0 {
        lemma_adler32_halves(data.drop_last());
    }
}

/// The CRC-32 (IEEE) checksum of `data`, as `crc32fast` computes it.
pub uninterp spec fn crc32_ieee(data: Seq<u8>) -> u32;

/// The CRC-32 of `chunk_type` followed by `data`.
///
/// Feeds both slices, in this order, to one `crc32fast::Hasher` (`new`,
/// `update`, `update`, `finalize`). Trusted: the hasher's result depends on
/// nothing but the bytes fed to it in sequence, however they are split over
/// calls of `update`, and is their CRC-32 (IEEE) checksum.
#[verifier::external_body]
pub(crate) fn crc32(chunk_type: &[u8; 4], data: &[u8]) -> (checksum: u32)
    ensures
        checksum == crc32_ieee(chunk_type@ + data@),
{
    let mut hasher = crc32fast::Hasher::new();
    hasher.update(chunk_type);
    hasher.update(data);
    hasher.finalize()
}

impl PngEncoder {
    /// Adler-32 of `data`.
    pub fn adler32(&self, data: &[u8]) -> (checksum: u32)
        ensures
            checksum == adler32_checksum(data@),
            data@.len() == 0 ==> checksum == 1,
    {
        let mut a: u32 = 1;
        let mut b: u32 = 0;
        let mut i: usize = 0;
        while i < data.len()
            invariant
                i <= data.len(),
                a == adler_low(data@.take(i as int)),
                b == adler_high(data@.take(i as int)),
                a < ADLER_MODULUS,
                b < ADLER_MODULUS,
            decreases data.len() - i,
        {
            proof {
                assert(data@.take(i + 1).drop_last() =~= data@.take(i as int));
            }
            a = (a + data[i] as u32) % ADLER_MODULUS;
            b = (b + a) % ADLER_MODULUS;
            i += 1;
        }
        proof {
            assert(data@.take(i as int) =~= data@);
            assert((b << 16) | a == b * 65536 + a) by (bit_vector)
                requires
                    a < 65536,
                    b < 65536,
            ;
        }
        (b << 16) | a
    }
}

} // verus!
