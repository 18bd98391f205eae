use png_encoder::{CompressionMethod, DecodeError, PngEncoder};

#[test]
fn test_basic_compression() {
    let encoder = PngEncoder::new(100, 100, CompressionMethod::Custom);
    let test_data = b"Hello, World! This is a test string for compression.";

    assert!(encoder.test_compression(test_data));
}

#[test]
fn test_repetitive_data_compression() {
    let encoder = PngEncoder::new(100, 100, CompressionMethod::Custom);
    let mut test_data = Vec::new();

    for _ in 0..100 {
        test_data.extend_from_slice(b"ABCDEFGH");
    }

    assert!(encoder.test_compression(&test_data));
}

#[test]
fn test_empty_data() {
    let encoder = PngEncoder::new(100, 100, CompressionMethod::Custom);
    let test_data = b"";

    assert!(encoder.test_compression(test_data));
}

#[test]
fn test_single_byte() {
    let encoder = PngEncoder::new(100, 100, CompressionMethod::Custom);
    let test_data = b"A";

    assert!(encoder.test_compression(test_data));
}

#[test]
fn test_escape_byte_handling() {
    let encoder = PngEncoder::new(100, 100, CompressionMethod::Custom);
    let test_data = b"\xFF\xFF\xFF\x00\x01\x02";

    assert!(encoder.test_compression(test_data));
}

#[test]
fn test_long_matches() {
    let encoder = PngEncoder::new(100, 100, CompressionMethod::Custom);
    let mut test_data = Vec::new();

    let pattern = b"ABCDEFGHIJKLMNOPQRSTUVWXYZ";
    for _ in 0..20 {
        test_data.extend_from_slice(pattern);
    }

    assert!(encoder.test_compression(&test_data));
}

#[test]
fn test_adler32_checksum() {
    let encoder = PngEncoder::new(100, 100, CompressionMethod::Custom);

    assert_eq!(encoder.adler32(b""), 1);
    assert_eq!(encoder.adler32(b"a"), 0x00620062);
    assert_eq!(encoder.adler32(b"abc"), 0x024d0127);
    assert_eq!(encoder.adler32(b"message digest"), 0x29750586);
}

#[test]
fn test_compression_reduces_size() {
    let encoder = PngEncoder::new(100, 100, CompressionMethod::Custom);

    let mut test_data = Vec::new();
    for _ in 0..1000 {
        test_data.push(0x42);
    }

    let compressed = encoder.compress_data(&test_data).unwrap();

    assert!(compressed.len() < test_data.len() / 2);
}

#[test]
fn test_flate2_compression() {
    let encoder = PngEncoder::new(100, 100, CompressionMethod::Flate2);
    let test_data = b"Hello, World! This is a test string for compression.";

    let compressed = encoder.compress_data(test_data).unwrap();
    assert!(compressed.len() > 0);
    assert!(compressed.len() < test_data.len() + 100);
}

#[test]
fn test_flate2_compression_repetitive_data() {
    let encoder = PngEncoder::new(100, 100, CompressionMethod::Flate2);
    let mut test_data = Vec::new();

    for _ in 0..100 {
        test_data.extend_from_slice(b"ABCDEFGH");
    }

    let compressed = encoder.compress_data(&test_data).unwrap();

    assert!(compressed.len() < test_data.len() / 4);
}

#[test]
fn test_compression_methods_comparison() {
    let custom_encoder = PngEncoder::new(100, 100, CompressionMethod::Custom);
    let flate2_encoder = PngEncoder::new(100, 100, CompressionMethod::Flate2);

    let mut test_data = Vec::new();
    let pattern = b"ABCDEFGH";
    for _ in 0..50 {
        test_data.extend_from_slice(pattern);
    }

    let custom_compressed = custom_encoder.compress_data(&test_data).unwrap();
    let flate2_compressed = flate2_encoder.compress_data(&test_data).unwrap();

    assert!(custom_compressed.len() < test_data.len() / 2);
    assert!(flate2_compressed.len() < test_data.len() / 2);

    println!("Original size: {}", test_data.len());
    println!("Custom compressed: {}", custom_compressed.len());
    println!("Flate2 compressed: {}", flate2_compressed.len());
}

fn custom() -> PngEncoder {
    PngEncoder::new(1, 1, CompressionMethod::Custom)
}

#[test]
fn adler32_wraps_at_the_modulus() {
    // 257 bytes of 255 give a low sum of 1 + 65535 = 65536, which is 15
    // modulo 65521.
    let data = vec![255u8; 257];
    let checksum = custom().adler32(&data);
    assert_eq!(checksum & 0xFFFF, 15);
    let mut a: u32 = 1;
    let mut b: u32 = 0;
    for byte in &data {
        a = (a + u32::from(*byte)) % 65521;
        b = (b + a) % 65521;
    }
    assert_eq!(checksum, (b << 16) | a);
}

#[test]
fn compress_of_nothing_is_header_and_trailer() {
    let compressed = custom().compress_data(b"").unwrap();
    assert_eq!(compressed, vec![0x78, 0x9C, 0, 0, 0, 1]);
}

#[test]
fn compress_of_one_literal() {
    let compressed = custom().compress_data(b"A").unwrap();
    assert_eq!(compressed, vec![0x78, 0x9C, 0x41, 0x00, 0x42, 0x00, 0x42]);
}

#[test]
fn compress_escapes_the_escape_byte() {
    let compressed = custom().compress_data(&[0xFF]).unwrap();
    assert_eq!(compressed, vec![0x78, 0x9C, 0xFF, 0xFF, 0x01, 0x00, 0x01, 0x00]);
}

#[test]
fn three_escape_bytes_are_escaped_one_by_one() {
    let encoder = custom();
    let data = [0xFFu8, 0xFF, 0xFF];
    assert_eq!(encoder.simple_deflate(&data), vec![0xFF; 6]);
    let compressed = encoder.compress_data(&data).unwrap();
    assert_eq!(encoder.decompress_data(&compressed), Ok(data.to_vec()));
}

#[test]
fn a_run_becomes_one_back_reference_at_distance_one() {
    let stream = custom().simple_deflate(b"AAAAAAAAAA");
    assert_eq!(stream, vec![0x41, 0xFF, 0x01, 0x00, 0x09]);
}

#[test]
fn a_match_of_three_bytes_stays_literal() {
    let stream = custom().simple_deflate(b"ABCxABC");
    assert_eq!(stream, b"ABCxABC".to_vec());
}

#[test]
fn a_match_of_four_bytes_is_a_back_reference() {
    let stream = custom().simple_deflate(b"ABCDxABCD");
    assert_eq!(stream, vec![0x41, 0x42, 0x43, 0x44, 0x78, 0xFF, 0x05, 0x00, 0x04]);
}

#[test]
fn a_long_run_is_split_at_255_bytes() {
    let data = vec![7u8; 600];
    let encoder = custom();
    let stream = encoder.simple_deflate(&data);
    // One literal, then 255 + 255 + 89 bytes.
    assert_eq!(
        stream,
        vec![7, 0xFF, 1, 0, 255, 0xFF, 1, 0, 255, 0xFF, 1, 0, 89]
    );
    assert_eq!(encoder.simple_inflate(&stream), Ok(data));
}

#[test]
fn the_distance_is_written_low_byte_first() {
    let mut data: Vec<u8> = Vec::new();
    for i in 0..300u32 {
        data.push((i % 251) as u8);
        data.push((i / 251) as u8 + 100);
    }
    let repeated: Vec<u8> = data[0..6].to_vec();
    data.extend_from_slice(&repeated);
    let encoder = custom();
    assert_eq!(encoder.find_longest_match(&data, 600), (600, 6));
    let stream = encoder.simple_deflate(&data);
    assert_eq!(&stream[stream.len() - 4..], &[0xFF, 0x58, 0x02, 0x06]);
    assert_eq!(encoder.simple_inflate(&stream), Ok(data));
}

fn counting_then_repeat(period: usize) -> Vec<u8> {
    let mut data: Vec<u8> = (0..period).map(|i| i as u8).collect();
    let head: Vec<u8> = data[0..8].to_vec();
    data.extend_from_slice(&head);
    data
}

#[test]
fn a_distance_with_low_byte_255_falls_back_to_literals() {
    let encoder = custom();
    let data = counting_then_repeat(255);
    assert_eq!(encoder.find_longest_match(&data, 255), (255, 8));
    assert_eq!(encoder.simple_deflate(&data), data);
    assert!(encoder.test_compression(&data));
}

#[test]
fn a_distance_with_low_byte_254_is_a_back_reference() {
    let encoder = custom();
    let data = counting_then_repeat(254);
    assert_eq!(encoder.find_longest_match(&data, 254), (254, 8));
    let mut expected: Vec<u8> = (0..254).map(|i| i as u8).collect();
    expected.extend_from_slice(&[0xFF, 254, 0, 8]);
    assert_eq!(encoder.simple_deflate(&data), expected);
}

#[test]
fn longest_match_prefers_the_smallest_distance_among_equals() {
    let encoder = custom();
    assert_eq!(encoder.find_longest_match(b"ABABABAB", 4), (2, 4));
    assert_eq!(encoder.find_longest_match(b"ABCDABCDABCD", 8), (4, 4));
}

#[test]
fn longest_match_prefers_the_longer_match_at_a_larger_distance() {
    let encoder = custom();
    // At distance 4 two bytes repeat, at distance 11 all four.
    assert_eq!(encoder.find_longest_match(b"ABCDxyzABzzABCD", 11), (11, 4));
    assert_eq!(encoder.find_longest_match(b"ABCDxABxxABCD", 9), (9, 4));
}

#[test]
fn longest_match_finds_nothing_at_the_start_and_at_the_end() {
    let encoder = custom();
    assert_eq!(encoder.find_longest_match(b"AAAA", 0), (0, 0));
    assert_eq!(encoder.find_longest_match(b"AAAA", 4), (0, 0));
    assert_eq!(encoder.find_longest_match(b"ABCD", 2), (0, 0));
}

#[test]
fn longest_match_stops_at_258_bytes() {
    let encoder = custom();
    let data = vec![9u8; 1000];
    assert_eq!(encoder.find_longest_match(&data, 1), (1, 258));
    assert_eq!(encoder.find_longest_match(&data, 900), (1, 100));
}

#[test]
fn inflate_copies_overlapping_runs() {
    let encoder = custom();
    assert_eq!(
        encoder.simple_inflate(&[b'a', b'b', 0xFF, 2, 0, 5]),
        Ok(b"abababa".to_vec())
    );
    assert_eq!(
        encoder.simple_inflate(&[b'x', 0xFF, 0xFF, 0xFF, 1, 0, 2]),
        Ok(vec![b'x', 0xFF, 0xFF, 0xFF])
    );
}

#[test]
fn inflate_reads_a_two_byte_distance() {
    let encoder = custom();
    let mut stream: Vec<u8> = vec![1u8; 300];
    stream[0] = 42;
    stream.extend_from_slice(&[0xFF, 0x2C, 0x01, 1]);
    let output = encoder.simple_inflate(&stream).unwrap();
    assert_eq!(output.len(), 301);
    assert_eq!(output[300], 42);
}

#[test]
fn inflate_reports_a_truncated_token() {
    let encoder = custom();
    assert_eq!(encoder.simple_inflate(&[0xFF]), Err(DecodeError::TruncatedToken));
    assert_eq!(
        encoder.simple_inflate(&[b'a', 0xFF, 1]),
        Err(DecodeError::TruncatedToken)
    );
    assert_eq!(
        encoder.simple_inflate(&[b'a', 0xFF, 1, 0]),
        Err(DecodeError::TruncatedToken)
    );
}

#[test]
fn inflate_reports_an_invalid_back_reference() {
    let encoder = custom();
    assert_eq!(
        encoder.simple_inflate(&[b'a', 0xFF, 0, 0, 5]),
        Err(DecodeError::InvalidBackReference)
    );
    assert_eq!(
        encoder.simple_inflate(&[b'a', 0xFF, 2, 0, 1]),
        Err(DecodeError::InvalidBackReference)
    );
    assert_eq!(
        encoder.simple_inflate(&[b'a', 0xFF, 1, 0, 0]),
        Err(DecodeError::InvalidBackReference)
    );
}

#[test]
fn inflate_reports_the_first_error_in_stream_order() {
    let encoder = custom();
    assert_eq!(
        encoder.simple_inflate(&[0xFF, 0, 0, 1, 0xFF]),
        Err(DecodeError::InvalidBackReference)
    );
}

#[test]
fn decompress_reports_a_malformed_header() {
    let encoder = custom();
    assert_eq!(encoder.decompress_data(&[]), Err(DecodeError::MalformedHeader));
    assert_eq!(
        encoder.decompress_data(&[0x78, 0x9C, 0, 0, 1]),
        Err(DecodeError::MalformedHeader)
    );
    assert_eq!(
        encoder.decompress_data(&[0x78, 0x9D, 0, 0, 0, 1]),
        Err(DecodeError::MalformedHeader)
    );
    assert_eq!(
        encoder.decompress_data(&[0x79, 0x9C, 0, 0, 0, 1]),
        Err(DecodeError::MalformedHeader)
    );
    assert_eq!(encoder.decompress_data(&[0x78, 0x9C, 0, 0, 0, 1]), Ok(vec![]));
}

#[test]
fn decompress_reads_the_trailer_most_significant_byte_first() {
    let encoder = custom();
    assert_eq!(
        encoder.decompress_data(&[0x78, 0x9C, b'a', 0x00, 0x62, 0x00, 0x62]),
        Ok(b"a".to_vec())
    );
    assert_eq!(
        encoder.decompress_data(&[0x78, 0x9C, b'a', b'b', b'c', 0x02, 0x4d, 0x01, 0x27]),
        Ok(b"abc".to_vec())
    );
    assert_eq!(
        encoder.decompress_data(&[0x78, 0x9C, b'a', b'b', b'c', 0x27, 0x01, 0x4d, 0x02]),
        Err(DecodeError::ChecksumMismatch)
    );
}

#[test]
fn every_flipped_trailer_bit_is_a_checksum_mismatch() {
    let encoder = custom();
    let mut data = Vec::new();
    for _ in 0..20 {
        data.extend_from_slice(b"flip\xFFme");
    }
    let compressed = encoder.compress_data(&data).unwrap();
    assert_eq!(encoder.decompress_data(&compressed), Ok(data));
    let trailer = compressed.len() - 4;
    for index in 0..4 {
        for bit in 0..8 {
            let mut damaged = compressed.clone();
            damaged[trailer + index] ^= 1u8 << bit;
            assert_eq!(
                encoder.decompress_data(&damaged),
                Err(DecodeError::ChecksumMismatch)
            );
        }
    }
}

#[test]
fn a_cut_back_reference_is_a_truncated_token() {
    let encoder = custom();
    let data = b"ABCDABCDABCD";
    let compressed = encoder.compress_data(data).unwrap();
    let tokens = &compressed[2..compressed.len() - 4];
    assert_eq!(tokens, &[0x41, 0x42, 0x43, 0x44, 0xFF, 0x04, 0x00, 0x08]);
    for kept in 1..4 {
        let mut damaged = compressed[..2 + 4 + kept].to_vec();
        damaged.extend_from_slice(&compressed[compressed.len() - 4..]);
        assert_eq!(
            encoder.decompress_data(&damaged),
            Err(DecodeError::TruncatedToken)
        );
    }
}

#[test]
fn decodes_to_tells_the_payload_apart() {
    let encoder = custom();
    let compressed = encoder.compress_data(b"payload").unwrap();
    assert!(encoder.decodes_to(&compressed, b"payload"));
    assert!(!encoder.decodes_to(&compressed, b"payloae"));
    assert!(!encoder.decodes_to(&compressed, b"payloa"));
    assert!(!encoder.decodes_to(&compressed[1..], b"payload"));
}

#[test]
fn round_trip_of_every_single_byte_and_some_mixed_buffers() {
    let encoder = custom();
    for byte in 0..=255u8 {
        assert!(encoder.test_compression(&[byte]));
    }
    let mut state: u32 = 12345;
    for length in [2usize, 3, 4, 5, 17, 64, 300] {
        let mut data = Vec::with_capacity(length);
        for _ in 0..length {
            state = state.wrapping_mul(1103515245).wrapping_add(12345);
            let byte = (state >> 16) as u8;
            data.push(if byte % 3 == 0 { 0xFF } else { byte % 4 });
        }
        let compressed = encoder.compress_data(&data).unwrap();
        assert_eq!(encoder.decompress_data(&compressed), Ok(data));
    }
}

#[test]
fn flate2_stream_inflates_to_the_input() {
    let encoder = PngEncoder::new(1, 1, CompressionMethod::Flate2);
    let mut data = Vec::new();
    for i in 0..500u32 {
        data.push((i % 7) as u8);
    }
    let compressed = encoder.compress_data(&data).unwrap();
    assert_ne!(compressed, data);
    let mut decoder = flate2::read::ZlibDecoder::new(&compressed[..]);
    let mut inflated = Vec::new();
    std::io::Read::read_to_end(&mut decoder, &mut inflated).unwrap();
    assert_eq!(inflated, data);
}

#[test]
fn flate2_stream_is_the_same_for_the_same_input() {
    let encoder = PngEncoder::new(1, 1, CompressionMethod::Flate2);
    let first = encoder.compress_data(b"the same bytes, twice").unwrap();
    let second = encoder.compress_data(b"the same bytes, twice").unwrap();
    assert_eq!(first, second);
}
