use std::cell::Cell;

use arrow_schema::DataType;
use lance_arrow::DataTypeExt;
use value_codec::compression::{parse_compression_scheme, CompressionScheme};
use value_codec::decoder::{slice_ranges, BufferDecompressor, ValuePageDecoder};
use value_codec::encoder::{ArrayEncoding, BufferEncoderKind, ValueEncoder, ValueKind};
use value_codec::error::EncodingError;
use value_codec::scheduler::{ByteRange, RowRange, ValuePageScheduler};

/// What the encoder is told of a data type.
fn kind_of(data_type: &DataType) -> ValueKind {
    if *data_type == DataType::Boolean {
        ValueKind::Boolean
    } else if let (true, Some(width)) = (data_type.is_fixed_stride(), data_type.byte_width_opt()) {
        ValueKind::FixedStride { byte_width: width as u64 }
    } else {
        ValueKind::Unsupported { described_as: data_type.to_string() }
    }
}

/// Bits needed for the largest of a batch of unsigned values.
fn bits_needed(values: &[u64]) -> Option<u64> {
    let max = values.iter().copied().max().unwrap_or(0);
    Some(64 - max.leading_zeros() as u64)
}

fn native_bits(data_type: &DataType) -> u64 {
    match data_type {
        DataType::UInt8 => 8,
        DataType::UInt16 => 16,
        DataType::UInt32 => 32,
        DataType::UInt64 => 64,
        DataType::Float32 => 32,
        _ => panic!("no width for {:?}", data_type),
    }
}

/// Reverses the bytes of its input; counts how often it runs.
struct Reverser {
    calls: Cell<u32>,
}

impl BufferDecompressor for Reverser {
    fn decompress(&self, input: &[u8], output: &mut Vec<u8>) -> Result<(), EncodingError> {
        self.calls.set(self.calls.get() + 1);
        output.extend(input.iter().rev());
        Ok(())
    }
}

/// Fails the first time, then passes its input through.
struct FlakyDecompressor {
    calls: Cell<u32>,
}

impl BufferDecompressor for FlakyDecompressor {
    fn decompress(&self, input: &[u8], output: &mut Vec<u8>) -> Result<(), EncodingError> {
        self.calls.set(self.calls.get() + 1);
        if self.calls.get() == 1 {
            return Err(EncodingError::Decompression("corrupt block".to_string()));
        }
        output.extend_from_slice(input);
        Ok(())
    }
}

#[test]
fn test_will_bitpack_allowed_types_when_possible() {
    let test_cases: Vec<(DataType, Vec<u64>, u64)> = vec![
        (DataType::UInt8, vec![0, 1, 2, 3, 4, 5], 3),
        (DataType::UInt16, vec![0, 1, 2, 3, 4, 5 << 8], 11),
        (DataType::UInt32, vec![0, 1, 2, 3, 4, 5 << 16], 19),
        (DataType::UInt64, vec![0, 1, 2, 3, 4, 5 << 32], 35),
    ];

    for (data_type, values, bits_per_value) in test_cases {
        let widths = vec![bits_needed(&values)];
        let mut buffed_index = 1;
        let encoder = ValueEncoder::try_new(kind_of(&data_type), CompressionScheme::Uncompressed).unwrap();
        let result = encoder.encode(&widths, &mut buffed_index);
        match result.encoding {
            ArrayEncoding::Bitpacked {
                compressed_bits_per_value,
                uncompressed_bits_per_value,
                ..
            } => {
                assert_eq!(bits_per_value, compressed_bits_per_value);
                assert_eq!(native_bits(&data_type), uncompressed_bits_per_value);
            }
            _ => {
                panic!("Array did not use bitpacking encoding")
            }
        }
    }

    // floats cannot be bit-packed; the others would need the full width
    let test_cases: Vec<(DataType, Option<u64>)> = vec![
        (DataType::Float32, None),
        (DataType::UInt8, bits_needed(&[0, 1, 2, 3, 4, 250])),
        (DataType::UInt16, bits_needed(&[0, 1, 2, 3, 4, 250 << 8])),
        (DataType::UInt32, bits_needed(&[0, 1, 2, 3, 4, 250 << 24])),
        (DataType::UInt64, bits_needed(&[0, 1, 2, 3, 4, 250 << 56])),
    ];

    for (data_type, width) in test_cases {
        let widths = vec![width];
        let mut buffed_index = 1;
        let encoder = ValueEncoder::try_new(kind_of(&data_type), CompressionScheme::Uncompressed).unwrap();
        let result = encoder.encode(&widths, &mut buffed_index);
        match result.encoding {
            ArrayEncoding::Flat { bits_per_value, .. } => {
                assert_eq!(native_bits(&data_type), bits_per_value);
            }
            _ => {
                panic!("Array did not use bitpacking encoding")
            }
        }
    }
}

#[test]
fn parse_known_schemes() {
    assert_eq!(parse_compression_scheme("none"), Ok(CompressionScheme::Uncompressed));
    assert_eq!(parse_compression_scheme("zstd"), Ok(CompressionScheme::Zstd));
}

#[test]
fn parse_unknown_scheme_is_invalid_input() {
    assert_eq!(
        parse_compression_scheme("lz4"),
        Err(EncodingError::InvalidInput("Unknown compression scheme: lz4".to_string()))
    );
    assert!(matches!(parse_compression_scheme("ZSTD"), Err(EncodingError::InvalidInput(_))));
    assert!(matches!(parse_compression_scheme(""), Err(EncodingError::InvalidInput(_))));
}

#[test]
fn scheme_names_round_trip() {
    for scheme in [CompressionScheme::Uncompressed, CompressionScheme::Zstd] {
        assert_eq!(parse_compression_scheme(&scheme.to_string()), Ok(scheme));
    }
    assert_eq!(CompressionScheme::Zstd.to_string(), "zstd");
    assert_eq!(CompressionScheme::Uncompressed.to_string(), "none");
}

#[test]
fn schedule_uncompressed_single_range() {
    let scheduler = ValuePageScheduler::new(4, 100, 400, CompressionScheme::Uncompressed);
    let read = scheduler.schedule_ranges(&vec![RowRange { start: 2, end: 5 }]);
    assert_eq!(read.byte_ranges, vec![ByteRange { start: 108, end: 120 }]);
    assert!(read.range_offsets.is_empty());
    assert_eq!(read.bytes_per_value, 4);

    let fetched: Vec<u8> = (0..12).collect();
    let mut decoder = ValuePageDecoder::new(4, vec![fetched.clone()], read.range_offsets);
    let mut dest = Vec::new();
    let none = Reverser { calls: Cell::new(0) };
    decoder.decode_into(&none, 0, 3, &mut dest).unwrap();
    assert_eq!(dest, fetched);
    assert_eq!(none.calls.get(), 0);
}

#[test]
fn schedule_uncompressed_keeps_one_range_per_request() {
    let scheduler = ValuePageScheduler::new(8, 1000, 800, CompressionScheme::Uncompressed);
    let ranges = vec![
        RowRange { start: 0, end: 1 },
        RowRange { start: 10, end: 20 },
        RowRange { start: 5, end: 5 },
    ];
    let read = scheduler.schedule_ranges(&ranges);
    assert_eq!(
        read.byte_ranges,
        vec![
            ByteRange { start: 1000, end: 1008 },
            ByteRange { start: 1080, end: 1160 },
            ByteRange { start: 1040, end: 1040 },
        ]
    );
    assert!(read.range_offsets.is_empty());
}

#[test]
fn schedule_compressed_fetches_whole_page() {
    let scheduler = ValuePageScheduler::new(4, 100, 37, CompressionScheme::Zstd);
    let read = scheduler.schedule_ranges(&vec![RowRange { start: 3, end: 7 }]);
    assert_eq!(read.byte_ranges, vec![ByteRange { start: 100, end: 137 }]);
    assert_eq!(read.range_offsets, vec![ByteRange { start: 12, end: 28 }]);

    let two = scheduler.schedule_ranges(&vec![
        RowRange { start: 0, end: 1 },
        RowRange { start: 2, end: 4 },
    ]);
    assert_eq!(two.byte_ranges, vec![ByteRange { start: 100, end: 137 }]);
    assert_eq!(
        two.range_offsets,
        vec![ByteRange { start: 0, end: 4 }, ByteRange { start: 8, end: 16 }]
    );
}

#[test]
fn decode_window_across_chunks() {
    let chunks = vec![vec![1u8, 2, 3, 4], vec![5, 6], vec![], vec![7, 8, 9, 10, 11, 12]];
    let joined: Vec<u8> = chunks.concat();
    let none = Reverser { calls: Cell::new(0) };
    for skip in 0..7u32 {
        for take in 0..7u32 {
            let mut split = ValuePageDecoder::new(2, chunks.clone(), vec![]);
            let mut whole = ValuePageDecoder::new(2, vec![joined.clone()], vec![]);
            let mut a = vec![99u8];
            let mut b = vec![99u8];
            split.decode_into(&none, skip, take, &mut a).unwrap();
            whole.decode_into(&none, skip, take, &mut b).unwrap();
            assert_eq!(a, b);
            let lo = ((skip * 2) as usize).min(joined.len());
            let hi = ((skip * 2 + take * 2) as usize).min(joined.len());
            let mut expected = vec![99u8];
            expected.extend_from_slice(&joined[lo..hi]);
            assert_eq!(a, expected);
        }
    }
}

#[test]
fn decode_buffer_skips_and_takes() {
    let decoder = ValuePageDecoder::new(1, vec![], vec![]);
    let mut skip = 5u64;
    let mut take = 3u64;
    let mut dest = Vec::new();
    decoder.decode_buffer(&vec![1, 2, 3], &mut skip, &mut take, &mut dest);
    assert_eq!((skip, take), (2, 3));
    assert!(dest.is_empty());
    decoder.decode_buffer(&vec![4, 5, 6, 7], &mut skip, &mut take, &mut dest);
    assert_eq!((skip, take), (0, 1));
    assert_eq!(dest, vec![6, 7]);
    decoder.decode_buffer(&vec![8, 9], &mut skip, &mut take, &mut dest);
    assert_eq!((skip, take), (0, 0));
    assert_eq!(dest, vec![6, 7, 8]);
}

#[test]
fn compressed_page_decompresses_once() {
    let scheduler = ValuePageScheduler::new(2, 0, 8, CompressionScheme::Zstd);
    let read = scheduler.schedule_ranges(&vec![RowRange { start: 1, end: 3 }]);
    // the "compressed" block is the value stream reversed
    let stream: Vec<u8> = vec![10, 11, 12, 13, 14, 15, 16, 17];
    let block: Vec<u8> = stream.iter().rev().copied().collect();
    let mut decoder = ValuePageDecoder::new(2, vec![block], read.range_offsets);
    assert!(decoder.is_compressed());
    let reverser = Reverser { calls: Cell::new(0) };

    let mut first = Vec::new();
    decoder.decode_into(&reverser, 0, 2, &mut first).unwrap();
    assert_eq!(first, vec![12, 13, 14, 15]);
    let mut second = Vec::new();
    decoder.decode_into(&reverser, 1, 1, &mut second).unwrap();
    assert_eq!(second, vec![14, 15]);
    assert_eq!(reverser.calls.get(), 1);
}

#[test]
fn failed_decompression_is_retried() {
    let mut decoder = ValuePageDecoder::new(1, vec![vec![1, 2, 3]], vec![ByteRange { start: 0, end: 3 }]);
    let flaky = FlakyDecompressor { calls: Cell::new(0) };
    let mut dest = vec![7u8];
    let err = decoder.decode_into(&flaky, 0, 3, &mut dest);
    assert_eq!(err, Err(EncodingError::Decompression("corrupt block".to_string())));
    assert_eq!(dest, vec![7]);
    decoder.decode_into(&flaky, 0, 3, &mut dest).unwrap();
    assert_eq!(dest, vec![7, 1, 2, 3]);
    assert_eq!(flaky.calls.get(), 2);
}

#[test]
fn short_decompressed_stream_is_an_error() {
    let mut decoder = ValuePageDecoder::new(4, vec![vec![1, 2, 3]], vec![ByteRange { start: 0, end: 8 }]);
    let reverser = Reverser { calls: Cell::new(0) };
    let mut dest = Vec::new();
    let r = decoder.decode_into(&reverser, 0, 2, &mut dest);
    assert!(matches!(r, Err(EncodingError::Decompression(_))));
    assert!(dest.is_empty());
}

#[test]
fn slice_ranges_cuts_pieces() {
    let bytes = vec![0u8, 1, 2, 3, 4, 5];
    let ranges = vec![ByteRange { start: 4, end: 6 }, ByteRange { start: 0, end: 2 }];
    assert_eq!(slice_ranges(&bytes, &ranges), Ok(vec![vec![4, 5], vec![0, 1]]));
    let bad = vec![ByteRange { start: 4, end: 7 }];
    assert!(matches!(slice_ranges(&bytes, &bad), Err(EncodingError::Decompression(_))));
}

#[test]
fn capacity_and_buffer_count() {
    let decoder = ValuePageDecoder::new(8, vec![], vec![]);
    assert_eq!(decoder.update_capacity(3, 5), (40, true));
    assert_eq!(decoder.num_buffers(), 1);
}

#[test]
fn uint8_small_values_bitpack_to_three_bits() {
    let encoder = ValueEncoder::try_new(kind_of(&DataType::UInt8), CompressionScheme::Uncompressed).unwrap();
    let mut index = 4;
    let r = encoder.encode(&vec![bits_needed(&[0, 1, 2, 3, 4, 5])], &mut index);
    assert_eq!(index, 5);
    assert_eq!(r.index, 4);
    match r.encoding {
        ArrayEncoding::Bitpacked { compressed_bits_per_value, uncompressed_bits_per_value, buffer } => {
            assert_eq!((compressed_bits_per_value, uncompressed_bits_per_value), (3, 8));
            assert_eq!(buffer.buffer_index, 4);
        }
        other => panic!("unexpected {:?}", other),
    }
    assert_eq!(r.buffer_encoder, BufferEncoderKind::Bitpacked { num_bits: 3 });
}

#[test]
fn uint8_full_width_stays_flat() {
    let encoder = ValueEncoder::try_new(kind_of(&DataType::UInt8), CompressionScheme::Uncompressed).unwrap();
    let mut index = 0;
    let r = encoder.encode(&vec![bits_needed(&[0, 1, 2, 3, 4, 250])], &mut index);
    match r.encoding {
        ArrayEncoding::Flat { bits_per_value, compression, .. } => {
            assert_eq!(bits_per_value, 8);
            assert_eq!(compression, None);
        }
        other => panic!("unexpected {:?}", other),
    }
    assert_eq!(r.buffer_encoder, BufferEncoderKind::Flat);
}

#[test]
fn widest_array_decides_and_unpackable_array_stops_packing() {
    let encoder = ValueEncoder::try_new(kind_of(&DataType::UInt32), CompressionScheme::Zstd).unwrap();
    let mut index = 0;
    let r = encoder.encode(&vec![Some(3), Some(17), Some(0)], &mut index);
    assert!(matches!(r.encoding, ArrayEncoding::Bitpacked { compressed_bits_per_value: 17, uncompressed_bits_per_value: 32, .. }));

    let r = encoder.encode(&vec![Some(3), None, Some(4)], &mut index);
    match r.encoding {
        ArrayEncoding::Flat { bits_per_value, compression, buffer } => {
            assert_eq!(bits_per_value, 32);
            assert_eq!(compression, Some("zstd".to_string()));
            assert_eq!(buffer.buffer_index, 1);
        }
        other => panic!("unexpected {:?}", other),
    }
    assert_eq!(r.buffer_encoder, BufferEncoderKind::Compressed(CompressionScheme::Zstd));
    assert_eq!(index, 2);
}

#[test]
fn boolean_uses_bitmap() {
    let encoder = ValueEncoder::try_new(kind_of(&DataType::Boolean), CompressionScheme::Zstd).unwrap();
    let mut index = 0;
    let r = encoder.encode(&vec![Some(1)], &mut index);
    match r.encoding {
        ArrayEncoding::Flat { bits_per_value, compression, .. } => {
            assert_eq!(bits_per_value, 1);
            assert_eq!(compression, None);
        }
        other => panic!("unexpected {:?}", other),
    }
    assert_eq!(r.buffer_encoder, BufferEncoderKind::Bitmap);
}

#[test]
fn variable_width_types_are_rejected() {
    assert_eq!(
        ValueEncoder::try_new(kind_of(&DataType::Utf8), CompressionScheme::Uncompressed).err(),
        Some(EncodingError::InvalidInput("Cannot use ValueEncoder to encode Utf8".to_string()))
    );
    assert!(matches!(
        ValueEncoder::try_new(
            ValueKind::Unsupported { described_as: "List(Int32)".to_string() },
            CompressionScheme::Zstd
        ),
        Err(EncodingError::InvalidInput(_))
    ));
    assert!(matches!(
        ValueEncoder::try_new(ValueKind::FixedStride { byte_width: u64::MAX }, CompressionScheme::Zstd),
        Err(EncodingError::InvalidInput(_))
    ));
}

#[test]
fn fixed_size_binary_is_flat_at_its_width() {
    let encoder = ValueEncoder::try_new(kind_of(&DataType::FixedSizeBinary(2)), CompressionScheme::Uncompressed).unwrap();
    let mut index = 0;
    let r = encoder.encode(&vec![None], &mut index);
    assert!(matches!(r.encoding, ArrayEncoding::Flat { bits_per_value: 16, .. }));
}

/// Reads rows back from a flat page of `page` through scheduling and decoding.
fn read_back(bytes_per_value: u64, page: &[u8], ranges: &[RowRange], skip: u32, take: u32) -> Vec<u8> {
    let offset = 64u64;
    let scheduler = ValuePageScheduler::new(
        bytes_per_value,
        offset,
        page.len() as u64,
        CompressionScheme::Uncompressed,
    );
    let ranges = ranges.to_vec();
    assert!(scheduler.admits_ranges(&ranges));
    let read = scheduler.schedule_ranges(&ranges);
    let fetched: Vec<Vec<u8>> = read
        .byte_ranges
        .iter()
        .map(|r| page[(r.start - offset) as usize..(r.end - offset) as usize].to_vec())
        .collect();
    let mut decoder = ValuePageDecoder::new(bytes_per_value, fetched, read.range_offsets);
    let mut dest = Vec::new();
    let unused = Reverser { calls: Cell::new(0) };
    decoder.decode_into(&unused, skip, take, &mut dest).unwrap();
    dest
}

#[test]
fn test_value_primitive() {
    let primitive_types: Vec<(DataType, u64)> = vec![
        (DataType::FixedSizeBinary(2), 2),
        (DataType::Date32, 4),
        (DataType::Date64, 8),
        (DataType::Int8, 1),
        (DataType::Int16, 2),
        (DataType::Int32, 4),
        (DataType::Int64, 8),
        (DataType::UInt8, 1),
        (DataType::UInt16, 2),
        (DataType::UInt32, 4),
        (DataType::UInt64, 8),
        (DataType::Float16, 2),
        (DataType::Float32, 4),
        (DataType::Float64, 8),
        (DataType::Decimal128(10, 10), 16),
        (DataType::Decimal256(10, 10), 32),
        (DataType::Timestamp(arrow_schema::TimeUnit::Nanosecond, None), 8),
        (DataType::Time32(arrow_schema::TimeUnit::Second), 4),
        (DataType::Time64(arrow_schema::TimeUnit::Nanosecond), 8),
        (DataType::Duration(arrow_schema::TimeUnit::Second), 8),
    ];
    for (data_type, width) in primitive_types {
        for scheme in [CompressionScheme::Uncompressed, CompressionScheme::Zstd] {
            let encoder = ValueEncoder::try_new(kind_of(&data_type), scheme).unwrap();
            let mut index = 0;
            let r = encoder.encode(&vec![None], &mut index);
            match r.encoding {
                ArrayEncoding::Flat { bits_per_value, .. } => assert_eq!(bits_per_value, 8 * width),
                other => panic!("unexpected {:?}", other),
            }
        }
        let rows = 10u32;
        let page: Vec<u8> = (0..rows as u64 * width).map(|i| (i * 7 % 251) as u8).collect();
        let ranges = [RowRange { start: 1, end: 3 }, RowRange { start: 5, end: 9 }];
        let w = width as usize;
        let mut expected = page[w..3 * w].to_vec();
        expected.extend_from_slice(&page[5 * w..9 * w]);
        assert_eq!(read_back(width, &page, &ranges, 0, 6), expected);
        assert_eq!(read_back(width, &page, &ranges, 1, 4), expected[w..5 * w].to_vec());
    }
}

#[test]
fn test_bitpack_primitive() {
    // (type, smallest and largest value of the batch, expected packed width)
    let cases: Vec<(DataType, u64, u64, u64)> = vec![
        (DataType::UInt32, 0, 18, 5),
        (DataType::UInt32, 5 << 7, (6 << 7) - 1, 10),
        (DataType::UInt64, 5 << 42, (6 << 42) - 1, 45),
        (DataType::UInt8, 0, 18, 5),
        (DataType::UInt32, 200, 249, 8),
        (DataType::UInt32, 200 << 8, (250 << 8) - 1, 16),
        (DataType::UInt32, 0, 0, 0),
    ];
    for (data_type, low, high, bits) in cases {
        let encoder = ValueEncoder::try_new(kind_of(&data_type), CompressionScheme::Uncompressed).unwrap();
        let widths = vec![bits_needed(&[low, high]), bits_needed(&[low])];
        let mut index = 0;
        let r = encoder.encode(&widths, &mut index);
        match r.encoding {
            ArrayEncoding::Bitpacked { compressed_bits_per_value, uncompressed_bits_per_value, .. } => {
                assert_eq!(compressed_bits_per_value, bits);
                assert_eq!(uncompressed_bits_per_value, native_bits(&data_type));
            }
            other => panic!("unexpected {:?}", other),
        }
    }
}

#[test]
fn decode_with_given_stream() {
    let offsets = vec![ByteRange { start: 4, end: 12 }];
    let stream: Vec<u8> = (0..16).collect();
    let mut decoder = ValuePageDecoder::new(2, vec![vec![0xff]], offsets.clone());
    assert!(decoder.needs_decompression());
    assert_eq!(decoder.compressed_block(), &vec![0xff]);

    let mut dest = Vec::new();
    let missing = decoder.decode_with(None, 0, 1, &mut dest);
    assert!(matches!(missing, Err(EncodingError::Decompression(_))));
    let failure = EncodingError::Decompression("bad block".to_string());
    assert_eq!(decoder.decode_with(Some(Err(failure.clone())), 0, 1, &mut dest), Err(failure));
    assert!(decoder.needs_decompression());
    assert!(dest.is_empty());

    // rows count from the start of the requested range: row 1 of [2, 6) is row 3
    decoder.decode_with(Some(Ok(stream.clone())), 1, 2, &mut dest).unwrap();
    assert_eq!(dest, vec![6, 7, 8, 9]);
    assert!(!decoder.needs_decompression());
    // once cached, a later outcome is not looked at
    decoder.decode_with(Some(Ok(vec![])), 0, 1, &mut dest).unwrap();
    assert_eq!(dest, vec![6, 7, 8, 9, 4, 5]);
}

#[test]
fn get_uncompressed_bytes_caches_once() {
    let mut decoder = ValuePageDecoder::new(1, vec![vec![9]], vec![ByteRange { start: 1, end: 3 }]);
    assert!(matches!(decoder.get_uncompressed_bytes(Ok(vec![5])), Err(EncodingError::Decompression(_))));
    assert!(decoder.needs_decompression());
    assert_eq!(decoder.get_uncompressed_bytes(Ok(vec![5, 6, 7, 8])), Ok(()));
    assert!(!decoder.needs_decompression());
    assert_eq!(decoder.get_uncompressed_bytes(Err(EncodingError::Decompression("late".to_string()))), Ok(()));
    let mut dest = Vec::new();
    decoder.decode_with(None, 0, 2, &mut dest).unwrap();
    assert_eq!(dest, vec![6, 7]);
}
