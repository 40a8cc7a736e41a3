use vstd::prelude::*;

use crate::compression::{scheme_name, CompressionScheme};
use crate::error::EncodingError;

verus! {

/// What the encoder needs to know of a logical data type.
#[derive(Debug, Clone, PartialEq, Eq)]
pub enum ValueKind {
    /// One bit per value, stored as a bitmap.
    Boolean,
    /// Every value takes `byte_width` bytes.
    FixedStride { byte_width: u64 },
    /// A type this encoder does not handle, such as one of varying width;
    /// `described_as` names it in the error.
    Unsupported { described_as: String },
}

/// The message carried by the error for a type the encoder does not handle.
pub open spec fn unsupported_message(described_as: Seq<char>) -> Seq<char> {
    "Cannot use ValueEncoder to encode "@ + described_as
}

/// The buffer encoder to run over the arrays for the page's one buffer.
#[derive(Debug, Clone, Copy, PartialEq, Eq, Structural)]
pub enum BufferEncoderKind {
    /// One bit per value.
    Bitmap,
    /// Values at their native width, as they are.
    Flat,
    /// Values at their native width, then block-compressed with the scheme.
    Compressed(CompressionScheme),
    /// Values packed into `num_bits` bits each.
    Bitpacked { num_bits: u64 },
}

/// What a buffer reference points into.
#[derive(Debug, Clone, Copy, PartialEq, Eq, Structural)]
pub enum BufferType {
    Page,
}

#[derive(Debug, Clone, Copy, PartialEq, Eq, Structural)]
pub struct BufferRef {
    pub buffer_index: u32,
    pub buffer_type: BufferType,
}

/// How a page's bytes are to be read back.
#[derive(Debug, Clone, PartialEq, Eq)]
pub enum ArrayEncoding {
    /// Values at `bits_per_value` bits each, block-compressed with the named
    /// scheme where there is one.
    Flat { bits_per_value: u64, buffer: BufferRef, compression: Option<String> },
    /// Values of `uncompressed_bits_per_value` bits packed into
    /// `compressed_bits_per_value` bits each.
    Bitpacked {
        compressed_bits_per_value: u64,
        uncompressed_bits_per_value: u64,
        buffer: BufferRef,
    },
}

/// The outcome of encoding a batch: its metadata, the buffer encoder that
/// produces its bytes, and the buffer slot those bytes go to.
#[derive(Debug, Clone)]
pub struct EncodedArray {
    pub encoding: ArrayEncoding,
    pub buffer_encoder: BufferEncoderKind,
    pub index: u32,
}

/// Chooses, for arrays of one fixed-width type, between bit-packing and a
/// flat (optionally compressed) layout.
#[derive(Debug, Clone, Copy)]
pub struct ValueEncoder {
    compression_scheme: CompressionScheme,
    flat_buffer_encoder: BufferEncoderKind,
    bitpack: bool,
    native_bits: u64,
}

pub struct EncoderModel {
    pub compression: CompressionScheme,
    /// The encoder used when the batch is not bit-packed.
    pub flat_encoder: BufferEncoderKind,
    /// Whether bit-packing is tried at all.
    pub bitpack: bool,
    /// The width of a value before any packing.
    pub native_bits: nat,
}

impl View for ValueEncoder {
    type V = EncoderModel;

    closed spec fn view(&self) -> EncoderModel {
        EncoderModel {
            compression: self.compression_scheme,
            flat_encoder: self.flat_buffer_encoder,
            bitpack: self.bitpack,
            native_bits: self.native_bits as nat,
        }
    }
}

/// The encoder for values of `kind`, if it can encode them.
pub open spec fn encoder_for(kind: ValueKind, scheme: CompressionScheme) -> Option<EncoderModel> {
    match kind {
        ValueKind::Boolean => Some(
            EncoderModel {
                compression: scheme,
                flat_encoder: BufferEncoderKind::Bitmap,
                bitpack: false,
                native_bits: 1,
            },
        ),
        ValueKind::FixedStride { byte_width } => if 8 * byte_width <= u64::MAX {
            Some(
                EncoderModel {
                    compression: scheme,
                    flat_encoder: if scheme == CompressionScheme::Uncompressed {
                        BufferEncoderKind::Flat
                    } else {
                        BufferEncoderKind::Compressed(scheme)
                    },
                    bitpack: true,
                    native_bits: (8 * byte_width) as nat,
                },
            )
        } else {
            None
        },
        ValueKind::Unsupported { .. } => None,
    }
}

/// The widest of the widths the arrays need, or none if some array cannot
/// be bit-packed.
pub open spec fn max_bits(widths: Seq<Option<u64>>) -> Option<nat>
    decreases widths.len(),
{
    if widths.len() == 0 {
        Some(0)
    } else {
        match (max_bits(widths.drop_last()), widths.last()) {
            (Some(m), Some(w)) => Some(
                if m >= w {
                    m
                } else {
                    w as nat
                },
            ),
            _ => None,
        }
    }
}

pub open spec fn page_buffer(index: u32) -> BufferRef {
    BufferRef { buffer_index: index, buffer_type: BufferType::Page }
}

/// The bit-packed encoding of a batch, where packing is tried and saves
/// space: every array can be packed, into fewer bits than the native width.
pub open spec fn bitpacked_choice(
    m: EncoderModel,
    widths: Seq<Option<u64>>,
    index: u32,
) -> Option<ArrayEncoding> {
    if m.bitpack && max_bits(widths) is Some && max_bits(widths)->Some_0 < m.native_bits {
        Some(
            ArrayEncoding::Bitpacked {
                compressed_bits_per_value: max_bits(widths)->Some_0 as u64,
                uncompressed_bits_per_value: m.native_bits as u64,
                buffer: page_buffer(index),
            },
        )
    } else {
        None
    }
}

impl ValueEncoder {
    /// The encoder for values of `kind`: booleans and fixed-stride types are
    /// accepted. Any other type is an invalid input, as is a byte width whose
    /// bit count does not fit in 64 bits.
    pub fn try_new(kind: ValueKind, compression_scheme: CompressionScheme) -> (r: Result<
        Self,
        EncodingError,
    >)
        ensures
            match encoder_for(kind, compression_scheme) {
                Some(m) => r matches Ok(e) && e@ == m,
                None => r matches Err(EncodingError::InvalidInput(message)) && match kind {
                    ValueKind::Unsupported { described_as } => message@ == unsupported_message(
                        described_as@,
                    ),
                    _ => true,
                },
            },
    {
        match kind {
            ValueKind::Boolean => Ok(
                Self {
                    compression_scheme,
                    flat_buffer_encoder: BufferEncoderKind::Bitmap,
                    bitpack: false,
                    native_bits: 1,
                },
            ),
            ValueKind::FixedStride { byte_width } => {
                if byte_width > u64::MAX / 8 {
                    return Err(
                        EncodingError::InvalidInput(
                            String::from_str("Value width is too large for ValueEncoder"),
                        ),
                    );
                }
                let flat_buffer_encoder = if compression_scheme
                    != CompressionScheme::Uncompressed {
                    BufferEncoderKind::Compressed(compression_scheme)
                } else {
                    BufferEncoderKind::Flat
                };
                Ok(
                    Self {
                        compression_scheme,
                        flat_buffer_encoder,
                        bitpack: true,
                        native_bits: 8 * byte_width,
                    },
                )
            },
            ValueKind::Unsupported { described_as } => {
                let mut message = String::from_str("Cannot use ValueEncoder to encode ");
                message.append(described_as.as_str());
                Err(EncodingError::InvalidInput(message))
            },
        }
    }

    /// The width a batch is packed into, where it is bit-packed at all.
    fn packed_width(&self, bit_widths: &Vec<Option<u64>>) -> (r: Option<u64>)
        ensures
            r matches Some(w) <==> bitpacked_choice(self@, bit_widths@, 0) is Some,
            r matches Some(w) ==> w == max_bits(bit_widths@)->Some_0,
    {
        if !self.bitpack {
            return None;
        }
        let mut num_bits: u64 = 0;
        let mut i: usize = 0;
        while i < bit_widths.len()
            invariant
                i <= bit_widths@.len(),
                max_bits(bit_widths@.take(i as int)) == Some(num_bits as nat),
            decreases bit_widths@.len() - i,
        {
            proof {
                assert(bit_widths@.take(i + 1).drop_last() =~= bit_widths@.take(i as int));
            }
            match bit_widths[i] {
                Some(width) => {
                    if width > num_bits {
                        num_bits = width;
                    }
                },
                None => {
                    proof {
                        lemma_unpackable_stays(bit_widths@, i as int + 1);
                    }
                    return None;
                },
            }
            i = i + 1;
        }
        proof {
            assert(bit_widths@.take(i as int) =~= bit_widths@);
        }
        if num_bits >= self.native_bits {
            return None;
        }
        Some(num_bits)
    }

    /// The bit-packed encoding of a batch whose arrays need `bit_widths` bits
    /// (none for an array that cannot be packed), or none where the batch is
    /// to be stored flat.
    pub fn try_bitpack_encode(&self, bit_widths: &Vec<Option<u64>>, buffer_index: u32) -> (r:
        Option<ArrayEncoding>)
        requires
            bit_widths@.len() > 0,
        ensures
            r == bitpacked_choice(self@, bit_widths@, buffer_index),
    {
        match self.packed_width(bit_widths) {
            Some(num_bits) => Some(
                ArrayEncoding::Bitpacked {
                    compressed_bits_per_value: num_bits,
                    uncompressed_bits_per_value: self.native_bits,
                    buffer: BufferRef { buffer_index, buffer_type: BufferType::Page },
                },
            ),
            None => None,
        }
    }

    /// Encodes a non-empty batch into the next buffer slot: bit-packed where that saves
    /// space, else flat at the native width (one bit for booleans), compressed
    /// when a scheme is configured for a fixed-stride type.
    pub fn encode(&self, bit_widths: &Vec<Option<u64>>, buffer_index: &mut u32) -> (r:
        EncodedArray)
        requires
            bit_widths@.len() > 0,
            *old(buffer_index) < u32::MAX,
        ensures
            *final(buffer_index) == *old(buffer_index) + 1,
            r.index == *old(buffer_index),
            match bitpacked_choice(self@, bit_widths@, *old(buffer_index)) {
                Some(e) => {
                    &&& r.encoding == e
                    &&& r.buffer_encoder == BufferEncoderKind::Bitpacked {
                        num_bits: max_bits(bit_widths@)->Some_0 as u64,
                    }
                },
                None => {
                    &&& r.buffer_encoder == self@.flat_encoder
                    &&& r.encoding matches ArrayEncoding::Flat {
                        bits_per_value,
                        buffer,
                        compression,
                    }
                    &&& bits_per_value == self@.native_bits
                    &&& buffer == page_buffer(*old(buffer_index))
                    &&& match self@.flat_encoder {
                        BufferEncoderKind::Compressed(s) => compression matches Some(name)
                            && name@ == scheme_name(s),
                        _ => compression is None,
                    }
                },
            },
    {
        let index = *buffer_index;
        *buffer_index = index + 1;
        match self.packed_width(bit_widths) {
            Some(num_bits) => {
                EncodedArray {
                    encoding: ArrayEncoding::Bitpacked {
                        compressed_bits_per_value: num_bits,
                        uncompressed_bits_per_value: self.native_bits,
                        buffer: BufferRef { buffer_index: index, buffer_type: BufferType::Page },
                    },
                    buffer_encoder: BufferEncoderKind::Bitpacked { num_bits },
                    index,
                }
            },
            None => {
                let compression = match self.flat_buffer_encoder {
                    BufferEncoderKind::Compressed(s) => Some(s.to_string()),
                    _ => None,
                };
                EncodedArray {
                    encoding: ArrayEncoding::Flat {
                        bits_per_value: self.native_bits,
                        buffer: BufferRef { buffer_index: index, buffer_type: BufferType::Page },
                        compression,
                    },
                    buffer_encoder: self.flat_buffer_encoder,
                    index,
                }
            },
        }
    }
}

/// How the width is chosen: a batch of a bit-packable type whose arrays all
/// fit in `w` bits, fewer than the native width, is packed into exactly `w`
/// bits; one that needs the full native width or more, or holds an array that
/// cannot be packed, is stored flat.
pub proof fn lemma_bit_width_selection(m: EncoderModel, widths: Seq<Option<u64>>, index: u32)
    requires
        m.bitpack,
        m.native_bits <= u64::MAX,
    ensures
        match max_bits(widths) {
            Some(w) => w < m.native_bits ==> bitpacked_choice(m, widths, index) == Some(
                ArrayEncoding::Bitpacked {
                    compressed_bits_per_value: w as u64,
                    uncompressed_bits_per_value: m.native_bits as u64,
                    buffer: page_buffer(index),
                },
            ),
            None => true,
        },
        (max_bits(widths) is None || max_bits(widths)->Some_0 >= m.native_bits)
            ==> bitpacked_choice(m, widths, index) is None,
        (exists|i: int| 0 <= i < widths.len() && widths[i] is None) ==> bitpacked_choice(
            m,
            widths,
            index,
        ) is None,
{
    if exists|i: int| 0 <= i < widths.len() && widths[i] is None {
        let i = choose|i: int| 0 <= i < widths.len() && widths[i] is None;
        lemma_unpackable_stays(widths, i + 1);
    }
}

/// Once an array that cannot be packed is seen, no longer prefix can be packed.
proof fn lemma_unpackable_stays(widths: Seq<Option<u64>>, n: int)
    requires
        0 < n <= widths.len(),
        widths[n - 1] is None,
    ensures
        max_bits(widths) is None,
    decreases widths.len() - n,
{
    if n == widths.len() {
        assert(widths.last() is None);
    } else {
        lemma_unpackable_stays(widths.drop_last(), n);
        assert(widths.drop_last()[n - 1] == widths[n - 1]);
    }
}

} // verus!
