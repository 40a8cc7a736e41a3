use vstd::prelude::*;

use crate::compression::CompressionScheme;

verus! {

/// A half-open span `[start, end)` of row indices within a page.
#[derive(Debug, Clone, Copy, PartialEq, Eq, Structural)]
pub struct RowRange {
    pub start: u32,
    pub end: u32,
}

/// A half-open span `[start, end)` of bytes.
#[derive(Debug, Clone, Copy, PartialEq, Eq, Structural)]
pub struct ByteRange {
    pub start: u64,
    pub end: u64,
}

/// Scheduler for a page whose values have a fixed byte width and are stored
/// as-is, or as one compressed block.
#[derive(Debug, Clone, Copy)]
pub struct ValuePageScheduler {
    bytes_per_value: u64,
    buffer_offset: u64,
    buffer_size: u64,
    compression_scheme: CompressionScheme,
}

/// The geometry of a value page.
pub struct PageLayout {
    pub bytes_per_value: nat,
    pub buffer_offset: nat,
    pub buffer_size: nat,
    pub compression: CompressionScheme,
}

/// What one scheduling call asks of the I/O layer, and what the decoder
/// built on the fetched bytes needs to know.
#[derive(Debug, Clone)]
pub struct ScheduledRead {
    /// File-relative byte ranges to fetch, in request order.
    pub byte_ranges: Vec<ByteRange>,
    /// For a compressed page, the bytes of each requested row range within
    /// the decompressed value stream; empty for an uncompressed page.
    pub range_offsets: Vec<ByteRange>,
    pub bytes_per_value: u64,
}

impl View for ValuePageScheduler {
    type V = PageLayout;

    closed spec fn view(&self) -> PageLayout {
        PageLayout {
            bytes_per_value: self.bytes_per_value as nat,
            buffer_offset: self.buffer_offset as nat,
            buffer_size: self.buffer_size as nat,
            compression: self.compression_scheme,
        }
    }
}

impl PageLayout {
    pub open spec fn wf(&self) -> bool {
        &&& self.bytes_per_value > 0
        &&& self.buffer_offset + self.buffer_size <= u64::MAX
    }

    pub open spec fn is_compressed(&self) -> bool {
        self.compression != CompressionScheme::Uncompressed
    }

    /// Every requested range is ordered, and its byte positions fit in 64 bits.
    pub open spec fn admits(&self, ranges: Seq<RowRange>) -> bool {
        forall|i: int|
            0 <= i < ranges.len() ==> {
                &&& (#[trigger] ranges[i]).start <= ranges[i].end
                &&& (if self.is_compressed() {
                    0int
                } else {
                    self.buffer_offset as int
                }) + ranges[i].end * self.bytes_per_value <= u64::MAX
            }
    }

    /// The file bytes holding the rows of `r` on an uncompressed page.
    pub open spec fn row_bytes(&self, r: RowRange) -> (int, int) {
        (
            self.buffer_offset + r.start * self.bytes_per_value,
            self.buffer_offset + r.end * self.bytes_per_value,
        )
    }

    /// The file bytes of the whole page.
    pub open spec fn whole_page(&self) -> (int, int) {
        (self.buffer_offset as int, (self.buffer_offset + self.buffer_size) as int)
    }

    /// The bytes of the rows of `r` within the decompressed value stream.
    pub open spec fn stream_bytes(&self, r: RowRange) -> (int, int) {
        (r.start * self.bytes_per_value, r.end * self.bytes_per_value)
    }
}

pub open spec fn spans(b: ByteRange) -> (int, int) {
    (b.start as int, b.end as int)
}

proof fn lemma_scaled_le(a: nat, b: nat, k: nat)
    requires
        a <= b,
    ensures
        a * k <= b * k,
{
    assert(a * k <= b * k) by (nonlinear_arith)
        requires
            a <= b,
    ;
}

impl ValuePageScheduler {
    pub fn new(
        bytes_per_value: u64,
        buffer_offset: u64,
        buffer_size: u64,
        compression_scheme: CompressionScheme,
    ) -> (r: Self)
        requires
            bytes_per_value > 0,
            buffer_offset + buffer_size <= u64::MAX,
        ensures
            r@.bytes_per_value == bytes_per_value,
            r@.buffer_offset == buffer_offset,
            r@.buffer_size == buffer_size,
            r@.compression == compression_scheme,
            r@.wf(),
    {
        Self { bytes_per_value, buffer_offset, buffer_size, compression_scheme }
    }

    /// Turns requested row ranges into the byte ranges to fetch. An
    /// uncompressed page is read range by range; a compressed page is read
    /// whole, as one range, however many row ranges were asked for.
    pub fn schedule_ranges(&self, ranges: &Vec<RowRange>) -> (r: ScheduledRead)
        requires
            self@.wf(),
            self@.admits(ranges@),
        ensures
            r.bytes_per_value == self@.bytes_per_value,
            !self@.is_compressed() ==> {
                &&& r.byte_ranges@.len() == ranges@.len()
                &&& forall|i: int|
                    0 <= i < ranges@.len() ==> spans(#[trigger] r.byte_ranges@[i])
                        == self@.row_bytes(ranges@[i])
                &&& r.range_offsets@.len() == 0
            },
            self@.is_compressed() ==> {
                &&& r.byte_ranges@.len() == 1
                &&& spans(r.byte_ranges@[0]) == self@.whole_page()
                &&& r.range_offsets@.len() == ranges@.len()
                &&& forall|i: int|
                    0 <= i < ranges@.len() ==> spans(#[trigger] r.range_offsets@[i])
                        == self@.stream_bytes(ranges@[i])
            },
    {
        let bytes_per_value = self.bytes_per_value;
        let mut byte_ranges: Vec<ByteRange> = Vec::new();
        let mut range_offsets: Vec<ByteRange> = Vec::new();
        if self.compression_scheme == CompressionScheme::Uncompressed {
            let mut i: usize = 0;
            while i < ranges.len()
                invariant
                    self@.wf(),
                    self@.admits(ranges@),
                    !self@.is_compressed(),
                    bytes_per_value == self.bytes_per_value,
                    i <= ranges@.len(),
                    byte_ranges@.len() == i,
                    range_offsets@.len() == 0,
                    forall|j: int|
                        0 <= j < i ==> spans(#[trigger] byte_ranges@[j]) == self@.row_bytes(
                            ranges@[j],
                        ),
                decreases ranges@.len() - i,
            {
                let range = ranges[i];
                proof {
                    assert(self@.admits(ranges@));
                    assert(range == ranges@[i as int]);
                    lemma_scaled_le(range.start as nat, range.end as nat, bytes_per_value as nat);
                }
                let start = self.buffer_offset + (range.start as u64) * bytes_per_value;
                let end = self.buffer_offset + (range.end as u64) * bytes_per_value;
                byte_ranges.push(ByteRange { start, end });
                i = i + 1;
            }
        } else {
            byte_ranges.push(
                ByteRange {
                    start: self.buffer_offset,
                    end: self.buffer_offset + self.buffer_size,
                },
            );
            let mut i: usize = 0;
            while i < ranges.len()
                invariant
                    self@.wf(),
                    self@.admits(ranges@),
                    self@.is_compressed(),
                    bytes_per_value == self.bytes_per_value,
                    i <= ranges@.len(),
                    byte_ranges@.len() == 1,
                    spans(byte_ranges@[0]) == self@.whole_page(),
                    range_offsets@.len() == i,
                    forall|j: int|
                        0 <= j < i ==> spans(#[trigger] range_offsets@[j])
                            == self@.stream_bytes(ranges@[j]),
                decreases ranges@.len() - i,
            {
                let range = ranges[i];
                proof {
                    assert(range == ranges@[i as int]);
                    lemma_scaled_le(range.start as nat, range.end as nat, bytes_per_value as nat);
                }
                let start = (range.start as u64) * bytes_per_value;
                let end = (range.end as u64) * bytes_per_value;
                range_offsets.push(ByteRange { start, end });
                i = i + 1;
            }
        }
        ScheduledRead { byte_ranges, range_offsets, bytes_per_value }
    }

    pub fn bytes_per_value(&self) -> (r: u64)
        ensures
            r == self@.bytes_per_value,
    {
        self.bytes_per_value
    }

    /// Whether `schedule_ranges` takes these ranges: each is ordered, and its
    /// byte positions fit in 64 bits.
    pub fn admits_ranges(&self, ranges: &Vec<RowRange>) -> (r: bool)
        ensures
            r == self@.admits(ranges@),
    {
        let base: u64 = if self.compression_scheme == CompressionScheme::Uncompressed {
            self.buffer_offset
        } else {
            0
        };
        let mut i: usize = 0;
        while i < ranges.len()
            invariant
                i <= ranges@.len(),
                base == (if self@.is_compressed() {
                    0int
                } else {
                    self@.buffer_offset as int
                }),
                forall|j: int|
                    0 <= j < i ==> {
                        &&& (#[trigger] ranges@[j]).start <= ranges@[j].end
                        &&& base + ranges@[j].end * self@.bytes_per_value <= u64::MAX
                    },
            decreases ranges@.len() - i,
        {
            let range = ranges[i];
            if range.start > range.end {
                return false;
            }
            match (range.end as u64).checked_mul(self.bytes_per_value) {
                Some(end) => {
                    if end.checked_add(base).is_none() {
                        return false;
                    }
                },
                None => {
                    return false;
                },
            }
            i = i + 1;
        }
        true
    }
}

} // verus!
