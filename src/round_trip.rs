use vstd::prelude::*;

use crate::decoder::{concat, pieces, window};
use crate::scheduler::{spans, ByteRange, PageLayout, RowRange};

verus! {

/// The bytes of each requested row range, taken from the page's value bytes.
pub open spec fn row_pieces(page: Seq<u8>, ranges: Seq<RowRange>, bytes_per_value: nat) -> Seq<
    Seq<u8>,
> {
    ranges.map_values(
        |r: RowRange| page.subrange(r.start * bytes_per_value, r.end * bytes_per_value),
    )
}

/// Rows read back from an uncompressed page are the rows written: when the
/// page's value bytes `page` sit at the page's offset, and each fetched buffer
/// holds the file bytes of the range scheduled for it, any window of the
/// requested rows decodes to the same window of those rows' bytes in `page`.
pub proof fn lemma_flat_page_round_trip(
    layout: PageLayout,
    page: Seq<u8>,
    ranges: Seq<RowRange>,
    byte_ranges: Seq<ByteRange>,
    fetched: Seq<Seq<u8>>,
    skip: int,
    take: int,
)
    requires
        layout.wf(),
        !layout.is_compressed(),
        layout.admits(ranges),
        forall|i: int| 0 <= i < ranges.len() ==> (#[trigger] ranges[i]).end * layout.bytes_per_value <= page.len(),
        byte_ranges.len() == ranges.len(),
        forall|i: int|
            0 <= i < ranges.len() ==> spans(#[trigger] byte_ranges[i]) == layout.row_bytes(
                ranges[i],
            ),
        fetched.len() == byte_ranges.len(),
        forall|i: int|
            0 <= i < fetched.len() ==> #[trigger] fetched[i] == page.subrange(
                byte_ranges[i].start - layout.buffer_offset,
                byte_ranges[i].end - layout.buffer_offset,
            ),
    ensures
        window(concat(fetched), skip, take) == window(
            concat(row_pieces(page, ranges, layout.bytes_per_value)),
            skip,
            take,
        ),
{
    let rows = row_pieces(page, ranges, layout.bytes_per_value);
    assert forall|i: int| 0 <= i < fetched.len() implies fetched[i] == rows[i] by {
        assert(spans(byte_ranges[i]) == layout.row_bytes(ranges[i]));
    }
    assert(fetched =~= rows);
}

/// Rows read back from a compressed page are the rows written, provided the
/// decompressor restores the value stream `stream`: the decompressed buffers
/// cut at the scheduled offsets decode, in any window, to the same window of
/// the requested rows' bytes in `stream`.
pub proof fn lemma_compressed_page_round_trip(
    layout: PageLayout,
    stream: Seq<u8>,
    ranges: Seq<RowRange>,
    offsets: Seq<ByteRange>,
    skip: int,
    take: int,
)
    requires
        layout.wf(),
        layout.is_compressed(),
        layout.admits(ranges),
        offsets.len() == ranges.len(),
        forall|i: int|
            0 <= i < ranges.len() ==> spans(#[trigger] offsets[i]) == layout.stream_bytes(
                ranges[i],
            ),
    ensures
        window(concat(pieces(stream, offsets)), skip, take) == window(
            concat(row_pieces(stream, ranges, layout.bytes_per_value)),
            skip,
            take,
        ),
{
    let rows = row_pieces(stream, ranges, layout.bytes_per_value);
    let cut = pieces(stream, offsets);
    assert forall|i: int| 0 <= i < cut.len() implies cut[i] == rows[i] by {
        assert(spans(offsets[i]) == layout.stream_bytes(ranges[i]));
    }
    assert(cut =~= rows);
}

/// Within one requested range, rows count from the range's start: skipping
/// `s` rows and taking `n` gives the stream's rows `[start + s, start + s + n)`.
pub proof fn lemma_single_range_window(stream: Seq<u8>, r: RowRange, b: nat, s: nat, n: nat)
    requires
        r.start <= r.end,
        r.end * b <= stream.len(),
        s + n <= r.end - r.start,
    ensures
        window(concat(row_pieces(stream, seq![r], b)), (s * b) as int, (n * b) as int) == stream.subrange(
            (r.start + s) * b,
            (r.start + s + n) * b,
        ),
{
    let lo = r.start as int;
    let hi = r.end as int;
    let piece = stream.subrange(lo * b, hi * b);
    let rows = row_pieces(stream, seq![r], b);
    assert(rows =~= seq![piece]);
    assert(rows.drop_last() =~= Seq::<Seq<u8>>::empty());
    assert(concat(rows.drop_last()) == Seq::<u8>::empty());
    assert(concat(rows) == concat(rows.drop_last()) + rows.last());
    assert(concat(rows) =~= piece);
    assert((lo + s) * b == lo * b + s * b) by (nonlinear_arith);
    assert((lo + s + n) * b == lo * b + s * b + n * b) by (nonlinear_arith);
    assert(lo * b <= hi * b) by (nonlinear_arith)
        requires
            lo <= hi,
            b >= 0,
    ;
    assert(s * b + n * b <= hi * b - lo * b) by (nonlinear_arith)
        requires
            s + n <= hi - lo,
            b >= 0,
    ;
    assert(window(piece, (s * b) as int, (n * b) as int) =~= stream.subrange(lo * b + s * b, lo * b + s * b + n * b));
}

} // verus!
