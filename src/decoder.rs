use vstd::prelude::*;

use crate::error::EncodingError;
use crate::scheduler::ByteRange;

verus! {

/// The fetched or decompressed buffers in order, joined end to end.
pub open spec fn concat(chunks: Seq<Seq<u8>>) -> Seq<u8>
    decreases chunks.len(),
{
    if chunks.len() == 0 {
        Seq::empty()
    } else {
        concat(chunks.drop_last()) + chunks.last()
    }
}

/// The bytes `[skip, skip + take)` of `bytes`, cut short where `bytes` ends.
pub open spec fn window(bytes: Seq<u8>, skip: int, take: int) -> Seq<u8> {
    let lo = if skip < bytes.len() {
        skip
    } else {
        bytes.len() as int
    };
    let hi = if skip + take < bytes.len() {
        skip + take
    } else {
        bytes.len() as int
    };
    bytes.subrange(lo, hi)
}

pub open spec fn views(chunks: Seq<Vec<u8>>) -> Seq<Seq<u8>> {
    chunks.map_values(|c: Vec<u8>| c@)
}

/// Every range lies inside a stream of `len` bytes.
pub open spec fn ranges_within(ranges: Seq<ByteRange>, len: nat) -> bool {
    forall|i: int|
        0 <= i < ranges.len() ==> (#[trigger] ranges[i]).start <= ranges[i].end && ranges[i].end
            <= len
}

/// The pieces of `bytes` that `ranges` select, in order.
pub open spec fn pieces(bytes: Seq<u8>, ranges: Seq<ByteRange>) -> Seq<Seq<u8>> {
    ranges.map_values(|r: ByteRange| bytes.subrange(r.start as int, r.end as int))
}

proof fn lemma_concat_push(chunks: Seq<Seq<u8>>, i: int)
    requires
        0 <= i < chunks.len(),
    ensures
        concat(chunks.take(i + 1)) == concat(chunks.take(i)) + chunks[i],
{
    assert(chunks.take(i + 1).drop_last() =~= chunks.take(i));
}

/// Taking one more chunk into account extends the window by the part of that
/// chunk it covers.
proof fn lemma_window_extend(f: Seq<u8>, c: Seq<u8>, skip: int, take: int)
    requires
        skip >= 0,
        take >= 0,
    ensures
        ({
            let s = if skip >= f.len() {
                skip - f.len()
            } else {
                0
            };
            let t = take - window(f, skip, take).len();
            window(f + c, skip, take) == window(f, skip, take) + (if s >= c.len() {
                Seq::empty()
            } else {
                let here = if c.len() - s < t {
                    c.len() - s
                } else {
                    t
                };
                c.subrange(s, s + here)
            })
        }),
{
    let g = f + c;
    let s = if skip >= f.len() {
        skip - f.len()
    } else {
        0
    };
    let t = take - window(f, skip, take).len();
    if skip >= f.len() {
        if s >= c.len() {
            assert(window(g, skip, take) =~= window(f, skip, take) + Seq::empty());
        } else {
            let here = if c.len() - s < t {
                c.len() - s
            } else {
                t
            };
            assert(window(g, skip, take) =~= window(f, skip, take) + c.subrange(s, s + here));
        }
    } else {
        let here = if c.len() - s < t {
            c.len() - s
        } else {
            t
        };
        assert(window(g, skip, take) =~= window(f, skip, take) + c.subrange(s, s + here));
    }
}

/// Copies `[from, to)` of `bytes` into a buffer of its own.
fn copy_range(bytes: &Vec<u8>, from: usize, to: usize) -> (r: Vec<u8>)
    requires
        from <= to <= bytes@.len(),
    ensures
        r@ == bytes@.subrange(from as int, to as int),
{
    let mut out: Vec<u8> = Vec::with_capacity(to - from);
    let mut i: usize = from;
    while i < to
        invariant
            from <= i <= to <= bytes@.len(),
            out@ == bytes@.subrange(from as int, i as int),
        decreases to - i,
    {
        out.push(bytes[i]);
        assert(out@ =~= bytes@.subrange(from as int, i + 1));
        i = i + 1;
    }
    out
}

/// Cuts a decompressed value stream into one buffer per requested range.
/// Fails when a range reaches past the end of the stream, as it does for a
/// truncated or corrupt block.
pub fn slice_ranges(bytes: &Vec<u8>, ranges: &Vec<ByteRange>) -> (r: Result<
    Vec<Vec<u8>>,
    EncodingError,
>)
    ensures
        r is Ok <==> ranges_within(ranges@, bytes@.len()),
        r matches Ok(v) ==> views(v@) == pieces(bytes@, ranges@),
        r matches Err(e) ==> e is Decompression,
{
    let mut out: Vec<Vec<u8>> = Vec::with_capacity(ranges.len());
    let mut i: usize = 0;
    while i < ranges.len()
        invariant
            i <= ranges@.len(),
            out@.len() == i,
            ranges_within(ranges@.take(i as int), bytes@.len()),
            views(out@) =~= pieces(bytes@, ranges@.take(i as int)),
        decreases ranges@.len() - i,
    {
        let range = ranges[i];
        if range.start > range.end || range.end > bytes.len() as u64 {
            proof {
                assert(ranges@[i as int] == range);
            }
            return Err(
                EncodingError::Decompression(
                    String::from_str("decompressed page is shorter than the requested rows"),
                ),
            );
        }
        let piece = copy_range(bytes, range.start as usize, range.end as usize);
        let ghost before = out@;
        out.push(piece);
        proof {
            let taken = ranges@.take(i + 1);
            assert(taken =~= ranges@.take(i as int).push(range));
            assert(ranges_within(taken, bytes@.len())) by {
                assert forall|j: int| 0 <= j < taken.len() implies (#[trigger] taken[j]).start
                    <= taken[j].end && taken[j].end <= bytes@.len() by {
                    if j < i {
                        assert(taken[j] == ranges@.take(i as int)[j]);
                    }
                }
            }
            assert forall|j: int| 0 <= j < i + 1 implies views(out@)[j] == pieces(
                bytes@,
                taken,
            )[j] by {
                if j < i {
                    assert(out@[j] == before[j]);
                    assert(views(before)[j] == pieces(bytes@, ranges@.take(i as int))[j]);
                    assert(taken[j] == ranges@.take(i as int)[j]);
                }
            }
            assert(views(out@) =~= pieces(bytes@, taken));
        }
        i = i + 1;
    }
    proof {
        assert(ranges@.take(i as int) =~= ranges@);
    }
    Ok(out)
}

/// The generic block decompressor a compressed page is read through.
pub trait BufferDecompressor {
    /// What decompressing `input` gives: the stream it holds, or the error
    /// reported for it. Each implementation says what it is; where one says
    /// nothing, nothing is known of it.
    open spec fn outcome(&self, input: Seq<u8>) -> Result<Seq<u8>, EncodingError> {
        arbitrary()
    }

    /// Appends the decompressed contents of `input` to `output`.
    fn decompress(&self, input: &[u8], output: &mut Vec<u8>) -> (r: Result<(), EncodingError>)
        ensures
            match self.outcome(input@) {
                Ok(out) => r is Ok && final(output)@ == old(output)@ + out,
                Err(e) => r == Err::<(), EncodingError>(e),
            },
    ;
}

/// A decompressed stream cut at `offsets`, where it reaches every offset.
pub open spec fn cut_stream(stream: Option<Seq<u8>>, offsets: Seq<ByteRange>) -> Option<
    Seq<Seq<u8>>,
> {
    match stream {
        Some(out) => if ranges_within(offsets, out.len()) {
            Some(pieces(out, offsets))
        } else {
            None
        },
        None => None,
    }
}

/// The bytes of a value page once fetched, ready to be copied row by row into
/// destination buffers. A compressed page is decompressed on first use, and
/// the result kept for every later request.
pub struct ValuePageDecoder {
    bytes_per_value: u64,
    data: Vec<Vec<u8>>,
    uncompressed_data: Option<Vec<Vec<u8>>>,
    uncompressed_range_offsets: Vec<ByteRange>,
}

impl ValuePageDecoder {
    pub closed spec fn bytes_per_value_spec(&self) -> nat {
        self.bytes_per_value as nat
    }

    /// The fetched buffers, in request order.
    pub closed spec fn fetched(&self) -> Seq<Seq<u8>> {
        views(self.data@)
    }

    /// The bytes of each requested row range within the decompressed stream;
    /// empty for an uncompressed page.
    pub closed spec fn offsets(&self) -> Seq<ByteRange> {
        self.uncompressed_range_offsets@
    }

    /// The decompressed buffers, once some request has produced them.
    pub closed spec fn cache(&self) -> Option<Seq<Seq<u8>>> {
        match self.uncompressed_data {
            Some(v) => Some(views(v@)),
            None => None,
        }
    }

    pub open spec fn is_compressed_spec(&self) -> bool {
        self.offsets().len() > 0
    }

    /// A compressed page was fetched as one block, and what is cached is that
    /// block's decompressed stream cut at the requested ranges.
    pub open spec fn wf(&self) -> bool {
        &&& self.bytes_per_value_spec() > 0
        &&& self.is_compressed_spec() ==> self.fetched().len() == 1
        &&& self.cache() matches Some(c) ==> exists|out: Seq<u8>|
            ranges_within(self.offsets(), out.len()) && #[trigger] pieces(out, self.offsets())
                == c
    }

    /// Binds fetched bytes to the page they were scheduled for.
    pub fn new(bytes_per_value: u64, data: Vec<Vec<u8>>, range_offsets: Vec<ByteRange>) -> (r:
        Self)
        requires
            bytes_per_value > 0,
            range_offsets@.len() > 0 ==> data@.len() == 1,
        ensures
            r.wf(),
            r.bytes_per_value_spec() == bytes_per_value,
            r.fetched() == views(data@),
            r.offsets() == range_offsets@,
            r.cache() is None,
    {
        ValuePageDecoder {
            bytes_per_value,
            data,
            uncompressed_data: None,
            uncompressed_range_offsets: range_offsets,
        }
    }

    pub fn bytes_per_value(&self) -> (r: u64)
        ensures
            r == self.bytes_per_value_spec(),
    {
        self.bytes_per_value
    }

    /// Whether `decode_into` takes this window: its byte positions fit in
    /// 64 bits.
    pub fn admits_rows(&self, rows_to_skip: u32, num_rows: u32) -> (r: bool)
        ensures
            r == (rows_to_skip * self.bytes_per_value_spec() <= u64::MAX && num_rows
                * self.bytes_per_value_spec() <= u64::MAX),
    {
        (rows_to_skip as u64).checked_mul(self.bytes_per_value).is_some() && (
        num_rows as u64).checked_mul(self.bytes_per_value).is_some()
    }

    pub fn is_compressed(&self) -> (r: bool)
        ensures
            r == self.is_compressed_spec(),
    {
        self.uncompressed_range_offsets.len() > 0
    }

    /// This encoding fills exactly one output buffer.
    pub fn num_buffers(&self) -> (r: u32)
        ensures
            r == 1,
    {
        1
    }

    /// The room the destination needs for `num_rows` rows, and that it must be
    /// allocated: this encoding never reports a page as all null.
    pub fn update_capacity(&self, rows_to_skip: u32, num_rows: u32) -> (r: (u64, bool))
        requires
            num_rows * self.bytes_per_value_spec() <= u64::MAX,
        ensures
            r.0 == num_rows * self.bytes_per_value_spec(),
            r.1,
    {
        (num_rows as u64 * self.bytes_per_value, true)
    }

    /// The buffers that rows are read from, given the outcome of
    /// decompressing the fetched block (none where nobody decompressed it):
    /// the fetched buffers, the cached ones, or the decompressed stream cut
    /// at the requested ranges.
    pub open spec fn source_given(
        &self,
        decompressed: Option<Result<Vec<u8>, EncodingError>>,
    ) -> Option<Seq<Seq<u8>>> {
        if !self.is_compressed_spec() {
            Some(self.fetched())
        } else if self.cache() is Some {
            self.cache()
        } else {
            match decompressed {
                Some(Ok(out)) => cut_stream(Some(out@), self.offsets()),
                _ => None,
            }
        }
    }

    /// Whether a request must decompress the page first.
    pub fn needs_decompression(&self) -> (r: bool)
        ensures
            r == (self.is_compressed_spec() && self.cache() is None),
    {
        self.uncompressed_range_offsets.len() > 0 && self.uncompressed_data.is_none()
    }

    /// The block a compressed page was fetched as.
    pub fn compressed_block(&self) -> (r: &Vec<u8>)
        requires
            self.wf(),
            self.is_compressed_spec(),
        ensures
            r@ == self.fetched()[0],
    {
        &self.data[0]
    }

    /// The buffers a compressed page is read from once `outcome` is what
    /// decompressing its fetched block gave.
    pub open spec fn source_from(&self, outcome: Result<Seq<u8>, EncodingError>) -> Option<
        Seq<Seq<u8>>,
    > {
        match outcome {
            Ok(out) => cut_stream(Some(out), self.offsets()),
            Err(_) => None,
        }
    }

    /// Runs the decompressor over the fetched block.
    fn decompress<D: BufferDecompressor>(&self, decompressor: &D) -> (r: Result<
        Vec<u8>,
        EncodingError,
    >)
        requires
            self.wf(),
            self.is_compressed_spec(),
        ensures
            match decompressor.outcome(self.fetched()[0]) {
                Ok(out) => r matches Ok(v) && v@ == out,
                Err(e) => r == Err::<Vec<u8>, EncodingError>(e),
            },
    {
        let mut uncompressed_bytes: Vec<u8> = Vec::new();
        let block = self.data[0].as_slice();
        proof {
            assert(block@ == self.fetched()[0]);
        }
        match decompressor.decompress(block, &mut uncompressed_bytes) {
            Ok(()) => Ok(uncompressed_bytes),
            Err(e) => Err(e),
        }
    }

    /// Caches the decompressed buffers, given what decompressing the fetched
    /// block gave. Once they are cached, later calls change nothing. A failed
    /// decompression is passed on unchanged and leaves the cache empty, so a
    /// later call can try again; so does a stream too short for the requested
    /// rows, as a decompression error.
    pub fn get_uncompressed_bytes(&mut self, decompressed: Result<Vec<u8>, EncodingError>) -> (r:
        Result<(), EncodingError>)
        requires
            old(self).wf(),
            old(self).is_compressed_spec(),
        ensures
            final(self).wf(),
            final(self).bytes_per_value_spec() == old(self).bytes_per_value_spec(),
            final(self).fetched() == old(self).fetched(),
            final(self).offsets() == old(self).offsets(),
            final(self).cache() == old(self).source_given(Some(decompressed)),
            r is Ok <==> old(self).source_given(Some(decompressed)) is Some,
            old(self).cache() is None ==> match decompressed {
                Ok(out) => r matches Err(e) ==> e is Decompression,
                Err(e) => r == Err::<(), EncodingError>(e),
            },
    {
        if self.uncompressed_data.is_some() {
            return Ok(());
        }
        let out = match decompressed {
            Ok(out) => out,
            Err(e) => {
                return Err(e);
            },
        };
        match slice_ranges(&out, &self.uncompressed_range_offsets) {
            Ok(v) => {
                let ghost vs = views(v@);
                self.uncompressed_data = Some(v);
                proof {
                    assert(self.cache() == Some(vs));
                    assert(ranges_within(self.offsets(), out@.len()) && pieces(
                        out@,
                        self.offsets(),
                    ) == vs);
                }
                Ok(())
            },
            Err(e) => Err(e),
        }
    }

    /// One step of the scatter/gather copy: skips `buf` whole while there is
    /// more to skip than it holds, or else appends what is wanted of it.
    pub fn decode_buffer(
        &self,
        buf: &Vec<u8>,
        bytes_to_skip: &mut u64,
        bytes_to_take: &mut u64,
        dest: &mut Vec<u8>,
    )
        ensures
            *old(bytes_to_skip) >= buf@.len() ==> {
                &&& *final(bytes_to_skip) == *old(bytes_to_skip) - buf@.len()
                &&& *final(bytes_to_take) == *old(bytes_to_take)
                &&& final(dest)@ == old(dest)@
            },
            *old(bytes_to_skip) < buf@.len() ==> {
                let here = if buf@.len() - *old(bytes_to_skip) < *old(bytes_to_take) {
                    buf@.len() - *old(bytes_to_skip)
                } else {
                    *old(bytes_to_take) as int
                };
                &&& *final(bytes_to_skip) == 0
                &&& *final(bytes_to_take) == *old(bytes_to_take) - here
                &&& final(dest)@ == old(dest)@ + buf@.subrange(
                    *old(bytes_to_skip) as int,
                    *old(bytes_to_skip) + here,
                )
            },
    {
        let buf_len = buf.len() as u64;
        if *bytes_to_skip >= buf_len {
            *bytes_to_skip = *bytes_to_skip - buf_len;
        } else {
            let available = buf_len - *bytes_to_skip;
            let take_here = if available < *bytes_to_take {
                available
            } else {
                *bytes_to_take
            };
            *bytes_to_take = *bytes_to_take - take_here;
            let start = *bytes_to_skip as usize;
            let end = start + take_here as usize;
            let mut i: usize = start;
            let ghost before = dest@;
            while i < end
                invariant
                    start <= i <= end <= buf@.len(),
                    dest@ == before + buf@.subrange(start as int, i as int),
                decreases end - i,
            {
                dest.push(buf[i]);
                assert(dest@ =~= before + buf@.subrange(start as int, i + 1));
                i = i + 1;
            }
            *bytes_to_skip = 0;
        }
    }

    /// Runs the scatter/gather copy over `chunks` in order.
    fn gather(
        &self,
        chunks: &Vec<Vec<u8>>,
        bytes_to_skip: u64,
        bytes_to_take: u64,
        dest: &mut Vec<u8>,
    )
        ensures
            final(dest)@ == old(dest)@ + window(
                concat(views(chunks@)),
                bytes_to_skip as int,
                bytes_to_take as int,
            ),
    {
        let ghost cs = views(chunks@);
        let ghost skip0 = bytes_to_skip as int;
        let ghost take0 = bytes_to_take as int;
        let ghost start = dest@;
        let mut skip = bytes_to_skip;
        let mut take = bytes_to_take;
        let mut i: usize = 0;
        proof {
            assert(cs.take(0) =~= Seq::<Seq<u8>>::empty());
            assert(window(concat(cs.take(0)), skip0, take0) =~= Seq::<u8>::empty());
        }
        while i < chunks.len()
            invariant
                cs == views(chunks@),
                i <= chunks@.len(),
                skip0 == bytes_to_skip,
                take0 == bytes_to_take,
                ({
                    let f = concat(cs.take(i as int));
                    &&& skip == (if skip0 >= f.len() {
                        skip0 - f.len()
                    } else {
                        0
                    })
                    &&& take == take0 - window(f, skip0, take0).len()
                    &&& dest@ == start + window(f, skip0, take0)
                }),
            decreases chunks@.len() - i,
        {
            proof {
                lemma_concat_push(cs, i as int);
                lemma_window_extend(concat(cs.take(i as int)), cs[i as int], skip0, take0);
            }
            self.decode_buffer(&chunks[i], &mut skip, &mut take, dest);
            proof {
                let f = concat(cs.take(i as int));
                let g = concat(cs.take(i + 1));
                assert(g == f + cs[i as int]);
                assert(dest@ =~= start + window(g, skip0, take0));
            }
            i = i + 1;
        }
        proof {
            assert(cs.take(i as int) =~= cs);
        }
    }

    /// Copies the rows `[rows_to_skip, rows_to_skip + num_rows)` of the
    /// requested rows onto the end of `dest`, given the outcome of
    /// decompressing the fetched block where that was done. A compressed page
    /// that is neither cached nor decompressed is an error.
    pub fn decode_with(
        &mut self,
        decompressed: Option<Result<Vec<u8>, EncodingError>>,
        rows_to_skip: u32,
        num_rows: u32,
        dest: &mut Vec<u8>,
    ) -> (r: Result<(), EncodingError>)
        requires
            old(self).wf(),
            rows_to_skip * old(self).bytes_per_value_spec() <= u64::MAX,
            num_rows * old(self).bytes_per_value_spec() <= u64::MAX,
        ensures
            final(self).wf(),
            final(self).bytes_per_value_spec() == old(self).bytes_per_value_spec(),
            final(self).fetched() == old(self).fetched(),
            final(self).offsets() == old(self).offsets(),
            final(self).cache() == if old(self).is_compressed_spec() {
                old(self).source_given(decompressed)
            } else {
                old(self).cache()
            },
            match old(self).source_given(decompressed) {
                Some(src) => r is Ok && final(dest)@ == old(dest)@ + window(
                    concat(src),
                    rows_to_skip * old(self).bytes_per_value_spec(),
                    num_rows * old(self).bytes_per_value_spec(),
                ),
                None => r is Err && final(dest)@ == old(dest)@,
            },
            old(self).is_compressed_spec() && old(self).cache() is None ==> match decompressed {
                Some(Err(e)) => r == Err::<(), EncodingError>(e),
                Some(Ok(out)) => r matches Err(e) ==> e is Decompression,
                None => r matches Err(e) && e is Decompression,
            },
    {
        let bytes_to_skip = rows_to_skip as u64 * self.bytes_per_value;
        let bytes_to_take = num_rows as u64 * self.bytes_per_value;
        if self.is_compressed() {
            if self.uncompressed_data.is_none() {
                let result = match decompressed {
                    Some(result) => result,
                    None => {
                        return Err(
                            EncodingError::Decompression(
                                String::from_str("compressed page has not been decompressed"),
                            ),
                        );
                    },
                };
                match self.get_uncompressed_bytes(result) {
                    Ok(()) => {},
                    Err(e) => {
                        return Err(e);
                    },
                }
            }
            match &self.uncompressed_data {
                Some(chunks) => self.gather(chunks, bytes_to_skip, bytes_to_take, dest),
                None => {},
            }
        } else {
            self.gather(&self.data, bytes_to_skip, bytes_to_take, dest);
        }
        Ok(())
    }

    /// Copies the rows `[rows_to_skip, rows_to_skip + num_rows)` of the
    /// requested rows onto the end of `dest`, decompressing the page first if
    /// it is compressed and not yet cached. The decompressor is handed the
    /// fetched block, and its error is passed on unchanged.
    pub fn decode_into<D: BufferDecompressor>(
        &mut self,
        decompressor: &D,
        rows_to_skip: u32,
        num_rows: u32,
        dest: &mut Vec<u8>,
    ) -> (r: Result<(), EncodingError>)
        requires
            old(self).wf(),
            rows_to_skip * old(self).bytes_per_value_spec() <= u64::MAX,
            num_rows * old(self).bytes_per_value_spec() <= u64::MAX,
        ensures
            final(self).wf(),
            final(self).bytes_per_value_spec() == old(self).bytes_per_value_spec(),
            final(self).fetched() == old(self).fetched(),
            final(self).offsets() == old(self).offsets(),
            !old(self).is_compressed_spec() || old(self).cache() is Some ==> {
                &&& r is Ok
                &&& final(self).cache() == old(self).cache()
                &&& old(self).source_given(None) matches Some(src) && final(dest)@ == old(dest)@
                    + window(
                    concat(src),
                    rows_to_skip * old(self).bytes_per_value_spec(),
                    num_rows * old(self).bytes_per_value_spec(),
                )
            },
            old(self).is_compressed_spec() && old(self).cache() is None ==> {
                let outcome = decompressor.outcome(old(self).fetched()[0]);
                &&& final(self).cache() == old(self).source_from(outcome)
                &&& match old(self).source_from(outcome) {
                    Some(src) => r is Ok && final(dest)@ == old(dest)@ + window(
                        concat(src),
                        rows_to_skip * old(self).bytes_per_value_spec(),
                        num_rows * old(self).bytes_per_value_spec(),
                    ),
                    None => r is Err && final(dest)@ == old(dest)@,
                }
                &&& match outcome {
                    Ok(_) => r matches Err(e) ==> e is Decompression,
                    Err(e) => r == Err::<(), EncodingError>(e),
                }
            },
    {
        let decompressed = if self.needs_decompression() {
            Some(self.decompress(decompressor))
        } else {
            None
        };
        self.decode_with(decompressed, rows_to_skip, num_rows, dest)
    }
}

/// Decoding a window of rows gives the same bytes whether the fetched bytes
/// arrive split into any number of chunks or joined into one buffer.
pub proof fn lemma_split_chunks_decode_alike(chunks: Seq<Seq<u8>>, skip: int, take: int)
    ensures
        window(concat(chunks), skip, take) == window(concat(seq![concat(chunks)]), skip, take),
{
    let one = seq![concat(chunks)];
    assert(one.drop_last() =~= Seq::<Seq<u8>>::empty());
    assert(concat(one.drop_last()) == Seq::<u8>::empty());
    assert(concat(one) == concat(one.drop_last()) + one.last());
    assert(concat(one) =~= concat(chunks));
}

} // verus!
