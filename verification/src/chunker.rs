//! Core chunking implementation.
//!
//! The mathematical model comes first: `scan_cutpoint` defines, by recursion
//! over the scan cursor, the offset at which the slope detector cuts;
//! `cutpoint_of` adds the short-input and horizon-capping rules around it; and
//! `spans_from` folds `cutpoint_of` over a whole buffer, yielding the sequence
//! of `(start, len)` spans that chunking emits. The executable code is
//! specified exactly against these functions.

use crate::config::{ChunkingConfig, SeqOpMode};
use crate::error::ChunkingError;
use vstd::prelude::*;
use vstd::slice::slice_subrange;

verus! {

/// Whether the step from byte `prev` to byte `curr` reinforces a monotonic
/// run under the given mode. An equal pair neither reinforces nor opposes.
pub open spec fn is_reinforcing(mode: SeqOpMode, prev: u8, curr: u8) -> bool {
    match mode {
        SeqOpMode::Increasing => curr > prev,
        SeqOpMode::Decreasing => curr < prev,
    }
}

/// The offset at which the slope scan cuts, starting from cursor `pos` with
/// run counter `run` and opposing counter `opp`, never looking at or beyond
/// `limit`. Equal bytes are absorbed; a run of `seq_threshold` reinforcing
/// comparisons cuts at the current cursor; `jump_trigger` opposing
/// comparisons skip the cursor ahead by `jump_size` (capping at `limit` if
/// the jump overshoots the horizon or the data); otherwise the cursor
/// advances one byte. If the scan reaches `limit` or the end of `data`, the
/// chunk is capped at `limit`.
pub open spec fn scan_cutpoint(
    cfg: ChunkingConfig,
    data: Seq<u8>,
    limit: int,
    pos: int,
    run: int,
    opp: int,
) -> int
    decreases limit - pos
        when 1 <= pos && cfg.jump_size >= 1
{
    if pos < limit && pos < data.len() {
        let prev = data[pos - 1];
        let curr = data[pos];
        if curr == prev {
            scan_cutpoint(cfg, data, limit, pos + 1, run, opp)
        } else {
            let run2: int = if is_reinforcing(cfg.op_mode, prev, curr) {
                run + 1
            } else {
                0
            };
            let opp2: int = if is_reinforcing(cfg.op_mode, prev, curr) {
                opp
            } else {
                opp + 1
            };
            if run2 >= cfg.seq_threshold {
                pos
            } else if opp2 >= cfg.jump_trigger {
                let jumped = pos + cfg.jump_size;
                if jumped >= limit || jumped >= data.len() {
                    limit
                } else {
                    scan_cutpoint(cfg, data, limit, jumped, 0, 0)
                }
            } else {
                scan_cutpoint(cfg, data, limit, pos + 1, run2, opp2)
            }
        }
    } else {
        limit
    }
}

/// The cutpoint for a window of `size` eligible bytes backed by `data`:
/// windows shorter than `min_block_size` become one final chunk of `size`;
/// otherwise the scan starts at `min_block_size` with the horizon capped at
/// `max_block_size`.
pub open spec fn cutpoint_of(cfg: ChunkingConfig, data: Seq<u8>, size: int) -> int {
    if size < cfg.min_block_size {
        size
    } else {
        let limit: int = if size < cfg.max_block_size {
            size
        } else {
            cfg.max_block_size as int
        };
        if cfg.min_block_size == 0 {
            limit
        } else {
            scan_cutpoint(cfg, data, limit, cfg.min_block_size as int, 0, 0)
        }
    }
}

/// A chunk boundary at the specification level: `len` bytes starting at
/// offset `start` of the source buffer.
pub ghost struct ChunkSpan {
    /// Starting offset in the source buffer
    pub start: int,
    /// Number of bytes in the chunk
    pub len: int,
}

/// The spans that chunking emits for the part of `data` from `position` on:
/// each step takes the cutpoint of the remaining suffix, clamped to the bytes
/// actually available, and recurses past the emitted span. A clamped length
/// of zero (impossible once the configuration is valid) ends the sequence.
pub open spec fn spans_from(cfg: ChunkingConfig, data: Seq<u8>, position: int) -> Seq<ChunkSpan>
    decreases data.len() - position
        when 0 <= position
{
    if position >= data.len() {
        Seq::empty()
    } else {
        let remaining = data.len() - position;
        let cut = cutpoint_of(cfg, data.subrange(position, data.len() as int), remaining);
        let chunk_size: int = if cut < remaining {
            cut
        } else {
            remaining
        };
        if chunk_size <= 0 {
            Seq::empty()
        } else {
            seq![ChunkSpan { start: position, len: chunk_size }] + spans_from(
                cfg,
                data,
                position + chunk_size,
            )
        }
    }
}

/// All spans that chunking emits for `data`.
pub open spec fn chunk_spans(cfg: ChunkingConfig, data: Seq<u8>) -> Seq<ChunkSpan> {
    spans_from(cfg, data, 0)
}

/// Represents a single chunk of data
#[derive(Debug, Clone, PartialEq, Eq)]
pub struct Chunk<'a> {
    /// The chunk data
    pub data: &'a [u8],
    /// Starting position in the original data
    pub start: usize,
    /// Length of the chunk
    pub len: usize,
}

impl<'a> Chunk<'a> {
    /// Whether this chunk is the span `s` of the buffer `source`: same
    /// offsets, and its data is the corresponding sub-range of `source`.
    pub open spec fn matches_span(&self, s: ChunkSpan, source: Seq<u8>) -> bool {
        &&& self.start == s.start
        &&& self.len == s.len
        &&& self.data@ == source.subrange(s.start, s.start + s.len)
    }

    /// Create a new chunk
    pub fn new(data: &'a [u8], start: usize, len: usize) -> (r: Self)
        ensures
            r.data@ == data@ && r.start == start && r.len == len,
    {
        Chunk { data, start, len }
    }

    /// Get the end position of this chunk
    pub fn end(&self) -> (r: usize)
        requires
            self.start + self.len <= usize::MAX,
        ensures
            r == self.start + self.len,
    {
        self.start + self.len
    }

    /// Check if this chunk is empty
    pub fn is_empty(&self) -> (r: bool)
        ensures
            r == (self.len == 0),
    {
        self.len == 0
    }
}

/// Whether the chunks `cs` are exactly the spans `spans` of the buffer
/// `source`, in order.
pub open spec fn chunks_match_spans<'a>(
    cs: Seq<Chunk<'a>>,
    spans: Seq<ChunkSpan>,
    source: Seq<u8>,
) -> bool {
    &&& cs.len() == spans.len()
    &&& forall|i: int| 0 <= i < cs.len() ==> cs[i].matches_span(#[trigger] spans[i], source)
}

/// The concatenation of the chunks' views, in order.
pub open spec fn concat_chunk_data<'a>(cs: Seq<Chunk<'a>>) -> Seq<u8>
    decreases cs.len(),
{
    if cs.len() == 0 {
        Seq::empty()
    } else {
        cs[0].data@ + concat_chunk_data(cs.drop_first())
    }
}

/// The `(start, len)` spans of a sequence of chunks.
pub open spec fn spans_of_chunks<'a>(cs: Seq<Chunk<'a>>) -> Seq<ChunkSpan> {
    Seq::new(cs.len(), |i: int| ChunkSpan { start: cs[i].start as int, len: cs[i].len as int })
}

/// Iterator over chunks produced by the chunking algorithm
pub struct ChunkIterator<'a> {
    data: &'a [u8],
    chunker: &'a SeqChunking,
    position: usize,
}

impl<'a> ChunkIterator<'a> {
    /// The source buffer being chunked.
    pub closed spec fn spec_data(&self) -> Seq<u8> {
        self.data@
    }

    /// The configuration driving the cutpoint finder.
    pub closed spec fn spec_config(&self) -> ChunkingConfig {
        self.chunker.spec_config()
    }

    /// The cursor: offset of the first byte not yet emitted.
    pub closed spec fn spec_position(&self) -> int {
        self.position as int
    }

    /// The cursor never passes the end of the buffer.
    pub open spec fn wf(&self) -> bool {
        self.spec_position() <= self.spec_data().len()
    }

    /// The spans still to be emitted.
    pub open spec fn remaining_spans(&self) -> Seq<ChunkSpan> {
        spans_from(self.spec_config(), self.spec_data(), self.spec_position())
    }

    fn new(data: &'a [u8], chunker: &'a SeqChunking) -> (r: Self)
        ensures
            r.spec_data() == data@,
            r.spec_config() == chunker.spec_config(),
            r.spec_position() == 0,
    {
        ChunkIterator { data, chunker, position: 0 }
    }

    /// Emit the next chunk and advance past it; `None` once the buffer is
    /// exhausted (or, as a safety net, on a clamped cutpoint of zero, which a
    /// valid configuration never produces).
    pub fn next(&mut self) -> (r: Option<Chunk<'a>>)
        requires
            old(self).wf(),
            old(self).spec_config().jump_size >= 1,
        ensures
            final(self).wf(),
            final(self).spec_data() == old(self).spec_data(),
            final(self).spec_config() == old(self).spec_config(),
            match r {
                None => {
                    &&& final(self).spec_position() == old(self).spec_position()
                    &&& old(self).remaining_spans() == Seq::<ChunkSpan>::empty()
                },
                Some(c) => {
                    &&& old(self).remaining_spans().len() > 0
                    &&& c.matches_span(old(self).remaining_spans()[0], old(self).spec_data())
                    &&& c.start == old(self).spec_position()
                    &&& 1 <= c.len
                    &&& final(self).spec_position() == old(self).spec_position() + c.len
                    &&& final(self).remaining_spans() == old(self).remaining_spans().drop_first()
                },
            },
    {
        if self.position >= self.data.len() {
            return None;
        }
        let remaining = slice_subrange(self.data, self.position, self.data.len());
        let cutpoint = self.chunker.find_cutpoint(remaining, remaining.len() as u64);
        let chunk_size: usize = if cutpoint < remaining.len() as u64 {
            cutpoint as usize
        } else {
            remaining.len()
        };

        if chunk_size == 0 {
            proof {
                assert(self.remaining_spans() =~= Seq::<ChunkSpan>::empty());
            }
            return None;
        }

        let chunk_data = slice_subrange(remaining, 0, chunk_size);
        let chunk = Chunk::new(chunk_data, self.position, chunk_size);
        let ghost old_pos = self.position as int;
        let ghost span = ChunkSpan { start: old_pos, len: chunk_size as int };

        self.position = self.position + chunk_size;

        proof {
            let cfg = self.spec_config();
            let d = self.spec_data();
            assert(spans_from(cfg, d, old_pos) == seq![span] + spans_from(
                cfg,
                d,
                old_pos + chunk_size,
            ));
            assert(spans_from(cfg, d, old_pos)[0] == span);
            assert(spans_from(cfg, d, old_pos).drop_first() =~= spans_from(
                cfg,
                d,
                old_pos + chunk_size,
            ));
            assert(chunk_data@ =~= d.subrange(old_pos, old_pos + chunk_size));
        }
        Some(chunk)
    }
}

/// Main chunking algorithm implementation
#[derive(Debug, Clone)]
pub struct SeqChunking {
    config: ChunkingConfig,
}

impl SeqChunking {
    /// The configuration this chunker was built with.
    pub closed spec fn spec_config(&self) -> ChunkingConfig {
        self.config
    }

    /// Create a new chunker with default configuration
    pub fn new() -> (r: Self)
        ensures
            r.spec_config() == ChunkingConfig::spec_default(),
    {
        Self::from_config(ChunkingConfig::new())
    }

    /// Create a new chunker with the given configuration
    pub fn from_config(config: ChunkingConfig) -> (r: Self)
        ensures
            r.spec_config() == config,
    {
        SeqChunking { config }
    }

    /// Create a chunker with validation of the configuration
    pub fn try_from_config(config: ChunkingConfig) -> (r: Result<Self, ChunkingError>)
        ensures
            r is Ok <==> config.spec_valid(),
            r matches Ok(c) ==> c.spec_config() == config,
            r matches Err(e) ==> e matches ChunkingError::InvalidConfig(m)
                && m@ == config.spec_validation_message(),
    {
        match config.validate() {
            Ok(()) => Ok(Self::from_config(config)),
            Err(e) => Err(e),
        }
    }

    /// Get the technique name
    pub fn technique_name(&self) -> (r: &'static str)
        ensures
            r@ == "Seq Chunking"@,
    {
        "Seq Chunking"
    }

    /// Get the minimum block size
    pub fn min_block_size(&self) -> (r: u64)
        ensures
            r == self.spec_config().min_block_size,
    {
        self.config.min_block_size
    }

    /// Get the maximum block size
    pub fn max_block_size(&self) -> (r: u64)
        ensures
            r == self.spec_config().max_block_size,
    {
        self.config.max_block_size
    }

    /// Get the current configuration
    pub fn config(&self) -> (r: &ChunkingConfig)
        ensures
            *r == self.spec_config(),
    {
        &self.config
    }

    /// Find the optimal cutpoint in the given buffer: the scan of
    /// `scan_cutpoint`, expressed once over both modes, with the short-input
    /// and horizon rules of `cutpoint_of` around it.
    #[verifier::loop_isolation(false)]
    pub fn find_cutpoint(&self, buff: &[u8], size: u64) -> (r: u64)
        requires
            self.spec_config().jump_size >= 1,
        ensures
            r == cutpoint_of(self.spec_config(), buff@, size as int),
            r <= size,
            self.spec_config().spec_valid() && size > 0 ==> 1 <= r,
    {
        let cfg = &self.config;
        if size < cfg.min_block_size {
            return size;
        }
        let limit: u64 = if size < cfg.max_block_size {
            size
        } else {
            cfg.max_block_size
        };
        if cfg.min_block_size == 0 {
            return limit;
        }
        if cfg.min_block_size >= limit || cfg.min_block_size >= buff.len() as u64 {
            // The scan cursor would start at or past the horizon or the end
            // of the data: the chunk is capped immediately.
            return limit;
        }

        let mut pos: usize = cfg.min_block_size as usize;
        let mut run: u64 = 0;
        let mut opp: u64 = 0;
        let ghost c = self.spec_config();
        let ghost target = scan_cutpoint(c, buff@, limit as int, c.min_block_size as int, 0, 0);

        while (pos as u64) < limit && pos < buff.len()
            invariant
                1 <= pos,
                pos as u64 <= limit,
                pos <= buff@.len(),
                run == 0 || run < c.seq_threshold,
                opp == 0 || opp < c.jump_trigger,
                scan_cutpoint(c, buff@, limit as int, pos as int, run as int, opp as int)
                    == target,
            decreases limit - pos,
        {
            let prev = buff[pos - 1];
            let curr = buff[pos];

            // Low Entropy Absorption - skip equal bytes
            if curr == prev {
                pos = pos + 1;
                continue ;
            }

            let reinforcing = match cfg.op_mode {
                SeqOpMode::Increasing => curr > prev,
                SeqOpMode::Decreasing => curr < prev,
            };
            proof {
                assert(reinforcing == is_reinforcing(c.op_mode, buff@[pos - 1], buff@[pos as int]));
            }

            if reinforcing {
                run = run + 1;
            } else {
                opp = opp + 1;
                run = 0;
            }

            if run >= cfg.seq_threshold {
                return pos as u64;
            }

            if opp >= cfg.jump_trigger {
                let dist = limit - pos as u64;
                let avail = (buff.len() - pos) as u64;
                if cfg.jump_size >= dist || cfg.jump_size >= avail {
                    // The jump overshoots the horizon or the data: the chunk
                    // is capped at the maximum size rather than scanned past
                    // the jump target.
                    return limit;
                }
                pos = pos + cfg.jump_size as usize;
                run = 0;
                opp = 0;
            } else {
                pos = pos + 1;
            }
        }

        limit
    }

    /// Create an iterator over all chunks in the given data
    pub fn chunk_all<'a>(&'a self, data: &'a [u8]) -> (r: ChunkIterator<'a>)
        ensures
            r.spec_data() == data@,
            r.spec_config() == self.spec_config(),
            r.spec_position() == 0,
    {
        ChunkIterator::new(data, self)
    }

    /// Chunk the data and collect all chunks into a Vec
    pub fn chunk_all_vec<'a>(&'a self, data: &'a [u8]) -> (r: Vec<Chunk<'a>>)
        requires
            self.spec_config().jump_size >= 1,
        ensures
            chunks_match_spans(r@, chunk_spans(self.spec_config(), data@), data@),
    {
        let ghost cfg = self.spec_config();
        let ghost spans = chunk_spans(cfg, data@);
        let mut it = self.chunk_all(data);
        let mut chunks: Vec<Chunk<'a>> = Vec::new();

        proof {
            assert(spans.skip(0) == spans);
        }

        loop
            invariant
                it.wf(),
                it.spec_data() == data@,
                it.spec_config() == cfg,
                cfg.jump_size >= 1,
                spans == chunk_spans(cfg, data@),
                chunks@.len() <= spans.len(),
                chunks_match_spans(chunks@, spans.take(chunks@.len() as int), data@),
                it.remaining_spans() == spans.skip(chunks@.len() as int),
            ensures
                chunks_match_spans(chunks@, spans, data@),
            decreases data@.len() - it.spec_position(),
        {
            let ghost n = chunks@.len() as int;
            match it.next() {
                None => {
                    proof {
                        assert(spans.skip(n).len() == 0);
                        assert(spans.take(n) =~= spans);
                    }
                    break ;
                },
                Some(c) => {
                    chunks.push(c);
                    proof {
                        assert(spans.skip(n)[0] == spans[n]);
                        assert(spans.take(n + 1) =~= spans.take(n).push(spans[n]));
                        assert(spans.skip(n).drop_first() =~= spans.skip(n + 1));
                    }
                },
            }
        }

        chunks
    }

    /// Get the first chunk from the data
    pub fn chunk_first<'a>(&'a self, data: &'a [u8]) -> (r: Option<Chunk<'a>>)
        requires
            self.spec_config().jump_size >= 1,
        ensures
            match r {
                None => chunk_spans(self.spec_config(), data@).len() == 0,
                Some(c) => {
                    &&& chunk_spans(self.spec_config(), data@).len() > 0
                    &&& c.matches_span(chunk_spans(self.spec_config(), data@)[0], data@)
                },
            },
    {
        let mut it = self.chunk_all(data);
        it.next()
    }

    /// Calculate chunking statistics for the given data
    pub fn stats(&self, data: &[u8]) -> (r: ChunkingStats)
        requires
            self.spec_config().jump_size >= 1,
        ensures
            ({
                let spans = chunk_spans(self.spec_config(), data@);
                &&& r.chunk_count == spans.len()
                &&& r.total_size == data@.len()
                &&& r.size_sum == sum_of_span_lens(spans)
                &&& r.min_chunk_size == min_of_span_lens(spans)
                &&& r.max_chunk_size == max_of_span_lens(spans)
            }),
    {
        let chunks = self.chunk_all_vec(data);
        proof {
            assert(spans_of_chunks(chunks@) =~= chunk_spans(self.spec_config(), data@));
        }
        ChunkingStats::from_chunks(chunks.as_slice(), data.len())
    }
}

/// The sum of the spans' lengths.
pub open spec fn sum_of_span_lens(spans: Seq<ChunkSpan>) -> int
    decreases spans.len(),
{
    if spans.len() == 0 {
        0
    } else {
        sum_of_span_lens(spans.drop_last()) + spans.last().len
    }
}

/// The smallest of the spans' lengths; zero when there are none.
pub open spec fn min_of_span_lens(spans: Seq<ChunkSpan>) -> int
    decreases spans.len(),
{
    if spans.len() == 0 {
        0
    } else if spans.len() == 1 {
        spans.last().len
    } else {
        let m = min_of_span_lens(spans.drop_last());
        if spans.last().len < m {
            spans.last().len
        } else {
            m
        }
    }
}

/// The largest of the spans' lengths; zero when there are none (or when all
/// are negative, which spans of real chunks never are).
pub open spec fn max_of_span_lens(spans: Seq<ChunkSpan>) -> int
    decreases spans.len(),
{
    if spans.len() == 0 {
        0
    } else {
        let m = max_of_span_lens(spans.drop_last());
        if spans.last().len > m {
            spans.last().len
        } else {
            m
        }
    }
}

/// Statistics about chunking results
#[derive(Debug, Clone)]
pub struct ChunkingStats {
    /// Total number of chunks
    pub chunk_count: usize,
    /// Total size of data processed
    pub total_size: usize,
    /// Sum of the chunk sizes (equals `total_size` whenever the chunks
    /// tile the processed data)
    pub size_sum: u128,
    /// Minimum chunk size
    pub min_chunk_size: usize,
    /// Maximum chunk size
    pub max_chunk_size: usize,
}

impl ChunkingStats {
    /// Create statistics from a collection of chunks
    #[verifier::loop_isolation(false)]
    pub fn from_chunks(chunks: &[Chunk<'_>], total_size: usize) -> (r: Self)
        ensures
            r.chunk_count == chunks@.len(),
            r.total_size == total_size,
            r.size_sum == sum_of_span_lens(spans_of_chunks(chunks@)),
            r.min_chunk_size == min_of_span_lens(spans_of_chunks(chunks@)),
            r.max_chunk_size == max_of_span_lens(spans_of_chunks(chunks@)),
    {
        let ghost spans = spans_of_chunks(chunks@);
        if chunks.len() == 0 {
            return ChunkingStats {
                chunk_count: 0,
                total_size,
                size_sum: 0,
                min_chunk_size: 0,
                max_chunk_size: 0,
            };
        }

        let mut sum: u128 = 0;
        let mut min_size: usize = usize::MAX;
        let mut max_size: usize = 0;
        let mut i: usize = 0;

        while i < chunks.len()
            invariant
                0 <= i <= chunks@.len(),
                sum == sum_of_span_lens(spans.take(i as int)),
                sum <= (i as int) * 0xffff_ffff_ffff_ffff,
                i > 0 ==> min_size == min_of_span_lens(spans.take(i as int)),
                i == 0 ==> min_size == usize::MAX,
                max_size == max_of_span_lens(spans.take(i as int)),
            decreases chunks@.len() - i,
        {
            let len = chunks[i].len;
            proof {
                assert(spans.take(i + 1).drop_last() =~= spans.take(i as int));
                assert(spans.take(i + 1).last() == spans[i as int]);
                assert((i as int + 1) * 0xffff_ffff_ffff_ffff == (i as int) * 0xffff_ffff_ffff_ffff
                    + 0xffff_ffff_ffff_ffff);
                assert((i as int + 1) * 0xffff_ffff_ffff_ffff <= 0xffff_ffff_ffff_ffff
                    * 0xffff_ffff_ffff_ffff) by (nonlinear_arith)
                    requires
                        i as int + 1 <= 0xffff_ffff_ffff_ffff,
                ;
            }
            sum = sum + len as u128;
            if i == 0 || len < min_size {
                min_size = len;
            }
            if len > max_size {
                max_size = len;
            }
            i = i + 1;
        }

        proof {
            assert(spans.take(chunks@.len() as int) =~= spans);
        }

        ChunkingStats {
            chunk_count: chunks.len(),
            total_size,
            size_sum: sum,
            min_chunk_size: min_size,
            max_chunk_size: max_size,
        }
    }
}

impl Default for SeqChunking {
    /// The default chunker carries the default configuration.
    fn default() -> (r: Self)
        ensures
            r.spec_config() == ChunkingConfig::spec_default(),
    {
        Self::new()
    }
}

} // verus!
