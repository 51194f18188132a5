//! The laws of the chunking algorithm: proofs that, for every valid
//! configuration and every buffer, the emitted chunk sequence partitions the
//! buffer, reconstructs it, respects the size bounds, and behaves as
//! specified on the boundary inputs.

use crate::chunker::{
    chunk_spans, chunks_match_spans, concat_chunk_data, cutpoint_of, is_reinforcing,
    scan_cutpoint, spans_from, sum_of_span_lens, Chunk, ChunkSpan,
};
use crate::config::ChunkingConfig;
use vstd::prelude::*;

verus! {

/// A sequence of spans tiles `[0, n)`: it is empty exactly when `n` is zero;
/// otherwise the first span starts at `0`, each span starts where its
/// predecessor ended, every span is non-empty, and the last span ends at `n`.
pub open spec fn is_contiguous_cover(spans: Seq<ChunkSpan>, n: int) -> bool {
    &&& (spans.len() == 0 <==> n == 0)
    &&& (spans.len() > 0 ==> spans[0].start == 0)
    &&& (spans.len() > 0 ==> spans.last().start + spans.last().len == n)
    &&& (forall|i: int| #![trigger spans[i]] 0 <= i < spans.len() ==> 1 <= spans[i].len)
    &&& (forall|i: int|
        #![trigger spans[i]]
        0 <= i < spans.len() - 1 ==> spans[i].start + spans[i].len == spans[i + 1].start)
}

/// The concatenation of the sub-ranges of `data` named by `spans`, in order.
pub open spec fn concat_spans(data: Seq<u8>, spans: Seq<ChunkSpan>) -> Seq<u8>
    decreases spans.len(),
{
    if spans.len() == 0 {
        Seq::empty()
    } else {
        data.subrange(spans[0].start, spans[0].start + spans[0].len) + concat_spans(
            data,
            spans.drop_first(),
        )
    }
}

/// The scan either caps the chunk at `limit` or cuts at a cursor position:
/// at or after where it started, before the horizon, and inside the data.
pub proof fn lemma_scan_cutpoint_bounds(
    cfg: ChunkingConfig,
    data: Seq<u8>,
    limit: int,
    pos: int,
    run: int,
    opp: int,
)
    requires
        1 <= pos,
        cfg.jump_size >= 1,
    ensures
        ({
            let r = scan_cutpoint(cfg, data, limit, pos, run, opp);
            r == limit || (pos <= r && r < limit && r < data.len())
        }),
    decreases limit - pos,
{
    if pos < limit && pos < data.len() {
        let prev = data[pos - 1];
        let curr = data[pos];
        if curr == prev {
            lemma_scan_cutpoint_bounds(cfg, data, limit, pos + 1, run, opp);
        } else {
            let run2: int = if is_reinforcing(cfg.op_mode, prev, curr) {
                run + 1
            } else {
                0
            };
            let opp2: int = if is_reinforcing(cfg.op_mode, prev, curr) {
                opp
            } else {
                opp + 1
            };
            if run2 >= cfg.seq_threshold {
            } else if opp2 >= cfg.jump_trigger {
                let jumped = pos + cfg.jump_size;
                if jumped >= limit || jumped >= data.len() {
                } else {
                    lemma_scan_cutpoint_bounds(cfg, data, limit, jumped, 0, 0);
                }
            } else {
                lemma_scan_cutpoint_bounds(cfg, data, limit, pos + 1, run2, opp2);
            }
        }
    }
}

/// For a valid configuration and a non-empty window, the cutpoint lies in
/// `[1, size]`, a chunk capped at `max_block_size`; and a cutpoint short of
/// `size` is at least `min_block_size`.
pub proof fn lemma_cutpoint_in_range(cfg: ChunkingConfig, data: Seq<u8>, size: int)
    requires
        cfg.spec_valid(),
        1 <= size,
    ensures
        1 <= cutpoint_of(cfg, data, size) <= size,
        cutpoint_of(cfg, data, size) <= cfg.max_block_size || size < cfg.min_block_size,
        cutpoint_of(cfg, data, size) < size ==> cfg.min_block_size <= cutpoint_of(cfg, data, size),
{
    if size < cfg.min_block_size {
    } else {
        let limit: int = if size < cfg.max_block_size {
            size
        } else {
            cfg.max_block_size as int
        };
        lemma_scan_cutpoint_bounds(cfg, data, limit, cfg.min_block_size as int, 0, 0);
    }
}

/// One step of `spans_from` on a non-exhausted buffer: exactly one span of
/// the clamped cutpoint length is emitted and the recursion resumes past it.
/// The length is at least one, at most `max_block_size`, and — unless the
/// span reaches the end of the buffer — at least `min_block_size`.
pub proof fn lemma_spans_from_step(cfg: ChunkingConfig, data: Seq<u8>, position: int)
    requires
        cfg.spec_valid(),
        0 <= position < data.len(),
    ensures
        ({
            let remaining = data.len() - position;
            let cut = cutpoint_of(cfg, data.subrange(position, data.len() as int), remaining);
            let csize: int = if cut < remaining {
                cut
            } else {
                remaining
            };
            &&& 1 <= csize <= remaining
            &&& csize <= cfg.max_block_size
            &&& (position + csize < data.len() ==> cfg.min_block_size <= csize)
            &&& spans_from(cfg, data, position) == seq![
                ChunkSpan { start: position, len: csize },
            ] + spans_from(cfg, data, position + csize)
        }),
{
    let remaining = data.len() - position;
    let window = data.subrange(position, data.len() as int);
    lemma_cutpoint_in_range(cfg, window, remaining);
    let cut = cutpoint_of(cfg, window, remaining);
    let csize: int = if cut < remaining {
        cut
    } else {
        remaining
    };
    if remaining < cfg.min_block_size {
        assert(csize == remaining);
    }
}

/// The spans emitted from `position` on tile `[position, data.len())`:
/// none from an exhausted buffer, else the first starts at `position`, each
/// starts where its predecessor ended, the last ends at the end of the data,
/// and every length is in `[1, max_block_size]`, with every length but
/// possibly the last at least `min_block_size`.
pub proof fn lemma_spans_from_props(cfg: ChunkingConfig, data: Seq<u8>, position: int)
    requires
        cfg.spec_valid(),
        0 <= position <= data.len(),
    ensures
        ({
            let spans = spans_from(cfg, data, position);
            &&& (spans.len() == 0 <==> position == data.len())
            &&& (spans.len() > 0 ==> spans[0].start == position)
            &&& (spans.len() > 0 ==> spans.last().start + spans.last().len == data.len())
            &&& (forall|i: int|
                #![trigger spans[i]]
                0 <= i < spans.len() ==> 1 <= spans[i].len && spans[i].len <= cfg.max_block_size)
            &&& (forall|i: int|
                #![trigger spans[i]]
                0 <= i < spans.len() - 1 ==> spans[i].start + spans[i].len == spans[i + 1].start)
            &&& (forall|i: int|
                #![trigger spans[i]]
                0 <= i < spans.len() - 1 ==> cfg.min_block_size <= spans[i].len)
        }),
    decreases data.len() - position,
{
    let spans = spans_from(cfg, data, position);
    if position == data.len() {
    } else {
        lemma_spans_from_step(cfg, data, position);
        let remaining = data.len() - position;
        let cut = cutpoint_of(cfg, data.subrange(position, data.len() as int), remaining);
        let csize: int = if cut < remaining {
            cut
        } else {
            remaining
        };
        let head = ChunkSpan { start: position, len: csize };
        let rest = spans_from(cfg, data, position + csize);
        lemma_spans_from_props(cfg, data, position + csize);
        assert(spans == seq![head] + rest);
        assert(spans[0] == head);
        assert forall|i: int| 0 <= i < spans.len() implies 1 <= spans[i].len && spans[i].len
            <= cfg.max_block_size by {
            if i > 0 {
                assert(spans[i] == rest[i - 1]);
            }
        }
        assert forall|i: int| 0 <= i < spans.len() - 1 implies spans[i].start + spans[i].len
            == spans[i + 1].start by {
            if i == 0 {
                assert(rest.len() > 0);
                assert(spans[1] == rest[0]);
                assert(rest[0].start == position + csize);
            } else {
                assert(spans[i] == rest[i - 1]);
                assert(spans[i + 1] == rest[i]);
            }
        }
        assert forall|i: int| 0 <= i < spans.len() - 1 implies cfg.min_block_size
            <= spans[i].len by {
            if i == 0 {
                assert(rest.len() > 0);
                assert(position + csize < data.len());
            } else {
                assert(spans[i] == rest[i - 1]);
                assert(i - 1 < rest.len() - 1);
            }
        }
        if rest.len() > 0 {
            assert(spans.last() == rest.last());
        } else {
            assert(spans.last() == head);
        }
    }
}

/// Chunk starts are contiguous and every chunk is non-empty: the spans of a
/// whole buffer tile `[0, len(data))`, and the sequence is empty exactly when
/// the buffer is.
pub proof fn lemma_chunks_contiguous_cover(cfg: ChunkingConfig, data: Seq<u8>)
    requires
        cfg.spec_valid(),
    ensures
        is_contiguous_cover(chunk_spans(cfg, data), data.len() as int),
{
    lemma_spans_from_props(cfg, data, 0);
}

/// Every chunk is at most `max_block_size` long, and every chunk except
/// possibly the last is at least `min_block_size` long.
pub proof fn lemma_chunk_size_bounds(cfg: ChunkingConfig, data: Seq<u8>)
    requires
        cfg.spec_valid(),
    ensures
        ({
            let spans = chunk_spans(cfg, data);
            &&& (forall|i: int|
                #![trigger spans[i]]
                0 <= i < spans.len() ==> spans[i].len <= cfg.max_block_size)
            &&& (forall|i: int|
                #![trigger spans[i]]
                0 <= i < spans.len() - 1 ==> cfg.min_block_size <= spans[i].len)
        }),
{
    lemma_spans_from_props(cfg, data, 0);
}

/// Prepending a span adds its length to the sum of lengths.
proof fn lemma_sum_of_span_lens_cons(h: ChunkSpan, s: Seq<ChunkSpan>)
    ensures
        sum_of_span_lens(seq![h] + s) == h.len + sum_of_span_lens(s),
    decreases s.len(),
{
    if s.len() == 0 {
        assert(seq![h] + s =~= seq![h]);
        assert((seq![h]).drop_last() =~= Seq::<ChunkSpan>::empty());
        assert(sum_of_span_lens(Seq::<ChunkSpan>::empty()) == 0);
        assert(sum_of_span_lens(seq![h]) == h.len);
        assert(sum_of_span_lens(s) == 0);
    } else {
        lemma_sum_of_span_lens_cons(h, s.drop_last());
        assert((seq![h] + s).drop_last() =~= seq![h] + s.drop_last());
        assert((seq![h] + s).last() == s.last());
    }
}

/// The lengths of the spans emitted from `position` on sum to the number of
/// bytes from `position` on.
proof fn lemma_spans_from_lens_sum(cfg: ChunkingConfig, data: Seq<u8>, position: int)
    requires
        cfg.spec_valid(),
        0 <= position <= data.len(),
    ensures
        sum_of_span_lens(spans_from(cfg, data, position)) == data.len() - position,
    decreases data.len() - position,
{
    if position == data.len() {
    } else {
        lemma_spans_from_step(cfg, data, position);
        let remaining = data.len() - position;
        let cut = cutpoint_of(cfg, data.subrange(position, data.len() as int), remaining);
        let csize: int = if cut < remaining {
            cut
        } else {
            remaining
        };
        lemma_spans_from_lens_sum(cfg, data, position + csize);
        lemma_sum_of_span_lens_cons(
            ChunkSpan { start: position, len: csize },
            spans_from(cfg, data, position + csize),
        );
    }
}

/// The chunk lengths sum to the buffer's length: in the statistics of a
/// whole buffer, `size_sum` equals the number of bytes processed, so the
/// mean chunk size is the buffer length over the chunk count.
pub proof fn lemma_chunk_lens_sum_to_data_len(cfg: ChunkingConfig, data: Seq<u8>)
    requires
        cfg.spec_valid(),
    ensures
        sum_of_span_lens(chunk_spans(cfg, data)) == data.len(),
{
    lemma_spans_from_lens_sum(cfg, data, 0);
}

/// The sub-ranges named by the spans emitted from `position` on concatenate
/// back to exactly the part of the buffer from `position` on.
pub proof fn lemma_spans_from_reconstruct(cfg: ChunkingConfig, data: Seq<u8>, position: int)
    requires
        cfg.spec_valid(),
        0 <= position <= data.len(),
    ensures
        concat_spans(data, spans_from(cfg, data, position)) == data.subrange(
            position,
            data.len() as int,
        ),
    decreases data.len() - position,
{
    let spans = spans_from(cfg, data, position);
    if position == data.len() {
        assert(concat_spans(data, spans) =~= data.subrange(position, data.len() as int));
    } else {
        lemma_spans_from_step(cfg, data, position);
        let remaining = data.len() - position;
        let cut = cutpoint_of(cfg, data.subrange(position, data.len() as int), remaining);
        let csize: int = if cut < remaining {
            cut
        } else {
            remaining
        };
        let head = ChunkSpan { start: position, len: csize };
        let rest = spans_from(cfg, data, position + csize);
        lemma_spans_from_reconstruct(cfg, data, position + csize);
        assert(spans == seq![head] + rest);
        assert(spans.drop_first() =~= rest);
        assert(data.subrange(position, data.len() as int) =~= data.subrange(
            position,
            position + csize,
        ) + data.subrange(position + csize, data.len() as int));
    }
}

/// Round trip: concatenating the chunks' views in emitted order reproduces
/// the buffer exactly. Stated over any sequence of chunks that is the
/// emitted spans of `data` — such as the one `chunk_all_vec` returns.
pub proof fn lemma_chunks_reconstruct<'a>(cfg: ChunkingConfig, data: Seq<u8>, cs: Seq<Chunk<'a>>)
    requires
        cfg.spec_valid(),
        chunks_match_spans(cs, chunk_spans(cfg, data), data),
    ensures
        concat_chunk_data(cs) == data,
{
    lemma_spans_from_reconstruct(cfg, data, 0);
    assert(data.subrange(0, data.len() as int) =~= data);
    lemma_concat_matching_chunks(data, cs, chunk_spans(cfg, data));
}

/// Chunks that match spans of `data` concatenate to the same bytes as the
/// spans themselves.
proof fn lemma_concat_matching_chunks<'a>(data: Seq<u8>, cs: Seq<Chunk<'a>>, spans: Seq<ChunkSpan>)
    requires
        chunks_match_spans(cs, spans, data),
    ensures
        concat_chunk_data(cs) == concat_spans(data, spans),
    decreases cs.len(),
{
    if cs.len() == 0 {
        assert(concat_chunk_data(cs) =~= concat_spans(data, spans));
    } else {
        assert(cs[0].matches_span(spans[0], data));
        assert forall|i: int|
            0 <= i < cs.drop_first().len() implies cs.drop_first()[i].matches_span(
            #[trigger] spans.drop_first()[i],
            data,
        ) by {
            assert(cs.drop_first()[i] == cs[i + 1]);
            assert(spans.drop_first()[i] == spans[i + 1]);
            assert(cs[i + 1].matches_span(spans[i + 1], data));
        }
        lemma_concat_matching_chunks(data, cs.drop_first(), spans.drop_first());
    }
}

/// Determinism: the chunk sequence is a function of the configuration and
/// the buffer alone — equal inputs yield equal chunk sequences. Together
/// with the contract of `chunk_all_vec`, which pins its result to
/// `chunk_spans`, two runs over the same input emit the same chunks.
pub proof fn lemma_chunking_deterministic(
    cfg1: ChunkingConfig,
    cfg2: ChunkingConfig,
    d1: Seq<u8>,
    d2: Seq<u8>,
)
    requires
        cfg1 == cfg2,
        d1 == d2,
    ensures
        chunk_spans(cfg1, d1) == chunk_spans(cfg2, d2),
{
}

/// An empty buffer yields no chunks, whatever the configuration.
pub proof fn lemma_empty_data_no_chunks(cfg: ChunkingConfig, data: Seq<u8>)
    requires
        data.len() == 0,
    ensures
        chunk_spans(cfg, data).len() == 0,
{
}

/// A non-empty buffer shorter than `min_block_size` yields exactly one
/// chunk, spanning all of it.
pub proof fn lemma_short_data_single_chunk(cfg: ChunkingConfig, data: Seq<u8>)
    requires
        0 < data.len() < cfg.min_block_size,
    ensures
        chunk_spans(cfg, data) =~= seq![ChunkSpan { start: 0, len: data.len() as int }],
{
    let remaining = data.len() as int;
    let cut = cutpoint_of(cfg, data.subrange(0, data.len() as int), remaining);
    assert(cut == remaining);
    assert(spans_from(cfg, data, remaining) =~= Seq::<ChunkSpan>::empty());
}

/// On a window whose bytes are all equal to `b`, every comparison is an
/// equal pair, the scan absorbs its way to the horizon, and the chunk is
/// capped at `limit`.
proof fn lemma_scan_cutpoint_all_equal(
    cfg: ChunkingConfig,
    data: Seq<u8>,
    b: u8,
    limit: int,
    pos: int,
    run: int,
    opp: int,
)
    requires
        1 <= pos,
        cfg.jump_size >= 1,
        forall|i: int| 0 <= i < data.len() ==> data[i] == b,
    ensures
        scan_cutpoint(cfg, data, limit, pos, run, opp) == limit,
    decreases limit - pos,
{
    if pos < limit && pos < data.len() {
        assert(data[pos] == b && data[pos - 1] == b);
        lemma_scan_cutpoint_all_equal(cfg, data, b, limit, pos + 1, run, opp);
    }
}

/// A buffer of one repeated byte value, of length three times
/// `max_block_size`, yields exactly three chunks of `max_block_size` each:
/// absorption forces every scan to its cap.
pub proof fn lemma_uniform_bytes_three_chunks(cfg: ChunkingConfig, data: Seq<u8>, b: u8)
    requires
        cfg.spec_valid(),
        data.len() == 3 * cfg.max_block_size,
        forall|i: int| 0 <= i < data.len() ==> data[i] == b,
    ensures
        chunk_spans(cfg, data) =~= seq![
            ChunkSpan { start: 0, len: cfg.max_block_size as int },
            ChunkSpan { start: cfg.max_block_size as int, len: cfg.max_block_size as int },
            ChunkSpan { start: 2 * (cfg.max_block_size as int), len: cfg.max_block_size as int },
        ],
{
    let m = cfg.max_block_size as int;
    lemma_uniform_step(cfg, data, b, 0);
    lemma_uniform_step(cfg, data, b, m);
    lemma_uniform_step(cfg, data, b, 2 * m);
    assert(spans_from(cfg, data, 3 * m) =~= Seq::<ChunkSpan>::empty());
}

/// One step of chunking a uniform buffer when at least `max_block_size`
/// bytes remain: the emitted span has exactly `max_block_size` bytes.
proof fn lemma_uniform_step(cfg: ChunkingConfig, data: Seq<u8>, b: u8, position: int)
    requires
        cfg.spec_valid(),
        forall|i: int| 0 <= i < data.len() ==> data[i] == b,
        0 <= position,
        position + cfg.max_block_size <= data.len(),
    ensures
        spans_from(cfg, data, position) == seq![
            ChunkSpan { start: position, len: cfg.max_block_size as int },
        ] + spans_from(cfg, data, position + cfg.max_block_size),
{
    let m = cfg.max_block_size as int;
    let remaining = data.len() - position;
    let window = data.subrange(position, data.len() as int);
    assert(forall|i: int| 0 <= i < window.len() ==> window[i] == b);
    let limit: int = if remaining < m {
        remaining
    } else {
        m
    };
    assert(limit == m);
    lemma_scan_cutpoint_all_equal(cfg, window, b, m, cfg.min_block_size as int, 0, 0);
    assert(cutpoint_of(cfg, window, remaining) == m);
}

} // verus!
