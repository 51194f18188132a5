//! Utility functions for the chunking library: validation of chunk
//! sequences against their source buffer, and generation of synthetic
//! buffers with known slope patterns.

use crate::chunker::{concat_chunk_data, spans_of_chunks, Chunk};
use crate::error::ChunkingError;
use crate::laws::is_contiguous_cover;
use vstd::arithmetic::div_mod::{lemma_fundamental_div_mod, lemma_mod_bound};
use vstd::arithmetic::div_mod::lemma_mul_mod_noop_left;
use vstd::prelude::*;

verus! {

/// Utility functions for data validation and verification
pub struct ValidationUtils;

/// Byte-wise equality of two slices.
fn slices_equal(a: &[u8], b: &[u8]) -> (r: bool)
    ensures
        r == (a@ == b@),
{
    if a.len() != b.len() {
        proof {
            assert(a@ != b@);
        }
        return false;
    }
    let mut i: usize = 0;
    while i < a.len()
        invariant
            0 <= i <= a@.len(),
            a@.len() == b@.len(),
            forall|k: int| 0 <= k < i ==> a@[k] == b@[k],
        decreases a@.len() - i,
    {
        if a[i] != b[i] {
            proof {
                assert(a@[i as int] != b@[i as int]);
            }
            return false;
        }
        i = i + 1;
    }
    proof {
        assert(a@ =~= b@);
    }
    true
}

/// Appending one more chunk's view to the concatenation of a prefix gives
/// the concatenation of the longer prefix.
proof fn lemma_concat_chunk_take_step<'a>(cs: Seq<Chunk<'a>>, i: int)
    requires
        0 <= i < cs.len(),
    ensures
        concat_chunk_data(cs.take(i + 1)) == concat_chunk_data(cs.take(i)) + cs[i].data@,
    decreases i,
{
    if i == 0 {
        assert(cs.take(1).drop_first() =~= Seq::<Chunk<'a>>::empty());
        assert(cs.take(1)[0] == cs[0]);
        assert(concat_chunk_data(cs.take(1)) == cs[0].data@ + concat_chunk_data(
            Seq::<Chunk<'a>>::empty(),
        ));
        assert(cs.take(0).len() == 0);
        assert(concat_chunk_data(cs.take(1)) =~= concat_chunk_data(cs.take(0)) + cs[0].data@);
    } else {
        let d = cs.drop_first();
        lemma_concat_chunk_take_step(d, i - 1);
        assert(cs.take(i + 1).drop_first() =~= d.take(i));
        assert(cs.take(i).drop_first() =~= d.take(i - 1));
        assert(cs.take(i + 1)[0] == cs[0]);
        assert(cs.take(i)[0] == cs[0]);
        assert(d[i - 1] == cs[i]);
        assert(concat_chunk_data(cs.take(i + 1)) == cs[0].data@ + concat_chunk_data(d.take(i)));
        assert(concat_chunk_data(cs.take(i)) == cs[0].data@ + concat_chunk_data(d.take(i - 1)));
        assert(concat_chunk_data(d.take(i)) == concat_chunk_data(d.take(i - 1)) + cs[i].data@);
        assert((cs[0].data@ + concat_chunk_data(d.take(i - 1))) + cs[i].data@ =~= cs[0].data@
            + (concat_chunk_data(d.take(i - 1)) + cs[i].data@));
    }
}

impl ValidationUtils {
    /// Verify that chunks can be reconstructed to match original data
    #[verifier::loop_isolation(false)]
    pub fn verify_chunks(original: &[u8], chunks: &[Chunk<'_>]) -> (r: Result<
        bool,
        ChunkingError,
    >)
        ensures
            r matches Ok(b) && (b <==> concat_chunk_data(chunks@) == original@),
    {
        let mut reconstructed: Vec<u8> = Vec::new();
        let mut i: usize = 0;

        proof {
            assert(reconstructed@ =~= concat_chunk_data(chunks@.take(0)));
        }

        while i < chunks.len()
            invariant
                0 <= i <= chunks@.len(),
                reconstructed@ == concat_chunk_data(chunks@.take(i as int)),
            decreases chunks@.len() - i,
        {
            let data = chunks[i].data;
            let ghost before = reconstructed@;
            let mut j: usize = 0;
            while j < data.len()
                invariant
                    0 <= j <= data@.len(),
                    reconstructed@ == before + data@.take(j as int),
                decreases data@.len() - j,
            {
                reconstructed.push(data[j]);
                proof {
                    assert(before + data@.take(j as int) + seq![data@[j as int]] =~= before
                        + data@.take(j as int + 1));
                }
                j = j + 1;
            }
            proof {
                assert(data@.take(data@.len() as int) =~= data@);
                lemma_concat_chunk_take_step(chunks@, i as int);
            }
            i = i + 1;
        }

        proof {
            assert(chunks@.take(chunks@.len() as int) =~= chunks@);
        }

        Ok(slices_equal(reconstructed.as_slice(), original))
    }

    /// Check if chunks are contiguous and cover the entire data
    #[verifier::loop_isolation(false)]
    pub fn validate_chunk_coverage(data_len: usize, chunks: &[Chunk<'_>]) -> (r: Result<
        (),
        ChunkingError,
    >)
        ensures
            r is Ok <==> is_contiguous_cover(spans_of_chunks(chunks@), data_len as int),
            r matches Err(e) ==> e is ProcessingError,
            chunks@.len() == 0 && data_len > 0 ==> (r matches Err(e) && e matches
                ChunkingError::ProcessingError(m) && m@ == "No chunks found for non-empty data"@),
    {
        let ghost spans = spans_of_chunks(chunks@);

        if chunks.len() == 0 {
            if data_len == 0 {
                return Ok(());
            } else {
                return Err(ChunkingError::processing_error("No chunks found for non-empty data"));
            }
        }

        let mut expected_start: usize = 0;
        let mut i: usize = 0;

        while i < chunks.len()
            invariant
                0 <= i <= chunks@.len(),
                i == 0 ==> expected_start == 0,
                i > 0 ==> expected_start as int == spans[i - 1].start + spans[i - 1].len,
                i > 0 ==> spans[0].start == 0,
                forall|k: int| 0 <= k < i ==> 1 <= (#[trigger] spans[k]).len,
                forall|k: int|
                    0 <= k < i - 1 ==> (#[trigger] spans[k]).start + spans[k].len == spans[k
                        + 1].start,
            decreases chunks@.len() - i,
        {
            let c = &chunks[i];

            if c.start != expected_start {
                proof {
                    if is_contiguous_cover(spans, data_len as int) {
                        if i == 0 {
                            assert(spans[0].start == 0);
                        } else {
                            assert(spans[i - 1].start + spans[i - 1].len == spans[i as int].start);
                        }
                        assert(false);
                    }
                }
                return Err(
                    ChunkingError::processing_error(
                        "chunk does not start where the previous chunk ended",
                    ),
                );
            }

            if c.len == 0 {
                proof {
                    if is_contiguous_cover(spans, data_len as int) {
                        assert(1 <= spans[i as int].len);
                        assert(false);
                    }
                }
                return Err(ChunkingError::processing_error("chunk is empty"));
            }

            if c.len > usize::MAX - c.start {
                // The chunk's end does not even fit in an address, so it can
                // neither meet the next chunk's start nor the data length.
                proof {
                    if is_contiguous_cover(spans, data_len as int) {
                        if i + 1 == chunks@.len() {
                            assert(spans.last() == spans[i as int]);
                        } else {
                            assert(spans[i as int].start + spans[i as int].len == spans[i
                                + 1].start);
                        }
                        assert(false);
                    }
                }
                return Err(ChunkingError::processing_error("chunk end overflows usize"));
            }

            expected_start = c.start + c.len;
            i = i + 1;
        }

        if expected_start != data_len {
            proof {
                if is_contiguous_cover(spans, data_len as int) {
                    assert(spans.last() == spans[i - 1]);
                    assert(false);
                }
            }
            return Err(ChunkingError::processing_error("chunks do not end at the data length"));
        }

        proof {
            assert(spans.last() == spans[i - 1]);
            assert(1 <= spans[i - 1].len);
            assert(is_contiguous_cover(spans, data_len as int));
        }
        Ok(())
    }
}

/// The byte written at offset `i` of a painted run: counting up from zero
/// for an increasing run, down from 255 for a decreasing one, wrapping every
/// 256 bytes.
pub open spec fn run_byte(i: int, descending: bool) -> u8 {
    if descending {
        (255 - (i % 256)) as u8
    } else {
        (i % 256) as u8
    }
}

/// `s` with a run of `run_len` pattern bytes painted over it starting at
/// offset `start` (truncated at the end of `s`).
pub open spec fn paint_run(s: Seq<u8>, start: int, run_len: int, descending: bool) -> Seq<u8> {
    Seq::new(
        s.len(),
        |p: int|
            if start <= p < start + run_len {
                run_byte(p - start, descending)
            } else {
                s[p]
            },
    )
}

/// A buffer of `size` background bytes (zero for increasing runs, 255 for
/// decreasing ones) with the first `k` runs painted over it, one run of
/// `seq_length` bytes every `spacing` offsets.
pub open spec fn gen_sequences(
    size: nat,
    seq_length: int,
    spacing: int,
    k: int,
    descending: bool,
) -> Seq<u8>
    decreases k,
{
    if k <= 0 {
        Seq::new(size, |i: int| if descending { 255u8 } else { 0u8 })
    } else {
        paint_run(
            gen_sequences(size, seq_length, spacing, k - 1, descending),
            (k - 1) * spacing,
            seq_length,
            descending,
        )
    }
}

/// The spacing between run starts: the buffer is divided evenly among the
/// requested runs.
pub open spec fn spec_run_spacing(size: int, seq_count: int) -> int {
    size / (if seq_count < 1 {
        1
    } else {
        seq_count
    })
}

/// The byte at offset `i` of the mixed pattern: offsets cycle through ten
/// phases of increasing, decreasing and multiplicative bytes.
pub open spec fn mixed_pattern_byte(i: int) -> u8 {
    if i % 10 <= 4 {
        (i % 256) as u8
    } else if i % 10 <= 7 {
        (255 - (i % 256)) as u8
    } else {
        ((i * 7) % 256) as u8
    }
}

/// The state of the linear congruential generator after `n` steps from
/// `seed`.
pub open spec fn lcg_state(seed: u64, n: int) -> u64
    decreases n,
{
    if n <= 0 {
        seed
    } else {
        lcg_state(seed, n - 1).wrapping_mul(1103515245u64).wrapping_add(12345u64)
    }
}

/// The pseudo-random byte drawn at step `n`: bits 16..24 of the state.
pub open spec fn lcg_byte(seed: u64, n: int) -> u8 {
    ((lcg_state(seed, n) >> 16u64) & 0xffu64) as u8
}

/// A multiple of the quotient `size / n` by a factor below `n` stays below
/// `size`.
proof fn lemma_spacing_multiple_bounded(k: int, n: int, size: int)
    requires
        0 <= size,
        1 <= n,
        0 <= k < n,
    ensures
        k * (size / n) <= size,
{
    lemma_fundamental_div_mod(size, n);
    lemma_mod_bound(size, n);
    let sp = size / n;
    assert(0 <= sp) by (nonlinear_arith)
        requires
            size == n * sp + (size % n),
            0 <= size % n < n,
            1 <= n,
            0 <= size,
    ;
    assert(k * sp <= size) by (nonlinear_arith)
        requires
            0 <= k < n,
            0 <= sp,
            size == n * sp + (size % n),
            0 <= size % n,
    ;
}

/// Utility functions for generating test data
pub struct TestDataGenerator;

impl TestDataGenerator {
    /// A buffer of `size` copies of `fill`.
    fn filled(size: usize, fill: u8) -> (r: Vec<u8>)
        ensures
            r@ == Seq::new(size as nat, |i: int| fill),
    {
        let mut data: Vec<u8> = Vec::new();
        let mut i: usize = 0;
        while i < size
            invariant
                0 <= i <= size,
                data@.len() == i,
                forall|k: int| 0 <= k < i ==> data@[k] == fill,
            decreases size - i,
        {
            data.push(fill);
            i = i + 1;
        }
        proof {
            assert(data@ =~= Seq::new(size as nat, |i: int| fill));
        }
        data
    }

    /// Paint runs of `seq_length` pattern bytes over a background buffer,
    /// one run every `size / max(seq_count, 1)` offsets.
    #[verifier::loop_isolation(false)]
    fn generate_runs(size: usize, seq_length: usize, seq_count: usize, descending: bool) -> (r:
        Vec<u8>)
        ensures
            r@ == gen_sequences(
                size as nat,
                seq_length as int,
                spec_run_spacing(size as int, seq_count as int),
                seq_count as int,
                descending,
            ),
    {
        let mut data = Self::filled(size, if descending { 255u8 } else { 0u8 });
        let seq_spacing: usize = size / (if seq_count > 0 { seq_count } else { 1 });
        let ghost spacing = spec_run_spacing(size as int, seq_count as int);

        proof {
            assert(data@ =~= gen_sequences(
                size as nat,
                seq_length as int,
                spacing,
                0,
                descending,
            ));
        }

        let mut seq_idx: usize = 0;
        while seq_idx < seq_count
            invariant
                0 <= seq_idx <= seq_count,
                seq_spacing as int == spacing,
                data@ == gen_sequences(
                    size as nat,
                    seq_length as int,
                    spacing,
                    seq_idx as int,
                    descending,
                ),
                data@.len() == size,
            decreases seq_count - seq_idx,
        {
            proof {
                lemma_spacing_multiple_bounded(
                    seq_idx as int,
                    if seq_count < 1 {
                        1
                    } else {
                        seq_count as int
                    },
                    size as int,
                );
            }
            let start_pos: usize = seq_idx * seq_spacing;
            let end_pos: usize = if seq_length >= size - start_pos {
                size
            } else {
                start_pos + seq_length
            };
            let ghost before = data@;

            let mut pos: usize = start_pos;
            while pos < end_pos
                invariant
                    start_pos <= pos <= end_pos,
                    end_pos <= size,
                    data@ == paint_run(before, start_pos as int, pos - start_pos, descending),
                    before.len() == size,
                    data@.len() == size,
                decreases end_pos - pos,
            {
                let byte: u8 = if descending {
                    (255 - ((pos - start_pos) % 256)) as u8
                } else {
                    ((pos - start_pos) % 256) as u8
                };
                data[pos] = byte;
                proof {
                    assert(data@ =~= paint_run(
                        before,
                        start_pos as int,
                        pos + 1 - start_pos,
                        descending,
                    ));
                }
                pos = pos + 1;
            }

            proof {
                assert(paint_run(before, start_pos as int, end_pos - start_pos, descending)
                    =~= paint_run(before, start_pos as int, seq_length as int, descending));
            }
            seq_idx = seq_idx + 1;
        }

        data
    }

    /// Generate test data with increasing sequences
    pub fn generate_increasing_sequences(size: usize, seq_length: usize, seq_count: usize) -> (r:
        Vec<u8>)
        ensures
            r@ == gen_sequences(
                size as nat,
                seq_length as int,
                spec_run_spacing(size as int, seq_count as int),
                seq_count as int,
                false,
            ),
    {
        Self::generate_runs(size, seq_length, seq_count, false)
    }

    /// Generate test data with decreasing sequences
    pub fn generate_decreasing_sequences(size: usize, seq_length: usize, seq_count: usize) -> (r:
        Vec<u8>)
        ensures
            r@ == gen_sequences(
                size as nat,
                seq_length as int,
                spec_run_spacing(size as int, seq_count as int),
                seq_count as int,
                true,
            ),
    {
        Self::generate_runs(size, seq_length, seq_count, true)
    }

    /// Generate mixed pattern test data
    pub fn generate_mixed_patterns(size: usize) -> (r: Vec<u8>)
        ensures
            r@ == Seq::new(size as nat, |i: int| mixed_pattern_byte(i)),
    {
        let mut data: Vec<u8> = Vec::new();
        let mut i: usize = 0;
        while i < size
            invariant
                0 <= i <= size,
                data@.len() == i,
                forall|k: int| 0 <= k < i ==> data@[k] == mixed_pattern_byte(k),
            decreases size - i,
        {
            let phase = i % 10;
            let value: u8 = if phase <= 4 {
                (i % 256) as u8
            } else if phase <= 7 {
                (255 - (i % 256)) as u8
            } else {
                proof {
                    lemma_mul_mod_noop_left(i as int, 7, 256);
                }
                (((i % 256) * 7) % 256) as u8
            };
            data.push(value);
            i = i + 1;
        }
        proof {
            assert(data@ =~= Seq::new(size as nat, |i: int| mixed_pattern_byte(i)));
        }
        data
    }

    /// Generate random-like data using a simple PRNG
    pub fn generate_pseudo_random(size: usize, seed: u64) -> (r: Vec<u8>)
        ensures
            r@ == Seq::new(size as nat, |i: int| lcg_byte(seed, i + 1)),
    {
        let mut data: Vec<u8> = Vec::new();
        let mut state: u64 = seed;
        let mut i: usize = 0;
        while i < size
            invariant
                0 <= i <= size,
                data@.len() == i,
                state == lcg_state(seed, i as int),
                forall|k: int| 0 <= k < i ==> data@[k] == lcg_byte(seed, k + 1),
            decreases size - i,
        {
            // Simple linear congruential generator
            state = state.wrapping_mul(1103515245).wrapping_add(12345);
            data.push(((state >> 16) & 0xff) as u8);
            i = i + 1;
        }
        proof {
            assert(data@ =~= Seq::new(size as nat, |i: int| lcg_byte(seed, i + 1)));
        }
        data
    }
}

} // verus!
