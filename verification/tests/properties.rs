use seq_chunking::{ChunkingConfig, SeqChunking, SeqOpMode, TestDataGenerator, ValidationUtils};

/// Round trip: concatenating the chunks in emitted order reproduces the
/// buffer exactly.
#[test]
fn test_round_trip_reconstruction() {
    let chunker = SeqChunking::new();
    let data = TestDataGenerator::generate_pseudo_random(100_000, 7);

    let chunks = chunker.chunk_all_vec(&data);
    let reconstructed: Vec<u8> = chunks
        .iter()
        .flat_map(|chunk| chunk.data.iter())
        .copied()
        .collect();
    assert_eq!(reconstructed, data);
    assert!(ValidationUtils::verify_chunks(&data, &chunks).unwrap());
}

/// Contiguity: chunk 0 starts at 0, each chunk starts where the previous
/// ended, the last ends at the data length, and no chunk is empty.
#[test]
fn test_chunks_are_contiguous() {
    let chunker = SeqChunking::new();
    let data = TestDataGenerator::generate_mixed_patterns(50_000);

    let chunks = chunker.chunk_all_vec(&data);
    assert!(!chunks.is_empty());
    assert_eq!(chunks[0].start, 0);
    let mut expected_start = 0;
    for chunk in &chunks {
        assert_eq!(chunk.start, expected_start);
        assert!(chunk.len >= 1);
        expected_start = chunk.end();
    }
    assert_eq!(expected_start, data.len());
    ValidationUtils::validate_chunk_coverage(data.len(), &chunks).unwrap();
}

/// Size bounds: every chunk but the last lies in
/// `[min_block_size, max_block_size]`; the last never exceeds the maximum.
#[test]
fn test_chunk_size_bounds() {
    let chunker = SeqChunking::new();
    let data = TestDataGenerator::generate_pseudo_random(150_000, 99);

    let chunks = chunker.chunk_all_vec(&data);
    for (i, chunk) in chunks.iter().enumerate() {
        assert!(chunk.len as u64 <= chunker.max_block_size());
        if i + 1 < chunks.len() {
            assert!(chunk.len as u64 >= chunker.min_block_size());
        }
    }
}

/// Determinism: the same configuration and data give the same chunks.
#[test]
fn test_chunking_is_deterministic() {
    let data = TestDataGenerator::generate_pseudo_random(60_000, 3);
    let chunker1 = SeqChunking::new();
    let chunker2 = SeqChunking::new();

    let chunks1 = chunker1.chunk_all_vec(&data);
    let chunks2 = chunker2.chunk_all_vec(&data);
    assert_eq!(chunks1.len(), chunks2.len());
    for (a, b) in chunks1.iter().zip(chunks2.iter()) {
        assert_eq!(a.start, b.start);
        assert_eq!(a.len, b.len);
        assert_eq!(a.data, b.data);
    }
}

/// An empty buffer yields zero chunks.
#[test]
fn test_empty_data_zero_chunks() {
    let chunker = SeqChunking::new();
    let data: Vec<u8> = Vec::new();
    let chunks = chunker.chunk_all_vec(&data);
    assert!(chunks.is_empty());
    assert!(chunker.chunk_first(&data).is_none());
}

/// A buffer shorter than `min_block_size` becomes exactly one chunk
/// spanning all of it.
#[test]
fn test_short_data_single_chunk() {
    let chunker = SeqChunking::new();
    let data = vec![7u8; 1000];
    let chunks = chunker.chunk_all_vec(&data);
    assert_eq!(chunks.len(), 1);
    assert_eq!(chunks[0].start, 0);
    assert_eq!(chunks[0].len, 1000);
}

/// A single repeated byte value of length three times `max_block_size`
/// yields exactly three chunks of `max_block_size` each.
#[test]
fn test_uniform_data_three_full_chunks() {
    let chunker = SeqChunking::new();
    let max = chunker.max_block_size() as usize;
    let data = vec![42u8; 3 * max];
    let chunks = chunker.chunk_all_vec(&data);
    assert_eq!(chunks.len(), 3);
    for (i, chunk) in chunks.iter().enumerate() {
        assert_eq!(chunk.start, i * max);
        assert_eq!(chunk.len, max);
    }
}

/// An increasing run inserted at 4096 in a zero buffer cuts strictly
/// between 4096 and 8192 under the default (Increasing) mode; with the
/// default threshold of five the fifth reinforcing comparison lands at
/// offset 4101.
#[test]
fn test_increasing_run_exact_cutpoint() {
    let chunker = SeqChunking::new();
    let mut data = vec![0u8; 8192];
    for i in 4096..4110 {
        data[i] = (i - 4096) as u8;
    }
    let result = chunker.find_cutpoint(&data, 8192);
    assert_eq!(result, 4101);
}

/// A strictly decreasing run fires no cutpoint under Increasing mode but
/// fires at the symmetric position under Decreasing mode.
#[test]
fn test_decreasing_run_fires_only_in_decreasing_mode() {
    let mut data = vec![255u8; 8192];
    for i in 4096..4110 {
        data[i] = (255 - (i - 4096)) as u8;
    }

    let increasing = SeqChunking::new();
    assert_eq!(increasing.find_cutpoint(&data, 8192), 8192);

    let config = ChunkingConfig::builder()
        .op_mode(SeqOpMode::Decreasing)
        .build()
        .unwrap();
    let decreasing = SeqChunking::from_config(config);
    assert_eq!(decreasing.find_cutpoint(&data, 8192), 4101);
}

/// Statistics over 10000 bytes of a repeated value under the default
/// configuration: the total size is reported, at least one chunk exists,
/// and every chunk is `max_block_size` long except the final remainder.
#[test]
fn test_stats_uniform_buffer() {
    let chunker = SeqChunking::new();
    let data = vec![42u8; 10000];

    let stats = chunker.stats(&data);
    assert_eq!(stats.total_size, 10000);
    assert!(stats.chunk_count >= 1);
    assert_eq!(stats.size_sum, 10000);

    let max = chunker.max_block_size() as usize;
    let chunks = chunker.chunk_all_vec(&data);
    for (i, chunk) in chunks.iter().enumerate() {
        if i + 1 < chunks.len() {
            assert_eq!(chunk.len, max);
        }
    }
}

/// Statistics of an empty buffer: a defined, all-zero result.
#[test]
fn test_stats_empty_buffer() {
    let chunker = SeqChunking::new();
    let data: Vec<u8> = Vec::new();
    let stats = chunker.stats(&data);
    assert_eq!(stats.chunk_count, 0);
    assert_eq!(stats.total_size, 0);
    assert_eq!(stats.size_sum, 0);
    assert_eq!(stats.min_chunk_size, 0);
    assert_eq!(stats.max_chunk_size, 0);
}

/// Statistics report the extreme chunk sizes.
#[test]
fn test_stats_min_max() {
    let chunker = SeqChunking::new();
    let max = chunker.max_block_size() as usize;
    let data = vec![9u8; max + 100];
    let stats = chunker.stats(&data);
    assert_eq!(stats.chunk_count, 2);
    assert_eq!(stats.min_chunk_size, 100);
    assert_eq!(stats.max_chunk_size, max);
    assert_eq!(stats.size_sum, (max + 100) as u128);
}
