use seq_chunking::{Chunk, ChunkingConfig, SeqChunking, SeqOpMode};

#[test]
fn test_seq_chunking_new() {
    let chunker = SeqChunking::new();
    assert_eq!(chunker.technique_name(), "Seq Chunking");
    assert_eq!(chunker.config().seq_threshold, 5);
}

#[test]
fn test_seq_chunking_from_config() {
    let config = ChunkingConfig::builder().seq_threshold(10).build().unwrap();
    let chunker = SeqChunking::from_config(config);
    assert_eq!(chunker.config().seq_threshold, 10);
}

#[test]
fn test_find_cutpoint_small_size() {
    let chunker = SeqChunking::new();
    let data = vec![1, 2, 3, 4, 5];
    let result = chunker.find_cutpoint(&data, 512);
    assert_eq!(result, 512);
}

#[test]
fn test_find_cutpoint_increasing() {
    let chunker = SeqChunking::new();
    let mut data = vec![0u8; 8192];

    for i in 4096..4110 {
        data[i] = (i - 4096) as u8;
    }

    let result = chunker.find_cutpoint(&data, 8192);
    assert!(result < 8192);
    assert!(result > 4096);
}

#[test]
fn test_chunk_iterator() {
    let chunker = SeqChunking::new();
    let data = b"Hello, World! This is a test.";

    let mut chunks = Vec::new();
    let mut it = chunker.chunk_all(data);
    while let Some(chunk) = it.next() {
        chunks.push(chunk);
    }

    assert!(!chunks.is_empty());

    // Verify reconstruction
    let reconstructed: Vec<u8> = chunks
        .iter()
        .flat_map(|chunk| chunk.data.iter())
        .copied()
        .collect();

    assert_eq!(reconstructed, data);
}

#[test]
fn test_chunking_stats() {
    let chunker = SeqChunking::new();
    let data = vec![42u8; 10000];

    let stats = chunker.stats(&data);
    assert_eq!(stats.total_size, 10000);
    assert!(stats.chunk_count > 0);
    let avg_chunk_size = stats.size_sum as f64 / stats.chunk_count as f64;
    assert!(avg_chunk_size > 0.0);
}

#[test]
fn test_decreasing_mode() {
    let config = ChunkingConfig::builder()
        .op_mode(SeqOpMode::Decreasing)
        .build()
        .unwrap();
    let chunker = SeqChunking::from_config(config);

    let mut data = vec![255u8; 8192];
    for i in 4096..4110 {
        data[i] = (255 - (i - 4096)) as u8;
    }

    let result = chunker.find_cutpoint(&data, 8192);
    assert!(result < 8192);
    assert!(result > 4096);
}

#[test]
fn test_chunk_properties() {
    let data = b"test data";
    let chunk = Chunk::new(data, 0, data.len());

    assert_eq!(chunk.start, 0);
    assert_eq!(chunk.len, data.len());
    assert_eq!(chunk.end(), data.len());
    assert!(!chunk.is_empty());
    assert_eq!(chunk.data, data);
}

#[test]
fn test_library_basic_usage() {
    let chunker = SeqChunking::new();
    let data = b"Hello, World! This is a test of the chunking library.";

    let chunks = chunker.chunk_all_vec(data);

    // Verify that we got at least one chunk
    assert!(!chunks.is_empty());

    // Verify that all chunks combined equal the original data
    let reconstructed: Vec<u8> = chunks
        .iter()
        .flat_map(|chunk| chunk.data.iter())
        .copied()
        .collect();

    assert_eq!(reconstructed, data);
}
