use seq_chunking::{Chunk, ChunkingError, SeqChunking, TestDataGenerator, ValidationUtils};

#[test]
fn test_chunk_verification() {
    let chunker = SeqChunking::new();
    let data = b"Test data for verification";

    let chunks = chunker.chunk_all_vec(data);
    let is_valid = ValidationUtils::verify_chunks(data, &chunks).unwrap();

    assert!(is_valid);
}

#[test]
fn test_chunk_coverage_validation() {
    let chunker = SeqChunking::new();
    let data = b"Test data for coverage validation";

    let chunks = chunker.chunk_all_vec(data);
    ValidationUtils::validate_chunk_coverage(data.len(), &chunks).unwrap();
}

#[test]
fn test_test_data_generation() {
    let data = TestDataGenerator::generate_increasing_sequences(1000, 10, 5);
    assert_eq!(data.len(), 1000);

    let data = TestDataGenerator::generate_decreasing_sequences(1000, 10, 5);
    assert_eq!(data.len(), 1000);

    let data = TestDataGenerator::generate_mixed_patterns(1000);
    assert_eq!(data.len(), 1000);

    let data = TestDataGenerator::generate_pseudo_random(1000, 42);
    assert_eq!(data.len(), 1000);
}

#[test]
fn test_verify_chunks_detects_mismatch() {
    let original = b"abcdef";
    let other = b"abcxef";
    let chunks = vec![Chunk::new(&other[..], 0, 6)];
    let is_valid = ValidationUtils::verify_chunks(original, &chunks).unwrap();
    assert!(!is_valid);
}

#[test]
fn test_coverage_empty_chunks_on_data() {
    let err = ValidationUtils::validate_chunk_coverage(5, &[]).unwrap_err();
    match err {
        ChunkingError::ProcessingError(msg) => {
            assert_eq!(msg, "No chunks found for non-empty data");
        }
        _ => panic!("expected ProcessingError"),
    }
}

#[test]
fn test_coverage_empty_chunks_on_empty_data() {
    assert!(ValidationUtils::validate_chunk_coverage(0, &[]).is_ok());
}

#[test]
fn test_coverage_rejects_gap() {
    let data = b"0123456789";
    let chunks = vec![Chunk::new(&data[0..4], 0, 4), Chunk::new(&data[5..10], 5, 5)];
    let err = ValidationUtils::validate_chunk_coverage(10, &chunks).unwrap_err();
    assert!(matches!(err, ChunkingError::ProcessingError(_)));
}

#[test]
fn test_coverage_rejects_empty_chunk() {
    let data = b"0123456789";
    let chunks = vec![
        Chunk::new(&data[0..4], 0, 4),
        Chunk::new(&data[4..4], 4, 0),
        Chunk::new(&data[4..10], 4, 6),
    ];
    let err = ValidationUtils::validate_chunk_coverage(10, &chunks).unwrap_err();
    match err {
        ChunkingError::ProcessingError(msg) => assert_eq!(msg, "chunk is empty"),
        _ => panic!("expected ProcessingError"),
    }
}

#[test]
fn test_coverage_rejects_short_end() {
    let data = b"0123456789";
    let chunks = vec![Chunk::new(&data[0..4], 0, 4)];
    let err = ValidationUtils::validate_chunk_coverage(10, &chunks).unwrap_err();
    match err {
        ChunkingError::ProcessingError(msg) => {
            assert_eq!(msg, "chunks do not end at the data length");
        }
        _ => panic!("expected ProcessingError"),
    }
}

#[test]
fn test_increasing_sequences_content() {
    // spacing = 1000 / 5 = 200: runs of ten bytes 0..=9 at offsets 0, 200,
    // 400, 600 and 800, zeroes elsewhere.
    let data = TestDataGenerator::generate_increasing_sequences(1000, 10, 5);
    assert_eq!(data[0], 0);
    assert_eq!(data[3], 3);
    assert_eq!(data[9], 9);
    assert_eq!(data[10], 0);
    assert_eq!(data[150], 0);
    assert_eq!(data[205], 5);
    assert_eq!(data[809], 9);
}

#[test]
fn test_decreasing_sequences_content() {
    // Runs count down from 255 over a background of 255.
    let data = TestDataGenerator::generate_decreasing_sequences(1000, 10, 5);
    assert_eq!(data[0], 255);
    assert_eq!(data[3], 252);
    assert_eq!(data[9], 246);
    assert_eq!(data[10], 255);
    assert_eq!(data[205], 250);
}

#[test]
fn test_mixed_patterns_content() {
    let data = TestDataGenerator::generate_mixed_patterns(1000);
    for i in 0..1000usize {
        let expected = match i % 10 {
            0..=4 => (i % 256) as u8,
            5..=7 => (255 - (i % 256)) as u8,
            _ => ((i * 7) % 256) as u8,
        };
        assert_eq!(data[i], expected);
    }
}

#[test]
fn test_pseudo_random_is_deterministic() {
    let a = TestDataGenerator::generate_pseudo_random(256, 42);
    let b = TestDataGenerator::generate_pseudo_random(256, 42);
    assert_eq!(a, b);

    let first_state = 42u64.wrapping_mul(1103515245).wrapping_add(12345);
    assert_eq!(a[0], ((first_state >> 16) & 0xff) as u8);
    let second_state = first_state.wrapping_mul(1103515245).wrapping_add(12345);
    assert_eq!(a[1], ((second_state >> 16) & 0xff) as u8);
}
