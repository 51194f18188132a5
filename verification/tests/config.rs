use seq_chunking::{ChunkingConfig, SeqOpMode, DEFAULT_SEQ_THRESHOLD};

#[test]
fn test_default_config() {
    let config = ChunkingConfig::new();
    assert_eq!(config.seq_threshold(), DEFAULT_SEQ_THRESHOLD);
    assert_eq!(config.op_mode(), SeqOpMode::Increasing);
    assert!(config.validate().is_ok());
}

#[test]
fn test_builder_pattern() {
    let config = ChunkingConfig::builder()
        .seq_threshold(10)
        .min_block_size(2048)
        .max_block_size(32768)
        .op_mode(SeqOpMode::Decreasing)
        .build()
        .unwrap();

    assert_eq!(config.seq_threshold(), 10);
    assert_eq!(config.min_block_size(), 2048);
    assert_eq!(config.max_block_size(), 32768);
    assert_eq!(config.op_mode(), SeqOpMode::Decreasing);
}

#[test]
fn test_invalid_config() {
    let result = ChunkingConfig::builder().seq_threshold(0).build();

    assert!(result.is_err());
}

#[test]
fn test_invalid_block_sizes() {
    let result = ChunkingConfig::builder()
        .min_block_size(8192)
        .max_block_size(4096) // max < min
        .build();

    assert!(result.is_err());
}

#[test]
fn test_zero_seq_threshold_message_names_the_rule() {
    let err = ChunkingConfig::builder().seq_threshold(0).build().unwrap_err();
    match err {
        seq_chunking::ChunkingError::InvalidConfig(msg) => {
            assert_eq!(msg, "seq_threshold must be greater than 0");
        }
        _ => panic!("expected InvalidConfig"),
    }
}

#[test]
fn test_size_ordering_message_names_the_rule() {
    let err = ChunkingConfig::builder()
        .min_block_size(8192)
        .max_block_size(4096)
        .build()
        .unwrap_err();
    match err {
        seq_chunking::ChunkingError::InvalidConfig(msg) => {
            assert_eq!(msg, "max_block_size must be >= min_block_size");
        }
        _ => panic!("expected InvalidConfig"),
    }
}

#[test]
fn test_zero_min_block_size_rejected() {
    let err = ChunkingConfig::builder().min_block_size(0).build().unwrap_err();
    match err {
        seq_chunking::ChunkingError::InvalidConfig(msg) => {
            assert_eq!(msg, "min_block_size must be greater than 0");
        }
        _ => panic!("expected InvalidConfig"),
    }
}

#[test]
fn test_zero_jump_size_rejected() {
    let err = ChunkingConfig::builder().jump_size(0).build().unwrap_err();
    match err {
        seq_chunking::ChunkingError::InvalidConfig(msg) => {
            assert_eq!(msg, "jump_size must be greater than 0");
        }
        _ => panic!("expected InvalidConfig"),
    }
}

#[test]
fn test_build_unchecked_keeps_parameters() {
    let config = ChunkingConfig::builder()
        .seq_threshold(0)
        .jump_trigger(7)
        .jump_size(9)
        .avg_block_size(1234)
        .build_unchecked();
    assert_eq!(config.seq_threshold(), 0);
    assert_eq!(config.jump_trigger(), 7);
    assert_eq!(config.jump_size(), 9);
    assert_eq!(config.avg_block_size(), 1234);
    assert!(config.validate().is_err());
}

#[test]
fn test_default_op_mode_is_increasing() {
    assert_eq!(SeqOpMode::default(), SeqOpMode::Increasing);
}

#[test]
fn test_try_from_config_validates() {
    let bad = ChunkingConfig::builder().seq_threshold(0).build_unchecked();
    assert!(seq_chunking::SeqChunking::try_from_config(bad).is_err());

    let good = ChunkingConfig::new();
    let chunker = seq_chunking::SeqChunking::try_from_config(good).unwrap();
    assert_eq!(chunker.min_block_size(), 4096);
    assert_eq!(chunker.max_block_size(), 16384);
}
