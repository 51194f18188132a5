use seq_chunking::ChunkingError;

#[test]
fn test_error_display() {
    let err = ChunkingError::invalid_config("test message");
    assert_eq!(err.to_string(), "Invalid configuration: test message");
}

#[test]
fn test_error_from_io() {
    let io_err = std::io::Error::new(std::io::ErrorKind::NotFound, "file not found");
    let chunk_err: ChunkingError = io_err.into();

    match chunk_err {
        ChunkingError::IoError(_) => (),
        _ => panic!("Expected IoError"),
    }
}

#[test]
fn test_error_constructors_and_messages() {
    let err = ChunkingError::invalid_input("bad bytes");
    assert_eq!(err.to_string(), "Invalid input: bad bytes");
    assert!(matches!(err, ChunkingError::InvalidInput(_)));

    let err = ChunkingError::processing_error("went wrong");
    assert_eq!(err.to_string(), "Processing error: went wrong");
    assert!(matches!(err, ChunkingError::ProcessingError(_)));

    let err = ChunkingError::io_error("disk on fire");
    assert_eq!(err.to_string(), "I/O error: disk on fire");
    assert!(matches!(err, ChunkingError::IoError(_)));
}
