use relay::config::{MmapStrategy, RelayConfig};
use relay::error::RelayError;

#[test]
fn test_default_config() {
    let config = RelayConfig::default();
    assert!(config.num_workers > 0);
    assert_eq!(config.morsel_size, 2048);
    assert_eq!(config.buffer_block_size, 256 * 1024);
    assert!(config.enable_spill);
    assert!(config.enable_simd);
    assert!(config.enable_optimizer);
    assert!(!config.enable_mem_trace);
}

#[test]
fn test_builder_pattern() {
    let config = RelayConfig::new()
        .with_workers(8)
        .with_morsel_size(4096)
        .with_memory_budget(8 * 1024 * 1024 * 1024)
        .with_mem_trace(true);
    assert_eq!(config.num_workers, 8);
    assert_eq!(config.morsel_size, 4096);
    assert_eq!(config.memory_budget, 8 * 1024 * 1024 * 1024);
    assert!(config.enable_mem_trace);
}

#[test]
fn test_mmap_strategy() {
    let config = RelayConfig::default();
    assert_eq!(config.mmap_strategy, MmapStrategy::Lazy);
}

#[test]
fn test_config_clone() {
    let config = RelayConfig::new().with_workers(16);
    let cloned = config.clone();
    assert_eq!(config.num_workers, cloned.num_workers);
}

#[test]
fn config_from_machine_parallelism() {
    let config = RelayConfig::with_parallelism(Some(12));
    assert_eq!(config.num_workers, 12);
    assert_eq!(config.memory_budget, 0);
    assert_eq!(config.spill_dir, None);
    assert_eq!(RelayConfig::with_parallelism(None).num_workers, 4);
}

#[test]
fn test_schema_error_display() {
    let err = RelayError::Schema("missing column x".to_string());
    assert_eq!(err.to_string(), "Schema error: missing column x");
}

#[test]
fn test_type_error_display() {
    let err = RelayError::Type {
        expected: "Int64".to_string(),
        actual: "Utf8".to_string(),
    };
    assert!(err.to_string().contains("expected Int64"));
    assert!(err.to_string().contains("got Utf8"));
}

#[test]
fn test_oob_error_display() {
    let err = RelayError::OutOfBounds { index: 5, len: 3 };
    assert!(err.to_string().contains("index 5"));
    assert!(err.to_string().contains("len is 3"));
}

#[test]
fn test_io_error_conversion() {
    let io_err = std::io::Error::new(std::io::ErrorKind::NotFound, "file not found");
    let relay_err: RelayError = io_err.into();
    assert!(matches!(relay_err, RelayError::Io(_)));
}

#[test]
fn test_not_implemented_error() {
    let err = RelayError::NotImplemented("GPU execution".to_string());
    assert!(err.to_string().contains("GPU execution"));
}

#[test]
fn test_invalid_argument_error() {
    let err = RelayError::InvalidArgument("negative batch size".to_string());
    assert!(err.to_string().contains("negative batch size"));
}

#[test]
fn test_execution_error() {
    let err = RelayError::Execution("join failed".to_string());
    assert!(err.to_string().contains("join failed"));
}

#[test]
fn test_memory_error() {
    let err = RelayError::Memory("allocation failed".to_string());
    assert!(err.to_string().contains("allocation failed"));
}

#[test]
fn error_messages_exact() {
    assert_eq!(
        RelayError::Type { expected: "Int64".to_string(), actual: "Utf8".to_string() }.to_string(),
        "Type error: expected Int64, got Utf8"
    );
    assert_eq!(
        RelayError::OutOfBounds { index: 5, len: 3 }.to_string(),
        "Index out of bounds: index 5 but len is 3"
    );
    assert_eq!(RelayError::Arrow("bad".to_string()).to_string(), "Arrow error: bad");
    assert_eq!(RelayError::Expr("e".to_string()).to_string(), "Expression error: e");
    let io: RelayError = std::io::Error::new(std::io::ErrorKind::NotFound, "file not found").into();
    assert_eq!(io.to_string(), "IO error: file not found");
}
