use relay::ipc::{check_ipc_batches, IPCWriteOptions};
use relay::madvise::{range_in_map, whole_map_advice, AccessPattern, Advice};

#[test]
fn test_default_pattern() {
    assert_eq!(AccessPattern::default(), AccessPattern::Sequential);
}

#[test]
fn whole_map_advice_per_pattern() {
    assert_eq!(whole_map_advice(AccessPattern::Sequential), Some(Advice::Sequential));
    assert_eq!(whole_map_advice(AccessPattern::Random), Some(Advice::Random));
    assert_eq!(whole_map_advice(AccessPattern::Normal), Some(Advice::Normal));
    assert_eq!(whole_map_advice(AccessPattern::Prefetch), None);
    assert_eq!(whole_map_advice(AccessPattern::Release), None);
}

#[test]
fn page_ranges_past_the_end_are_skipped() {
    assert!(range_in_map(0, 4096, 8192));
    assert!(range_in_map(4096, 4096, 8192));
    assert!(!range_in_map(0, 999999, 4096));
}

#[test]
fn ipc_options_and_batch_checks() {
    let o = IPCWriteOptions::default();
    assert!(o.compression.is_none());
    assert!(o.inline_metadata);
    assert!(check_ipc_batches(&[true, true, true]).is_ok());
    assert_eq!(check_ipc_batches(&[true, true, false, false]).unwrap_err().unwrap(), 2);
    let empty = check_ipc_batches(&[]).unwrap_err().unwrap_err();
    assert_eq!(empty.to_string(), "Schema error: cannot write IPC file with no batches");
}
