use relay::csv_simd::{
    broadcast, compress_hi, eq_bytes, find_byte_positions, find_field_delimiters,
    find_record_boundaries_simd, QuoteParity,
};

#[test]
fn test_broadcast() {
    assert_eq!(broadcast(b','), 0x2C2C_2C2C_2C2C_2C2Cu64);
}

#[test]
fn test_eq_bytes_basic() {
    let word = u64::from_le_bytes(*b"hello,wo");
    let mask = eq_bytes(word, b',');
    let bits = compress_hi(mask);
    assert_eq!(bits & (1 << 5), 1 << 5);
    assert_eq!(bits & 1, 0);
}

#[test]
fn eq_bytes_is_exact_next_to_a_match() {
    // A byte one above the target directly after a match is not reported.
    let word = u64::from_le_bytes(*b",-,-----");
    let bits = compress_hi(eq_bytes(word, b','));
    assert_eq!(bits, 0b0000_0101);
    assert_eq!(find_byte_positions(b",-,-----,-", b','), vec![0, 2, 8]);
}

#[test]
fn test_find_byte_positions() {
    let data = b"a,b,c\n1,2,3\n";
    let commas = find_byte_positions(data, b',');
    assert_eq!(commas, vec![1, 3, 7, 9]);
    let newlines = find_byte_positions(data, b'\n');
    assert_eq!(newlines, vec![5, 11]);
}

#[test]
fn test_find_byte_positions_no_target() {
    let data = b"abcdef";
    let positions = find_byte_positions(data, b'z');
    assert!(positions.is_empty());
}

#[test]
fn test_quote_parity() {
    let qp = QuoteParity::new(&[0, 6], 13);
    assert!(!qp.is_quoted(0));
    assert!(qp.is_quoted(1));
    assert!(qp.is_quoted(5));
    assert!(!qp.is_quoted(7));
    assert!(!qp.is_quoted(12));
}

#[test]
fn quote_parity_ignores_repeats_and_out_of_range() {
    let qp = QuoteParity::new(&[2, 2, 40], 10);
    assert!(!qp.is_quoted(2));
    assert!(qp.is_quoted(3));
    assert!(qp.is_quoted(10));
}

#[test]
fn test_find_record_boundaries_simd_basic() {
    let data = b"a,b\n1,2\n3,4\n";
    let bounds = find_record_boundaries_simd(data, b'"');
    assert_eq!(bounds, vec![3, 7, 11]);
}

#[test]
fn test_find_record_boundaries_simd_quoted_newlines() {
    let data = b"a,b\n\"hello\nworld\",2\n";
    let bounds = find_record_boundaries_simd(data, b'"');
    assert_eq!(bounds, vec![3, 19]);
}

#[test]
fn test_find_record_boundaries_simd_no_trailing_newline() {
    let data = b"a,b\n1,2";
    let bounds = find_record_boundaries_simd(data, b'"');
    assert_eq!(bounds, vec![3, 7]);
}

#[test]
fn record_boundaries_of_empty_and_quote_only_words() {
    assert!(find_record_boundaries_simd(b"", b'"').is_empty());
    // A word with quotes but no line feed flips the state for the next word.
    let data = b"\"abcdefg\nhijklmn\"\nxyz";
    assert_eq!(find_record_boundaries_simd(data, b'"'), vec![17, 21]);
}

#[test]
fn test_find_field_delimiters() {
    let data = b"a,b,c,d";
    let delims = find_field_delimiters(data, 0, 7, b',', b'"');
    assert_eq!(delims, vec![1, 3, 5]);
}

#[test]
fn test_find_field_delimiters_quoted() {
    let data = b"\"a,b\",c,d";
    let delims = find_field_delimiters(data, 0, 9, b',', b'"');
    assert_eq!(delims, vec![5, 7]);
}

#[test]
fn field_delimiters_are_shifted_by_start() {
    let data = b"xx\n1,\"2,3\",4\n";
    assert_eq!(find_field_delimiters(data, 3, 12, b',', b'"'), vec![4, 10]);
}

#[test]
fn test_swar_large_data() {
    let mut data = Vec::new();
    for i in 0..100 {
        data.extend_from_slice(format!("{},{}\n", i, i * 2).as_bytes());
    }
    let bounds = find_record_boundaries_simd(&data, b'"');
    assert_eq!(bounds.len(), 100);
}
