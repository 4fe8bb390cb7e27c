use pcf_parser::utils::diff_block_indices;
use pcf_parser::utils::first_diff;
use pcf_parser::utils::to_char;

#[test]
fn diff_files_detects_change() {
    let a = b"FOO_BAR";
    let b = b"FOO-XAR";
    assert_eq!(first_diff(a, b), Some(3));
}

#[test]
fn diff_blocks_detects_change() {
    // two blocks of 4 bytes; flip one byte in the second block
    let block = vec![1u8, 2, 3, 4];
    let mut data_a = block.clone();
    data_a.extend_from_slice(&block);
    let mut data_b = data_a.clone();
    data_b[5] ^= 0xFF;
    assert_eq!(diff_block_indices(&data_a, &data_b, 4, 5), vec![1]);
}

#[test]
fn first_diff_pads_the_shorter_file_with_zeros() {
    assert_eq!(first_diff(b"AB", b"AB"), None);
    // the longer file differs from the zero padding at its third byte
    assert_eq!(first_diff(b"ABC", b"AB"), Some(2));
    // a trailing zero byte matches the padding, so no difference is found
    assert_eq!(first_diff(&[65, 66, 0], b"AB"), None);
    assert_eq!(first_diff(b"", b""), None);
}

#[test]
fn diff_blocks_caps_the_report() {
    let a = vec![0u8; 12];
    let b = vec![1u8; 12];
    // all three 4-byte blocks differ, but only the first two are reported
    assert_eq!(diff_block_indices(&a, &b, 4, 2), vec![0, 1]);
    // a zero cap still reports the first differing block
    assert_eq!(diff_block_indices(&a, &b, 4, 0), vec![0]);
    // a partial tail block reads as empty on both sides: 8 bytes vs 7
    let c = vec![0u8; 7];
    let d = vec![0u8; 8];
    assert_eq!(diff_block_indices(&d, &c, 4, 10), vec![1]);
}

#[test]
fn to_char_shows_printable_bytes() {
    assert_eq!(to_char(b'A'), 'A');
    assert_eq!(to_char(b' '), ' ');
    assert_eq!(to_char(b'~'), '~');
    assert_eq!(to_char(0x00), '.');
    assert_eq!(to_char(0x1F), '.');
    assert_eq!(to_char(0x7F), '.');
    assert_eq!(to_char(0xFF), '.');
}
