use pcf_parser::pattern::parse_pcf_bytes;
use pcf_parser::pattern::write_pcf_bytes;
use pcf_parser::PatternFileData;
use pcf_parser::PcfError;

/// Build a sample record with non-trivial content in every field.
fn sample_pattern_data() -> PatternFileData {
    let mut data = PatternFileData {
        compiled_flag: true,
        version: "v1.2".into(),
        source_combo_index: 3,
        pclk_source_indices: vec![1, 2, 3, 4, 5, 6, 7, 8],
        vtime_reqd: vec![String::new(); 9],
        cycle_time: vec![String::new(); 9],
        pulse_time: vec![String::new(); 9],
        clk_sources: vec![String::new(); 65],
        start_addrs: vec![10; 8],
        end_addrs: vec![20; 8],
        loop_counts: vec![2; 8],
        pattern_file_length: 5,
        pattern_data: vec![vec![0u8; 25]; 18],
    };

    for i in 0..9 {
        data.vtime_reqd[i] = format!("VT{}", i);
        data.cycle_time[i] = format!("CT{}", i);
        data.pulse_time[i] = format!("PT{}", i);
    }

    for i in 1..=64 {
        data.clk_sources[i] = format!("CLK{:02}", i);
    }

    for bit in 0..18 {
        for col in 0..25 {
            data.pattern_data[bit][col] = ((bit + col) % 256) as u8;
        }
    }

    data
}

#[test]
fn round_trip_parse_write() {
    let original = sample_pattern_data();
    let bytes = write_pcf_bytes(&original).expect("write failed");
    let parsed = parse_pcf_bytes(&bytes).expect("parse failed");
    assert_eq!(original, parsed, "original vs parsed mismatch");
}

#[test]
fn round_trip_negative_and_empty_fields() {
    let mut data = sample_pattern_data();
    data.compiled_flag = false;
    data.version = String::new();
    data.source_combo_index = -42;
    data.start_addrs = vec![-999999999; 8];
    data.vtime_reqd[3] = String::new();
    let bytes = write_pcf_bytes(&data).expect("write failed");
    let parsed = parse_pcf_bytes(&bytes).expect("parse failed");
    assert_eq!(data, parsed);
}

#[test]
fn encoded_layout_is_exact() {
    let data = sample_pattern_data();
    let bytes = write_pcf_bytes(&data).expect("write failed");
    assert_eq!(bytes.len(), 1260 + 18 * 25);
    // header: flag token, one space, version, space padded to 10
    assert_eq!(&bytes[0..10], b"True v1.2 ");
    // source combo index in decimal
    assert_eq!(&bytes[10..20], b"3         ");
    // first clock selector
    assert_eq!(&bytes[20..30], b"1         ");
    // vtime slot 8 stands first on disk at offset 100, then slots 0..7
    assert_eq!(&bytes[100..110], b"VT8       ");
    assert_eq!(&bytes[110..120], b"VT0       ");
    // clock source 1 at offset 370
    assert_eq!(&bytes[370..380], b"CLK01     ");
    // first channel triple at offset 1010
    assert_eq!(&bytes[1010..1020], b"10        ");
    assert_eq!(&bytes[1020..1030], b"20        ");
    assert_eq!(&bytes[1030..1040], b"2         ");
    // pattern length at offset 1250
    assert_eq!(&bytes[1250..1260], b"5         ");
    // matrix is column major: first column holds rows 0..18 of column 0
    for bit in 0..18 {
        assert_eq!(bytes[1260 + bit], (bit % 256) as u8);
    }
}

#[test]
fn truncated_text_field_is_lossy() {
    let mut data = sample_pattern_data();
    data.vtime_reqd[0] = "ABCDEFGHIJKLMNOP".to_string();
    let bytes = write_pcf_bytes(&data).expect("write failed");
    let parsed = parse_pcf_bytes(&bytes).expect("parse failed");
    // the field came back as its first 10 bytes, not the original
    assert_eq!(parsed.vtime_reqd[0], "ABCDEFGHIJ");
    assert_ne!(parsed.vtime_reqd[0], data.vtime_reqd[0]);
}

#[test]
fn slot_ordering_survives_round_trip() {
    let mut data = sample_pattern_data();
    data.vtime_reqd[8] = "GLOBAL".to_string();
    for i in 0..8 {
        data.vtime_reqd[i] = format!("slot{}", i);
    }
    let bytes = write_pcf_bytes(&data).expect("write failed");
    let parsed = parse_pcf_bytes(&bytes).expect("parse failed");
    assert_eq!(parsed.vtime_reqd[8], "GLOBAL");
    for i in 0..8 {
        assert_eq!(parsed.vtime_reqd[i], format!("slot{}", i));
    }
}

#[test]
fn matrix_shape_round_trips() {
    let mut data = sample_pattern_data();
    data.pattern_file_length = 5;
    data.pattern_data = vec![vec![0u8; 25]; 18];
    for bit in 0..18 {
        for col in 0..25 {
            data.pattern_data[bit][col] = ((3 * bit + 7 * col) % 256) as u8;
        }
    }
    let bytes = write_pcf_bytes(&data).expect("write failed");
    let parsed = parse_pcf_bytes(&bytes).expect("parse failed");
    assert_eq!(parsed.pattern_data.len(), 18);
    for bit in 0..18 {
        assert_eq!(parsed.pattern_data[bit].len(), 25);
    }
    assert_eq!(parsed.pattern_data, data.pattern_data);
}

#[test]
fn clk_source_zero_is_never_read() {
    let data = sample_pattern_data();
    let mut bytes = write_pcf_bytes(&data).expect("write failed");
    // scribble over bytes that belong to no field: decode must not see them
    // in clk_sources[0], which is never read from disk
    let parsed = parse_pcf_bytes(&bytes).expect("parse failed");
    assert_eq!(parsed.clk_sources[0], "");
    // even when every persisted clock slot holds text
    for i in 370..1010 {
        bytes[i] = b'X';
    }
    let parsed = parse_pcf_bytes(&bytes).expect("parse failed");
    assert_eq!(parsed.clk_sources[0], "");
    assert_eq!(parsed.clk_sources[1], "XXXXXXXXXX");
}

#[test]
fn malformed_numeric_field_decodes_to_zero() {
    let data = sample_pattern_data();
    let mut bytes = write_pcf_bytes(&data).expect("write failed");
    bytes[10..20].copy_from_slice(b"HELLO     ");
    let parsed = parse_pcf_bytes(&bytes).expect("parse failed");
    assert_eq!(parsed.source_combo_index, 0);
}

#[test]
fn truncated_file_fails_to_decode() {
    let data = sample_pattern_data();
    let bytes = write_pcf_bytes(&data).expect("write failed");
    let short = &bytes[0..100];
    assert_eq!(parse_pcf_bytes(short), Err(PcfError::Truncated));
    // a header that promises more matrix bytes than follow also fails
    let missing_matrix = &bytes[0..1260];
    assert_eq!(parse_pcf_bytes(missing_matrix), Err(PcfError::Truncated));
}

#[test]
fn encode_rejects_wrong_clk_sources_length() {
    let mut data = sample_pattern_data();
    data.clk_sources.pop();
    assert_eq!(write_pcf_bytes(&data), Err(PcfError::ClkSourcesLen));
}

#[test]
fn encode_rejects_wrong_matrix_shape() {
    let mut data = sample_pattern_data();
    data.pattern_data[7] = vec![0u8; 24];
    assert_eq!(write_pcf_bytes(&data), Err(PcfError::MatrixShape));
    let mut data = sample_pattern_data();
    data.pattern_data.pop();
    assert_eq!(write_pcf_bytes(&data), Err(PcfError::MatrixShape));
}

#[test]
fn non_utf8_field_bytes_decode_with_replacement() {
    let data = sample_pattern_data();
    let mut bytes = write_pcf_bytes(&data).expect("write failed");
    // an invalid UTF-8 byte in a text field decodes as the replacement
    // character rather than failing
    bytes[100] = 0xFF;
    bytes[101] = b'A';
    for i in 102..110 {
        bytes[i] = b' ';
    }
    let parsed = parse_pcf_bytes(&bytes).expect("parse failed");
    assert_eq!(parsed.vtime_reqd[8], "\u{FFFD}A");
}

#[test]
fn header_flag_parses_case_insensitively() {
    let data = sample_pattern_data();
    let mut bytes = write_pcf_bytes(&data).expect("write failed");
    bytes[0..10].copy_from_slice(b"TRUE x    ");
    let parsed = parse_pcf_bytes(&bytes).expect("parse failed");
    assert!(parsed.compiled_flag);
    assert_eq!(parsed.version, "x");
    bytes[0..10].copy_from_slice(b"maybe y   ");
    let parsed = parse_pcf_bytes(&bytes).expect("parse failed");
    assert!(!parsed.compiled_flag);
    assert_eq!(parsed.version, "y");
}

#[test]
fn out_of_range_numeric_field_decodes_to_zero() {
    let data = sample_pattern_data();
    let mut bytes = write_pcf_bytes(&data).expect("write failed");
    bytes[10..20].copy_from_slice(b"9999999999");
    let parsed = parse_pcf_bytes(&bytes).expect("parse failed");
    assert_eq!(parsed.source_combo_index, 0);
    bytes[10..20].copy_from_slice(b"-214748364");
    let parsed = parse_pcf_bytes(&bytes).expect("parse failed");
    assert_eq!(parsed.source_combo_index, -214748364);
}
