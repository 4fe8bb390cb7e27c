use pcf_parser::cli::parse_args;
use pcf_parser::cli::parse_byte_range;
use pcf_parser::cli::Command;

fn args_of(list: &[&str]) -> Vec<String> {
    list.iter().map(|s| s.to_string()).collect()
}

#[test]
fn test_cli_parse_command() {
    let args = args_of(&["pcf", "parse", "file.pcf"]);
    let cmd = parse_args(&args).unwrap();
    match cmd {
        Command::Parse { file, json } => {
            assert_eq!(file, "file.pcf");
            assert!(!json);
        },
        _ => panic!("Expected Parse command"),
    }
}

#[test]
fn test_cli_parse_command_with_json() {
    let args = args_of(&["pcf", "parse", "file.pcf", "--json"]);
    let cmd = parse_args(&args).unwrap();
    match cmd {
        Command::Parse { file, json } => {
            assert_eq!(file, "file.pcf");
            assert!(json);
        },
        _ => panic!("Expected Parse command with --json"),
    }
}

#[test]
fn test_cli_dump_command() {
    let args = args_of(&["pcf", "dump", "file.pcf", "--bytes", "32"]);
    let cmd = parse_args(&args).unwrap();
    match cmd {
        Command::Dump { file, bytes } => {
            assert_eq!(file, "file.pcf");
            assert_eq!(bytes, 32);
        },
        _ => panic!("Expected Dump command"),
    }
}

#[test]
fn test_cli_diff_command() {
    let args = args_of(&["pcf", "diff", "a.pcf", "b.pcf", "--context", "4"]);
    let cmd = parse_args(&args).unwrap();
    match cmd {
        Command::Diff { file_a, file_b, context } => {
            assert_eq!(file_a, "a.pcf");
            assert_eq!(file_b, "b.pcf");
            assert_eq!(context, 4);
        },
        _ => panic!("Expected Diff command"),
    }
}

#[test]
fn test_cli_diffblocks_command() {
    let args = args_of(&["pcf", "diff-blocks", "a.pcf", "b.pcf", "--block", "20", "--max", "2"]);
    let cmd = parse_args(&args).unwrap();
    match cmd {
        Command::DiffBlocks { file_a, file_b, block, max } => {
            assert_eq!(file_a, "a.pcf");
            assert_eq!(file_b, "b.pcf");
            assert_eq!(block, 20);
            assert_eq!(max, 2);
        },
        _ => panic!("Expected DiffBlocks command"),
    }
}

#[test]
fn test_cli_write_command() {
    let args = args_of(&["pcf", "write", "input.json", "output.pcf"]);
    let cmd = parse_args(&args).unwrap();
    match cmd {
        Command::Write { json_in, pcf_out } => {
            assert_eq!(json_in, "input.json");
            assert_eq!(pcf_out, "output.pcf");
        },
        _ => panic!("Expected Write command"),
    }
}

#[test]
fn cli_defaults_are_filled_in() {
    let cmd = parse_args(&args_of(&["pcf", "dump", "f"])).unwrap();
    assert!(matches!(cmd, Command::Dump { bytes: 16, .. }));
    let cmd = parse_args(&args_of(&["pcf", "diff", "a", "b"])).unwrap();
    assert!(matches!(cmd, Command::Diff { context: 8, .. }));
    let cmd = parse_args(&args_of(&["pcf", "diff-blocks", "a", "b"])).unwrap();
    assert!(matches!(cmd, Command::DiffBlocks { block: 18, max: 10, .. }));
}

#[test]
fn cli_rejects_bad_invocations() {
    assert!(parse_args(&args_of(&["pcf"])).is_err());
    assert!(parse_args(&args_of(&["pcf", "frobnicate"])).is_err());
    assert!(parse_args(&args_of(&["pcf", "parse"])).is_err());
    assert!(parse_args(&args_of(&["pcf", "parse", "a", "b"])).is_err());
    assert!(parse_args(&args_of(&["pcf", "parse", "a", "--unknown"])).is_err());
    assert!(parse_args(&args_of(&["pcf", "dump", "f", "--bytes"])).is_err());
    assert!(parse_args(&args_of(&["pcf", "dump", "f", "--bytes", "0"])).is_err());
    assert!(parse_args(&args_of(&["pcf", "dump", "f", "--bytes", "65"])).is_err());
    assert!(parse_args(&args_of(&["pcf", "diff", "a", "b", "--context", "x"])).is_err());
}

#[test]
fn byte_range_accepts_1_to_64() {
    assert_eq!(parse_byte_range("1"), Ok(1));
    assert_eq!(parse_byte_range("32"), Ok(32));
    assert_eq!(parse_byte_range("64"), Ok(64));
    assert_eq!(parse_byte_range("+8"), Ok(8));
}

#[test]
fn byte_range_rejects_with_messages() {
    assert_eq!(
        parse_byte_range("abc"),
        Err("`abc` isn’t a number".to_string())
    );
    assert_eq!(
        parse_byte_range("-3"),
        Err("`-3` isn’t a number".to_string())
    );
    assert_eq!(
        parse_byte_range("0"),
        Err("must be in range 1..=64 (got 0)".to_string())
    );
    assert_eq!(
        parse_byte_range("100"),
        Err("must be in range 1..=64 (got 100)".to_string())
    );
}
