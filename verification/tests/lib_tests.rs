use headr::Config;
use headr::HeadError;
use headr::Mode;
use headr::SourceOutcome;
use headr::error_message;
use headr::get_args;
use headr::head_bytes;
use headr::head_lines;
use headr::header_line;
use headr::parse_positive;
use headr::run;

fn args_of(v: &[&str]) -> Vec<String> {
    v.iter().map(|s| s.to_string()).collect()
}

#[test]
fn test_parse_positive() {
    let p42 = parse_positive("42");
    assert!(p42.is_ok());
    assert_eq!(p42.unwrap(), 42);

    let pstr = parse_positive("foo");
    assert!(pstr.is_err());
    assert_eq!(pstr.unwrap_err().to_string(), "foo");

    let p0 = parse_positive("0");
    assert!(p0.is_err());
    assert_eq!(p0.unwrap_err().to_string(), "0");
}

#[test]
fn parse_positive_signs_and_overflow() {
    assert_eq!(parse_positive("+7").unwrap(), 7);
    assert_eq!(parse_positive("10").unwrap(), 10);
    assert_eq!(parse_positive("-3").unwrap_err(), "-3");
    assert_eq!(parse_positive("").unwrap_err(), "");
    assert_eq!(parse_positive("+").unwrap_err(), "+");
    assert_eq!(parse_positive("4 2").unwrap_err(), "4 2");
    let huge = "99999999999999999999999999";
    assert_eq!(parse_positive(huge).unwrap_err(), huge);
}

#[test]
fn get_args_defaults() {
    let c = get_args(args_of(&["headr"])).unwrap();
    assert_eq!(c.files, vec!["-".to_string()]);
    assert_eq!(c.mode, Mode::Lines(10));
}

#[test]
fn get_args_files_and_lines() {
    let c = get_args(args_of(&["headr", "a.txt", "-n", "3", "b.txt"])).unwrap();
    assert_eq!(c.files, vec!["a.txt".to_string(), "b.txt".to_string()]);
    assert_eq!(c.mode, Mode::Lines(3));
}

#[test]
fn get_args_long_forms() {
    let c = get_args(args_of(&["headr", "--lines", "4", "x"])).unwrap();
    assert_eq!(c.mode, Mode::Lines(4));
    let c = get_args(args_of(&["headr", "--bytes", "8", "x"])).unwrap();
    assert_eq!(c.mode, Mode::Bytes(8));
}

#[test]
fn get_args_byte_mode() {
    let c = get_args(args_of(&["headr", "-c", "5", "x"])).unwrap();
    assert_eq!(c.files, vec!["x".to_string()]);
    assert_eq!(c.mode, Mode::Bytes(5));
}

#[test]
fn get_args_dash_is_a_source() {
    let c = get_args(args_of(&["headr", "-", "f"])).unwrap();
    assert_eq!(c.files, vec!["-".to_string(), "f".to_string()]);
}

#[test]
fn get_args_conflict() {
    let e = get_args(args_of(&["headr", "-n", "1", "-c", "2"])).unwrap_err();
    assert!(matches!(e, HeadError::ModeConflict));
    let e = get_args(args_of(&["headr", "-c", "2", "-n", "1"])).unwrap_err();
    assert!(matches!(e, HeadError::ModeConflict));
    assert_eq!(
        error_message(&e),
        "the line count and byte count options cannot be used together"
    );
}

#[test]
fn get_args_illegal_line_count() {
    let e = get_args(args_of(&["headr", "-n", "foo"])).unwrap_err();
    match &e {
        HeadError::IllegalLineCount(raw) => assert_eq!(raw, "foo"),
        _ => panic!("expected an illegal line count"),
    }
    assert_eq!(error_message(&e), "illegal line count -- foo");
}

#[test]
fn get_args_illegal_byte_count() {
    let e = get_args(args_of(&["headr", "-c", "0"])).unwrap_err();
    match &e {
        HeadError::IllegalByteCount(raw) => assert_eq!(raw, "0"),
        _ => panic!("expected an illegal byte count"),
    }
    assert_eq!(error_message(&e), "illegal byte count -- 0");
}

#[test]
fn get_args_repeated_option() {
    let e = get_args(args_of(&["headr", "-n", "1", "--lines", "2"])).unwrap_err();
    match &e {
        HeadError::RepeatedOption(t) => assert_eq!(t, "--lines"),
        _ => panic!("expected a repeated option"),
    }
    assert_eq!(
        error_message(&e),
        "the option '--lines' cannot be used multiple times"
    );
}

#[test]
fn get_args_unknown_option() {
    let e = get_args(args_of(&["headr", "-x"])).unwrap_err();
    match &e {
        HeadError::UnknownOption(t) => assert_eq!(t, "-x"),
        _ => panic!("expected an unknown option"),
    }
    assert_eq!(error_message(&e), "unexpected argument '-x'");
}

#[test]
fn get_args_missing_value() {
    let e = get_args(args_of(&["headr", "f", "-n"])).unwrap_err();
    match &e {
        HeadError::MissingValue(t) => assert_eq!(t, "-n"),
        _ => panic!("expected a missing value"),
    }
    assert_eq!(error_message(&e), "a value is required for '-n'");
}

#[test]
fn head_lines_counts() {
    let data = b"one\ntwo\nthree\n".to_vec();
    assert_eq!(head_lines(&data, 10), data);
    assert_eq!(head_lines(&data, 2), b"one\ntwo\n".to_vec());
    assert_eq!(head_lines(&data, 0), Vec::<u8>::new());
}

#[test]
fn head_lines_keeps_terminators_verbatim() {
    let data = b"ab\r\ncd\r\n".to_vec();
    assert_eq!(head_lines(&data, 1), b"ab\r\n".to_vec());
}

#[test]
fn head_lines_without_final_terminator() {
    let data = b"abc".to_vec();
    assert_eq!(head_lines(&data, 5), b"abc".to_vec());
}

#[test]
fn head_bytes_exact_prefix() {
    let data = b"abcdefg".to_vec();
    assert_eq!(head_bytes(&data, 5), "abcde");
}

#[test]
fn head_bytes_lossy_substitution() {
    let data = vec![0x61, 0xFF, 0x62, 0x63, 0x64];
    assert_eq!(head_bytes(&data, 5), "a\u{FFFD}bcd");
}

#[test]
fn head_bytes_short_source() {
    let data = b"hi".to_vec();
    assert_eq!(head_bytes(&data, 100), "hi");
}

#[test]
fn header_line_shapes() {
    assert_eq!(header_line("file.txt", true), "==> file.txt <==\n");
    assert_eq!(header_line("file.txt", false), "\n==> file.txt <==\n");
}

#[test]
fn run_single_source_no_header() {
    let config = Config {
        files: vec!["f".to_string()],
        mode: Mode::Lines(10),
    };
    let outcomes = vec![SourceOutcome::Data(b"a\nb\nc\n".to_vec())];
    let out = run(&config, &outcomes);
    assert_eq!(out.stdout, b"a\nb\nc\n".to_vec());
    assert!(out.diagnostics.is_empty());
}

#[test]
fn run_two_sources_headers_in_order() {
    let config = Config {
        files: vec!["f1".to_string(), "f2".to_string()],
        mode: Mode::Lines(10),
    };
    let outcomes = vec![
        SourceOutcome::Data(b"x\n".to_vec()),
        SourceOutcome::Data(b"y\n".to_vec()),
    ];
    let out = run(&config, &outcomes);
    assert_eq!(out.stdout, b"==> f1 <==\nx\n\n==> f2 <==\ny\n".to_vec());
    assert!(out.diagnostics.is_empty());
}

#[test]
fn run_byte_mode_no_trailing_newline() {
    let config = Config {
        files: vec!["f".to_string()],
        mode: Mode::Bytes(5),
    };
    let outcomes = vec![SourceOutcome::Data(b"hello world".to_vec())];
    let out = run(&config, &outcomes);
    assert_eq!(out.stdout, b"hello".to_vec());
}

#[test]
fn run_byte_mode_beyond_source_size() {
    let config = Config {
        files: vec!["f".to_string()],
        mode: Mode::Bytes(4096),
    };
    let outcomes = vec![SourceOutcome::Data(b"tiny\n".to_vec())];
    let out = run(&config, &outcomes);
    assert_eq!(out.stdout, b"tiny\n".to_vec());
}

#[test]
fn run_open_failure_is_isolated() {
    let config = Config {
        files: vec!["good".to_string(), "missing".to_string()],
        mode: Mode::Lines(10),
    };
    let outcomes = vec![
        SourceOutcome::Data(b"data\n".to_vec()),
        SourceOutcome::OpenError("No such file or directory (os error 2)".to_string()),
    ];
    let out = run(&config, &outcomes);
    assert_eq!(out.stdout, b"==> good <==\ndata\n".to_vec());
    assert_eq!(
        out.diagnostics,
        vec!["headr: missing: No such file or directory (os error 2)".to_string()]
    );
}

#[test]
fn run_failure_first_still_blank_lines_by_position() {
    let config = Config {
        files: vec!["missing".to_string(), "good".to_string()],
        mode: Mode::Lines(10),
    };
    let outcomes = vec![
        SourceOutcome::OpenError("gone".to_string()),
        SourceOutcome::Data(b"data\n".to_vec()),
    ];
    let out = run(&config, &outcomes);
    assert_eq!(out.stdout, b"\n==> good <==\ndata\n".to_vec());
    assert_eq!(out.diagnostics, vec!["headr: missing: gone".to_string()]);
}
