
use hx::{
    buf_to_array, colorize_from_flag, render_array, render_dump, run, run_read, wave_separator,
    ArrayFormat, Config, Error, Format,
};

#[test]
fn default_config() {
    let config = Config::default();
    assert_eq!(config.column_width, 10);
    assert_eq!(config.length, None);
    assert_eq!(config.format, Format::LowerHex);
    assert!(config.colorize);
    assert_eq!(config.array, None);
    assert_eq!(config.verbosity, 0);
}

#[test]
fn run_with_defaults_is_a_colored_dump() {
    let source = b"hex dump";
    let config = Config::default();
    let page = buf_to_array(source, 8, 10).unwrap();
    assert_eq!(run(&config, source).unwrap(), render_dump(&page, Format::LowerHex, true, 10));
}

#[test]
fn run_plain_dump() {
    let config = Config { colorize: false, column_width: 4, ..Config::default() };
    assert_eq!(
        run(&config, b"abcdef").unwrap(),
        "0x000000: 0x61 0x62 0x63 0x64 abcd\n0x000004: 0x65 0x66           ef\n   bytes: 6\n"
    );
}

#[test]
fn run_with_a_length() {
    let config =
        Config { colorize: false, column_width: 4, length: Some(3), ..Config::default() };
    assert_eq!(run(&config, b"abcdef").unwrap(), "0x000000: 0x61 0x62 0x63      abc\n   bytes: 3\n");
}

#[test]
fn run_with_a_length_past_the_end() {
    let config =
        Config { colorize: false, column_width: 4, length: Some(100), ..Config::default() };
    assert_eq!(run(&config, b"ab").unwrap(), "0x000000: 0x61 0x62           ab\n   bytes: 2\n");
}

#[test]
fn run_with_length_zero() {
    let config = Config { length: Some(0), ..Config::default() };
    assert_eq!(run(&config, b"abcdef").unwrap(), "   bytes: 0\n");
}

#[test]
fn run_array_mode() {
    let config = Config { array: Some(ArrayFormat::C), column_width: 3, ..Config::default() };
    let page = buf_to_array(b"abcd", 4, 3).unwrap();
    let text = run(&config, b"abcd").unwrap();
    assert_eq!(text, render_array(&page, ArrayFormat::C));
    assert_eq!(text, "unsigned char ARRAY[4] = {\n    0x61, 0x62, 0x63, \n    0x64\n};\n");
}

#[test]
fn run_says_its_verbosity_first() {
    let plain = Config { colorize: false, ..Config::default() };
    let body = run(&plain, b"a").unwrap();
    let one = Config { verbosity: 1, ..plain };
    assert_eq!(run(&one, b"a").unwrap(), format!("verbose 1{}", body));
    let two = Config { verbosity: 2, ..plain };
    assert_eq!(run(&two, b"a").unwrap(), format!("verbose 2{}", body));
    let three = Config { verbosity: 3, ..plain };
    assert_eq!(run(&three, b"a").unwrap(), format!("verbose max{}", body));
    let many = Config { verbosity: 17, ..plain };
    assert_eq!(run(&many, b"a").unwrap(), format!("verbose max{}", body));
}

#[test]
fn run_refuses_zero_width() {
    let config = Config { column_width: 0, ..Config::default() };
    assert!(matches!(run(&config, b"abc"), Err(Error::InvalidConfiguration)));
    let config = Config { column_width: 0, array: Some(ArrayFormat::Go), ..Config::default() };
    assert!(matches!(run(&config, b""), Err(Error::InvalidConfiguration)));
}

#[test]
fn run_cuts_seventy_thousand_bytes_to_the_ceiling() {
    let source = vec![0x41u8; 70_000];
    let config = Config { colorize: false, ..Config::default() };
    let text = run(&config, &source).unwrap();
    assert!(text.ends_with("\n   bytes: 65535\n"));
    assert_eq!(text.lines().count(), 6_554 + 1);
}

#[test]
fn run_reads_no_further_than_its_limit() {
    let source: Vec<u8> = (0..70_000usize).map(|i| (i % 256) as u8).collect();
    for length in [None, Some(0u64), Some(10), Some(65_535), Some(70_000)] {
        let config = Config { length, colorize: false, ..Config::default() };
        let limit = config.read_limit() as usize;
        assert_eq!(run(&config, &source[..limit]).unwrap(), run(&config, &source).unwrap());
    }
}

#[test]
fn read_limit_is_the_length_under_the_ceiling() {
    assert_eq!(Config::default().read_limit(), 65_535);
    assert_eq!(Config { length: Some(0), ..Config::default() }.read_limit(), 0);
    assert_eq!(Config { length: Some(12), ..Config::default() }.read_limit(), 12);
    assert_eq!(Config { length: Some(65_535), ..Config::default() }.read_limit(), 65_535);
    assert_eq!(Config { length: Some(u64::MAX), ..Config::default() }.read_limit(), 65_535);
}

#[test]
fn color_flag() {
    assert!(colorize_from_flag(1));
    assert!(!colorize_from_flag(0));
    assert!(!colorize_from_flag(2));
}

#[test]
fn wave_breaks_the_line_after_every_tenth_sample() {
    let text: String = (0..25u64).map(|y| format!("{}{}", y, wave_separator(y))).collect();
    assert_eq!(
        text,
        "0,1,2,3,4,5,6,7,8,9,\n10,11,12,13,14,15,16,17,18,19,\n20,21,22,23,24,"
    );
    assert_eq!(wave_separator(9), ",\n");
    assert_eq!(wave_separator(10), ",");
    assert_eq!(wave_separator(u64::MAX), ",");
}

#[test]
fn page_is_made_of_the_prefix_alone() {
    let source: Vec<u8> = (0..200u8).collect();
    for requested in [0u64, 7, 64, 199, 200, 500] {
        let taken = requested.min(200) as usize;
        let whole = buf_to_array(&source, requested, 16).unwrap();
        let head = buf_to_array(&source[..taken], requested, 16).unwrap();
        assert_eq!(
            render_dump(&whole, Format::UpperHex, false, 16),
            render_dump(&head, Format::UpperHex, false, 16)
        );
    }
}

#[test]
fn failed_read_ends_the_run() {
    let config = Config::default();
    let read = Err(std::io::Error::new(std::io::ErrorKind::UnexpectedEof, "cut short"));
    match run_read(&config, read) {
        Err(Error::Io(e)) => {
            assert_eq!(e.kind(), std::io::ErrorKind::UnexpectedEof);
            assert_eq!(e.to_string(), "cut short");
        }
        other => panic!("unexpected {:?}", other),
    }
    let config = Config { column_width: 0, ..Config::default() };
    let read = Err(std::io::Error::new(std::io::ErrorKind::PermissionDenied, "no"));
    assert!(matches!(run_read(&config, read), Err(Error::Io(_))));
}

#[test]
fn successful_read_is_run_on() {
    let config = Config { colorize: false, column_width: 2, ..Config::default() };
    let text = run_read(&config, Ok(b"abc".to_vec())).unwrap();
    assert_eq!(text, run(&config, b"abc").unwrap());
    assert_eq!(text, "0x000000: 0x61 0x62 ab\n0x000002: 0x63      c\n   bytes: 3\n");
    let config = Config { column_width: 0, ..Config::default() };
    assert!(matches!(run_read(&config, Ok(Vec::new())), Err(Error::InvalidConfiguration)));
}
