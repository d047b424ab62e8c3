use textstream::SelectionMode;
use textstream::head;
use textstream::head::HeadBody;

fn strings(words: &[&str]) -> Vec<String> {
    words.iter().map(|w| w.to_string()).collect()
}

#[test]
fn head_config_defaults_to_ten_lines() {
    let config = head::Config::new(strings(&["-"]), None, None).unwrap();
    assert!(matches!(config.mode, SelectionMode::LineLimit(10)));
}

#[test]
fn head_config_parses_limits() {
    let config = head::Config::new(strings(&["a"]), Some("3".to_string()), None).unwrap();
    assert!(matches!(config.mode, SelectionMode::LineLimit(3)));

    let config = head::Config::new(strings(&["a"]), None, Some("12".to_string())).unwrap();
    assert!(matches!(config.mode, SelectionMode::ByteLimit(12)));
}

#[test]
fn head_config_rejects_bad_limits() {
    let err = head::Config::new(strings(&["a"]), Some("foo".to_string()), None).unwrap_err();
    assert_eq!(err, "illegal line count -- foo");

    let err = head::Config::new(strings(&["a"]), None, Some("0".to_string())).unwrap_err();
    assert_eq!(err, "illegal byte count -- 0");

    assert!(
        head::Config::new(strings(&["a"]), Some("1".to_string()), Some("1".to_string())).is_err()
    );
    assert!(head::Config::new(strings(&[]), None, None).is_err());
}

#[test]
fn limit_lines_truncates_and_passes_short_sources_whole() {
    let lines = strings(&["a\n", "b\n", "c\n"]);
    assert_eq!(head::limit_lines(&lines, 2), strings(&["a\n", "b\n"]));
    assert_eq!(head::limit_lines(&lines, 3), lines);
    assert_eq!(head::limit_lines(&lines, 10), lines);
}

#[test]
fn limit_bytes_is_byte_exact() {
    let bytes: Vec<u8> = b"hello".to_vec();
    assert_eq!(head::limit_bytes(&bytes, 3), b"hel".to_vec());
    assert_eq!(head::limit_bytes(&bytes, 9), bytes);
}

#[test]
fn head_bytes_decodes_prefix() {
    let bytes: Vec<u8> = b"hello".to_vec();
    assert_eq!(head::head_bytes(&bytes, 3), "hel");
}

#[test]
fn head_bytes_replaces_invalid_sequences() {
    // An invalid byte is replaced rather than failing.
    let bytes: Vec<u8> = vec![0xff, b'a'];
    assert_eq!(head::head_bytes(&bytes, 10), "\u{fffd}a");

    // Byte-exact truncation can cut a multi-byte character in half.
    let accent: Vec<u8> = vec![0xc3, 0xa9];
    assert_eq!(head::head_bytes(&accent, 1), "\u{fffd}");
    assert_eq!(head::head_bytes(&accent, 2), "\u{e9}".to_string());
}

#[test]
fn head_run_two_sources_layout() {
    let sources = vec![
        head::Source {
            token: "a.txt".to_string(),
            data: Ok(HeadBody::Lines(strings(&["one\n", "two\n"]))),
        },
        head::Source {
            token: "b.txt".to_string(),
            data: Ok(HeadBody::Lines(strings(&["three\n"]))),
        },
    ];
    let out = head::run(&SelectionMode::LineLimit(10), &sources);
    assert_eq!(
        out.out,
        "==> a.txt <==\none\ntwo\n\n==> b.txt <==\nthree\n"
    );
    assert!(out.diagnostics.is_empty());
}

#[test]
fn head_run_single_source_has_no_banner() {
    let sources = vec![head::Source {
        token: "a.txt".to_string(),
        data: Ok(HeadBody::Lines(strings(&["one\n", "two\n", "three\n"]))),
    }];
    let out = head::run(&SelectionMode::LineLimit(2), &sources);
    assert_eq!(out.out, "one\ntwo\n");
}

#[test]
fn head_run_skips_failed_source_and_reports_it() {
    let sources = vec![
        head::Source {
            token: "nope".to_string(),
            data: Err("No such file or directory".to_string()),
        },
        head::Source {
            token: "a.txt".to_string(),
            data: Ok(HeadBody::Lines(strings(&["one\n"]))),
        },
        head::Source {
            token: "b.txt".to_string(),
            data: Ok(HeadBody::Lines(strings(&["two\n"]))),
        },
    ];
    let out = head::run(&SelectionMode::LineLimit(10), &sources);
    assert_eq!(
        out.out,
        "==> a.txt <==\none\n\n==> b.txt <==\ntwo\n"
    );
    assert_eq!(
        out.diagnostics,
        strings(&["nope: No such file or directory"])
    );
}

#[test]
fn head_run_byte_mode() {
    let sources = vec![
        head::Source {
            token: "a.bin".to_string(),
            data: Ok(HeadBody::Bytes(b"abcdef".to_vec())),
        },
        head::Source {
            token: "b.bin".to_string(),
            data: Ok(HeadBody::Bytes(b"xyz".to_vec())),
        },
    ];
    let out = head::run(&SelectionMode::ByteLimit(4), &sources);
    assert_eq!(out.out, "==> a.bin <==\nabcd\n==> b.bin <==\nxyz");
}
