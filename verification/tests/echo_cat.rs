use textstream::SelectionMode;
use textstream::cat;
use textstream::echo::format_echo;

fn strings(words: &[&str]) -> Vec<String> {
    words.iter().map(|w| w.to_string()).collect()
}

#[test]
fn runs() {
    let out = format_echo(&strings(&["hello"]), false);
    assert_eq!(out, "hello\n");
}

#[test]
fn joins_tokens_with_spaces() {
    // With the trailing newline suppressed nothing follows the last token.
    let out = format_echo(&strings(&["hello", "world"]), true);
    assert_eq!(out, "hello world");

    let out = format_echo(&strings(&["hello", "world"]), false);
    assert_eq!(out, "hello world\n");
}

#[test]
fn number_nonblank_lines_example() {
    let lines = strings(&["one", "", "two"]);
    let out = cat::format_lines(&lines, &SelectionMode::NumberNonBlankLines);
    assert_eq!(out, strings(&["     1\tone", "", "     2\ttwo"]));
}

#[test]
fn number_all_lines_counts_blank_lines() {
    let lines = strings(&["one", "", "two"]);
    let out = cat::format_lines(&lines, &SelectionMode::NumberAllLines);
    assert_eq!(out, strings(&["     1\tone", "     2\t", "     3\ttwo"]));
}

#[test]
fn whole_stream_passes_lines_through() {
    let lines = strings(&["alpha", "", "beta"]);
    let out = cat::format_lines(&lines, &SelectionMode::WholeStream);
    assert_eq!(out, lines);
}

#[test]
fn cat_config_validates() {
    let config = cat::Config::new(strings(&["a.txt"]), true, false).unwrap();
    assert!(matches!(config.mode, SelectionMode::NumberAllLines));

    let config = cat::Config::new(strings(&["-"]), false, true).unwrap();
    assert!(matches!(config.mode, SelectionMode::NumberNonBlankLines));

    let config = cat::Config::new(strings(&["-"]), false, false).unwrap();
    assert!(matches!(config.mode, SelectionMode::WholeStream));

    assert!(cat::Config::new(strings(&[]), false, false).is_err());
    assert!(cat::Config::new(strings(&["-"]), true, true).is_err());
}

#[test]
fn cat_run_skips_failed_source_and_reports_it() {
    let sources = vec![
        cat::Source {
            token: "good.txt".to_string(),
            data: Ok(strings(&["first", "second"])),
        },
        cat::Source {
            token: "missing.txt".to_string(),
            data: Err("No such file or directory".to_string()),
        },
        cat::Source {
            token: "also.txt".to_string(),
            data: Ok(strings(&["third"])),
        },
    ];
    let out = cat::run(&SelectionMode::WholeStream, &sources);
    assert_eq!(out.lines, strings(&["first", "second", "third"]));
    assert_eq!(
        out.diagnostics,
        strings(&["Failed to open missing.txt: No such file or directory"])
    );
}

#[test]
fn cat_run_numbering_restarts_per_source() {
    let sources = vec![
        cat::Source {
            token: "a".to_string(),
            data: Ok(strings(&["one", "two"])),
        },
        cat::Source {
            token: "b".to_string(),
            data: Ok(strings(&["three"])),
        },
    ];
    let out = cat::run(&SelectionMode::NumberAllLines, &sources);
    assert_eq!(
        out.lines,
        strings(&["     1\tone", "     2\ttwo", "     1\tthree"])
    );
    assert!(out.diagnostics.is_empty());
}
