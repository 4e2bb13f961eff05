use backontime::global::{Global, LogLevel};
use backontime::report::Report;
use backontime::text::{chars_of, decode_lines, replace_all, same_text, split_lines};

fn owned(lines: &[&str]) -> Vec<String> {
    lines.iter().map(|line| line.to_string()).collect()
}

fn composed(success: bool, level: LogLevel) -> Report {
    Report::compose(
        "/data",
        "make backup",
        success,
        "exit status: 2",
        &owned(&["one", "", "two"]),
        &owned(&["oops"]),
        level,
    )
}

#[test]
fn success_surfaces_output_by_verbosity() {
    for level in [LogLevel::Error, LogLevel::Warn, LogLevel::Info] {
        let report = composed(true, level);
        assert!(report.success);
        assert_eq!(report.summary, "/data: \"make backup\" finished successfully");
        assert!(report.lines.is_empty());
    }
    let debug = composed(true, LogLevel::Debug);
    assert_eq!(debug.lines, owned(&["process stdout: ", "1> one", "1> ", "1> two"]));
    let trace = composed(true, LogLevel::Trace);
    assert_eq!(
        trace.lines,
        owned(&["process stdout: ", "1> one", "1> ", "1> two", "process stderr: ", "2> oops"])
    );
}

#[test]
fn failure_surfaces_everything_at_any_verbosity() {
    for level in [LogLevel::Error, LogLevel::Warn, LogLevel::Info, LogLevel::Debug, LogLevel::Trace] {
        let report = composed(false, level);
        assert!(!report.success);
        assert_eq!(report.summary, "/data: \"make backup\" failed: exit status: 2");
        assert_eq!(
            report.lines,
            owned(&["process stdout: ", "1> one", "1> ", "1> two", "process stderr: ", "2> oops"])
        );
    }
}

#[test]
fn silent_command_still_gets_its_headings() {
    let report = Report::compose("/d", "true", false, "signal: 9", &Vec::new(), &Vec::new(), LogLevel::Error);
    assert_eq!(report.lines, owned(&["process stdout: ", "process stderr: "]));
    assert_eq!(report.summary, "/d: \"true\" failed: signal: 9");
}

#[test]
fn levels_are_ordered_from_error_to_trace() {
    let levels = [LogLevel::Error, LogLevel::Warn, LogLevel::Info, LogLevel::Debug, LogLevel::Trace];
    for (i, level) in levels.iter().enumerate() {
        assert_eq!(level.rank() as usize, i + 1);
        for (j, floor) in levels.iter().enumerate() {
            assert_eq!(level.at_least(*floor), i >= j);
        }
    }
}

#[test]
fn settings_hold_the_verbosity() {
    let mut global = Global::default();
    assert_eq!(global.log_level, LogLevel::Info);
    global.setup_logger(LogLevel::Trace);
    assert_eq!(global.log_level, LogLevel::Trace);
    let hits = std::cell::Cell::new(0);
    global.exec(|| hits.set(hits.get() + 1));
    assert_eq!(hits.get(), 1);
}

#[test]
fn lines_end_at_line_feeds() {
    let split = |text: &str| -> Vec<String> {
        split_lines(&text.as_bytes().to_vec())
            .into_iter()
            .map(|line| String::from_utf8(line).unwrap())
            .collect()
    };
    assert_eq!(split(""), Vec::<String>::new());
    assert_eq!(split("a"), owned(&["a"]));
    assert_eq!(split("a\n"), owned(&["a"]));
    assert_eq!(split("\n"), owned(&[""]));
    assert_eq!(split("a\n\nb"), owned(&["a", "", "b"]));
    assert_eq!(split("a\r\nb\r"), owned(&["a", "b\r"]));
    assert_eq!(split("a\r\r\n\rb\n"), owned(&["a\r", "\rb"]));
    assert_eq!(split("\r\n\r\n"), owned(&["", ""]));
    for text in ["", "x", "x\n", "x\ny", "x\r\ny\r\n", "\n\n", "tail\r"] {
        let expected: Vec<String> = text.lines().map(|line| line.to_string()).collect();
        assert_eq!(split(text), expected);
    }
}

#[test]
fn output_that_is_not_text_is_decoded_with_replacements() {
    assert_eq!(decode_lines(&vec![0xff, b'a', b'\n', b'b', 0xc3]), owned(&["\u{fffd}a", "b\u{fffd}"]));
    assert_eq!(decode_lines(&"gr\u{fc}n\nbl\u{e5}\n".as_bytes().to_vec()), owned(&["gr\u{fc}n", "bl\u{e5}"]));
    assert_eq!(decode_lines(&Vec::new()), Vec::<String>::new());
}

#[test]
fn replacing_goes_left_to_right_without_overlap() {
    assert_eq!(replace_all("aaa", "aa", "b"), "ba");
    assert_eq!(replace_all("aaaa", "aa", "b"), "bb");
    assert_eq!(replace_all("abcabc", "bc", ""), "aa");
    assert_eq!(replace_all("abc", "abcd", "x"), "abc");
    assert_eq!(replace_all("", "a", "x"), "");
    assert_eq!(replace_all("no match", "zz", "x"), "no match");
    assert_eq!(replace_all("{{a}}{{a}}", "{{a}}", "{{a}}{{a}}"), "{{a}}{{a}}{{a}}{{a}}");
    assert_eq!(replace_all("gr\u{fc}n \u{fc}", "\u{fc}", "ue"), "gruen ue");
    for (text, pattern, with) in [("x{{p}}y{{p}}", "{{p}}", "/a b"), ("{{{p}}}", "{{p}}", "q"), ("aXbXc", "X", "XX")] {
        assert_eq!(replace_all(text, pattern, with), text.replace(pattern, with));
    }
}

#[test]
fn texts_compare_by_characters() {
    assert!(same_text("", ""));
    assert!(same_text("info", "info"));
    assert!(!same_text("info", "Info"));
    assert!(!same_text("info", "inf"));
    assert!(!same_text("inf", "info"));
    assert_eq!(chars_of("a\u{fc}b"), vec!['a', '\u{fc}', 'b']);
    assert_eq!(chars_of(""), Vec::<char>::new());
}
