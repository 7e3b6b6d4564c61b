use winget_tasks::normalize::{normalize_console_output, strip_ansi};

#[test]
fn strip_removes_color_sequences() {
    assert_eq!(strip_ansi("\u{1b}[31mred\u{1b}[0m"), "red");
}

#[test]
fn strip_leaves_plain_text_unchanged() {
    assert_eq!(strip_ansi("plain text, no escapes"), "plain text, no escapes");
}

#[test]
fn strip_keeps_lone_escape() {
    assert_eq!(strip_ansi("a\u{1b}b"), "a\u{1b}b");
}

#[test]
fn strip_swallows_unterminated_sequence() {
    assert_eq!(strip_ansi("a\u{1b}[12;34"), "a");
}

#[test]
fn strip_is_idempotent_on_ordinary_text() {
    let samples = [
        "\u{1b}[31mred\u{1b}[0m text",
        "progress\u{1b}[2K\u{1b}[1Gdone",
        "no escapes at all",
        "",
    ];
    for s in samples {
        let once = strip_ansi(s);
        assert_eq!(strip_ansi(&once), once);
    }
}

#[test]
fn carriage_return_discards_line() {
    assert_eq!(normalize_console_output("A\rB\n"), "B\n");
}

#[test]
fn plain_lines_pass_through() {
    assert_eq!(normalize_console_output("line1\nline2\n"), "line1\nline2\n");
}

#[test]
fn crlf_becomes_lf() {
    assert_eq!(normalize_console_output("a\r\nb"), "a\nb");
}

#[test]
fn progress_overwrites_collapse() {
    assert_eq!(normalize_console_output("10%\r50%\r100%\ndone"), "100%\ndone");
}

#[test]
fn normalize_is_idempotent() {
    let samples = ["A\rB\n", "x\r\ny\rz", "", "plain", "a\n\nb"];
    for s in samples {
        let once = normalize_console_output(s);
        assert_eq!(normalize_console_output(&once), once);
    }
}

#[test]
fn stripping_can_manufacture_an_opener() {
    // An escape character, a stripped sequence, then a bracket: the first
    // pass leaves a fresh opener behind, and only a second pass removes it.
    let tricky = "\u{1b}\u{1b}[m[";
    let once = strip_ansi(tricky);
    assert_eq!(once, "\u{1b}[");
    assert_eq!(strip_ansi(&once), "");
}

#[test]
fn empty_input_stays_empty() {
    assert_eq!(strip_ansi(""), "");
    assert_eq!(normalize_console_output(""), "");
}
