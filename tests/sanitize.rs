use regex::Regex;
use serial_monitor::sanitize::remove_ansi_escape_codes;

fn regex_strip(text: &str) -> String {
    let re = Regex::new(r"\x1b\[[0-?]*[ -/]*[@-~]").unwrap();
    let mut cur = text.to_string();
    loop {
        let next = re.replace_all(&cur, "").to_string();
        if next == cur {
            return cur;
        }
        cur = next;
    }
}

#[test]
fn sanitize_removes_colour_codes() {
    assert_eq!(remove_ansi_escape_codes("A\x1b[31mRED\x1b[0mB"), "AREDB");
}

#[test]
fn sanitize_plain_text_unchanged() {
    let s = "plain text, 123; with [brackets] and émoji ✓";
    assert_eq!(remove_ansi_escape_codes(s), s);
    assert_eq!(remove_ansi_escape_codes(""), "");
}

#[test]
fn sanitize_sequence_is_whole_input() {
    assert_eq!(remove_ansi_escape_codes("\x1b[2J"), "");
}

#[test]
fn sanitize_start_middle_end_and_adjacent() {
    assert_eq!(remove_ansi_escape_codes("\x1b[1mhead"), "head");
    assert_eq!(remove_ansi_escape_codes("mid\x1b[1;32mdle"), "middle");
    assert_eq!(remove_ansi_escape_codes("tail\x1b[K"), "tail");
    assert_eq!(remove_ansi_escape_codes("\x1b[1m\x1b[4m\x1b[0mx"), "x");
}

#[test]
fn sanitize_intermediate_bytes() {
    assert_eq!(remove_ansi_escape_codes("a\x1b[1 qb"), "ab");
    assert_eq!(remove_ansi_escape_codes("a\x1b[?25lb"), "ab");
}

#[test]
fn sanitize_malformed_passes_through() {
    assert_eq!(remove_ansi_escape_codes("a\x1b[31"), "a\x1b[31");
    assert_eq!(remove_ansi_escape_codes("a\x1bb"), "a\x1bb");
    assert_eq!(remove_ansi_escape_codes("\x1b"), "\x1b");
    assert_eq!(remove_ansi_escape_codes("a\x1b[1\x1b[m"), "a\x1b[1");
    assert_eq!(remove_ansi_escape_codes("a\x1b[1\x1b[mb"), "a");
    assert_eq!(remove_ansi_escape_codes("a\x1b[\x1b[mb"), "a");
}

#[test]
fn sanitize_split_sequence_not_joined() {
    let first = remove_ansi_escape_codes("x\x1b");
    let second = remove_ansi_escape_codes("[31my");
    assert_eq!(format!("{}{}", first, second), "x\x1b[31my");
}

#[test]
fn sanitize_twice_same_as_once() {
    for s in ["A\x1b[31mRED\x1b[0mB", "\x1b\x1b[m[m", "\x1b[\x1b[0mm", "no codes", "\x1b[1;2;3m", "a\x1b[31", "\x1b[?1049h\x1b[Hz"] {
        let once = remove_ansi_escape_codes(s);
        assert_eq!(remove_ansi_escape_codes(&once), once);
    }
}

#[test]
fn sanitize_removes_sequences_formed_by_removal() {
    assert_eq!(remove_ansi_escape_codes("\x1b\x1b[m[m"), "");
    assert_eq!(remove_ansi_escape_codes("\x1b[\x1b[0mm"), "");
    assert_eq!(remove_ansi_escape_codes("x\x1b[\x1b[\x1b[1mmmy"), "xy");
}

#[test]
fn sanitize_agrees_with_regex() {
    let cases = [
        "A\x1b[31mRED\x1b[0mB",
        "\x1b[38;5;196mred\x1b[0m",
        "\x1b[1 q\x1b[!p",
        "a\x1b[31",
        "\x1b\x1b[m[m",
        "\x1b[\x1b[m",
        "\x1b[\x1b[0mm",
        "a\x1b[\x1b[\x1b[1mm2Jb",
        "é\x1b[2Kü",
        "\x1b[~\x1b[@",
        "\x1b[12;34;56;78H",
        "\x1b[0\x7f",
        "",
    ];
    for c in cases {
        assert_eq!(remove_ansi_escape_codes(c), regex_strip(c), "input {:?}", c);
    }
}
