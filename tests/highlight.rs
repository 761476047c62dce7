use serial_monitor::highlight::{highlight, HighlightSpan};

fn spans(text: &str, marker: &str) -> Vec<(String, bool)> {
    highlight(text, marker)
        .into_iter()
        .map(|s: HighlightSpan| (s.text, s.highlighted))
        .collect()
}

fn joined(text: &str, marker: &str) -> String {
    highlight(text, marker).into_iter().map(|s| s.text).collect()
}

#[test]
fn highlight_empty_marker_single_span() {
    assert_eq!(spans("some log text", ""), vec![("some log text".to_string(), false)]);
    assert_eq!(spans("", ""), vec![(String::new(), false)]);
}

#[test]
fn highlight_no_overlap() {
    assert_eq!(spans("aaa", "aa"), vec![("aa".to_string(), true), ("a".to_string(), false)]);
}

#[test]
fn highlight_multiple_matches() {
    assert_eq!(
        spans("x:DEBUG:y:DEBUG:z", "DEBUG"),
        vec![
            ("x:".to_string(), false),
            ("DEBUG".to_string(), true),
            (":y:".to_string(), false),
            ("DEBUG".to_string(), true),
            (":z".to_string(), false),
        ]
    );
}

#[test]
fn highlight_no_match() {
    assert_eq!(spans("hello", "xyz"), vec![("hello".to_string(), false)]);
    assert_eq!(spans("", "x"), Vec::<(String, bool)>::new());
}

#[test]
fn highlight_match_at_both_ends() {
    assert_eq!(
        spans("ERR mid ERR", "ERR"),
        vec![("ERR".to_string(), true), (" mid ".to_string(), false), ("ERR".to_string(), true)]
    );
    assert_eq!(spans("abab", "ab"), vec![("ab".to_string(), true), ("ab".to_string(), true)]);
}

#[test]
fn highlight_is_case_sensitive() {
    assert_eq!(spans("Debug DEBUG", "DEBUG"), vec![("Debug ".to_string(), false), ("DEBUG".to_string(), true)]);
}

#[test]
fn highlight_marker_longer_than_text() {
    assert_eq!(spans("ab", "abc"), vec![("ab".to_string(), false)]);
}

#[test]
fn highlight_non_ascii() {
    assert_eq!(
        spans("ünïcode ✓ ok ✓", "✓"),
        vec![
            ("ünïcode ".to_string(), false),
            ("✓".to_string(), true),
            (" ok ".to_string(), false),
            ("✓".to_string(), true),
        ]
    );
}

#[test]
fn highlight_spans_cover_text() {
    for (t, m) in [("aaa", "aa"), ("x:DEBUG:y:DEBUG:z", "DEBUG"), ("", "q"), ("abc", ""), ("aaaa", "a"), ("é✓é", "✓é")] {
        assert_eq!(joined(t, m), t);
    }
}
