use topic_queue::generator::{parse_response, response_ok, trim_blanks};

#[test]
fn parse_response_reads_dashed_lines() {
    let text = "- Topic A\n- Topic B".to_string();
    assert!(response_ok(&text));
    let topics = parse_response(text);
    assert_eq!(topics, vec!["Topic A".to_string(), "Topic B".to_string()]);
}

#[test]
fn parse_response_trims_blanks() {
    let text = "-   padded topic \t".to_string();
    assert!(response_ok(&text));
    let topics = parse_response(text);
    assert_eq!(topics, vec!["padded topic".to_string()]);
}

#[test]
fn parse_response_keeps_line_order() {
    let text = "-First\n-Second\n-Third\n".to_string();
    assert!(response_ok(&text));
    let topics = parse_response(text);
    assert_eq!(
        topics,
        vec!["First".to_string(), "Second".to_string(), "Third".to_string()]
    );
}

#[test]
fn empty_reply_has_no_suggestions() {
    let text = String::new();
    assert!(response_ok(&text));
    let topics = parse_response(text);
    assert_eq!(topics, Vec::<String>::new());
}

#[test]
fn response_without_dash_is_refused() {
    assert!(!response_ok(&"Topic A".to_string()));
    assert!(!response_ok(&"- Topic A\nTopic B".to_string()));
    assert!(!response_ok(&"- Topic A\n\n- Topic B".to_string()));
}

#[test]
fn trim_blanks_strips_both_ends() {
    assert_eq!(trim_blanks("  both ends  "), "both ends".to_string());
    assert_eq!(trim_blanks("none"), "none".to_string());
    assert_eq!(trim_blanks(" \t\r"), String::new());
    assert_eq!(trim_blanks(""), String::new());
}

#[test]
fn trim_blanks_strips_unicode_white_space() {
    assert_eq!(
        trim_blanks("\u{A0}\u{2003}padded topic\u{202F}\u{3000}"),
        "padded topic".to_string()
    );
    // What str::trim strips, this trims too.
    let sample = "\u{85}\u{1680}kept text\u{2028}\u{205F}";
    assert_eq!(trim_blanks(sample), sample.trim().to_string());
}
