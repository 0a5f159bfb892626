use topic_queue::codec::{join_into_text, split_into_lines};

fn strings(items: &[&str]) -> Vec<String> {
    items.iter().map(|s| s.to_string()).collect()
}

#[test]
fn split_reads_one_topic_per_line() {
    assert_eq!(split_into_lines("A\nB\nC"), strings(&["A", "B", "C"]));
}

#[test]
fn split_of_empty_text_has_no_lines() {
    assert_eq!(split_into_lines(""), Vec::<String>::new());
}

#[test]
fn split_treats_final_break_as_terminator() {
    assert_eq!(split_into_lines("A\nB\n"), strings(&["A", "B"]));
    assert_eq!(split_into_lines("\n"), strings(&[""]));
    assert_eq!(split_into_lines("A\n\nB"), strings(&["A", "", "B"]));
}

#[test]
fn join_separates_with_single_breaks() {
    assert_eq!(join_into_text(&strings(&["A", "B", "C"])), "A\nB\nC");
    assert_eq!(join_into_text(&strings(&["A"])), "A");
    assert_eq!(join_into_text(&Vec::new()), "");
}

#[test]
fn join_then_split_round_trips() {
    let lines = strings(&["One topic", "Another topic"]);
    assert_eq!(split_into_lines(&join_into_text(&lines)), lines);
}
