use time_event::text::{config_lines, split_text, Sep};

fn strings(v: &[&str]) -> Vec<String> {
    v.iter().map(|s| s.to_string()).collect()
}

#[test]
fn splitn_keeps_rest_in_last_piece() {
    let p = split_text("* y 3 * 1 0 2 echo 'hello world'", Sep::Whitespace, Some(8));
    assert_eq!(p, strings(&["*", "y", "3", "*", "1", "0", "2", "echo 'hello world'"]));
}

#[test]
fn splitn_counts_empty_pieces_between_spaces() {
    let p = split_text(":  1 2", Sep::Whitespace, Some(4));
    assert_eq!(p, strings(&[":", "", "1", "2"]));
}

#[test]
fn splitn_on_unicode_whitespace() {
    let p = split_text("a\u{3000}b\tc", Sep::Whitespace, Some(8));
    assert_eq!(p, strings(&["a", "b", "c"]));
}

#[test]
fn split_of_empty_text_is_one_empty_piece() {
    assert_eq!(split_text("", Sep::Colon, None), strings(&[""]));
}

#[test]
fn split_rejoins_with_colons() {
    let text = "12::30:";
    let p = split_text(text, Sep::Colon, None);
    assert_eq!(p, strings(&["12", "", "30", ""]));
    assert_eq!(p.join(":"), text);
}

#[test]
fn splitn_never_exceeds_limit() {
    let p = split_text("a b c d e f", Sep::Whitespace, Some(2));
    assert_eq!(p, strings(&["a", "b c d e f"]));
    assert!(p.len() <= 2);
}

#[test]
fn lines_drop_final_empty_piece_and_carriage_returns() {
    assert_eq!(config_lines("a\r\nb\nc"), strings(&["a", "b", "c"]));
    assert_eq!(config_lines("a\n"), strings(&["a"]));
    assert_eq!(config_lines(""), Vec::<String>::new());
    assert_eq!(config_lines("\n\n"), strings(&["", ""]));
    assert_eq!(config_lines("x\r"), strings(&["x\r"]));
}

#[test]
fn unlimited_split_pieces_hold_no_separator() {
    for p in split_text("a:b::c:", Sep::Colon, None) {
        assert!(!p.contains(':'));
    }
}

#[test]
fn lines_rejoin_to_the_text() {
    let text = "* y 1 0 0 0 0 a\n: 05 n b\n\n";
    let joined: String = config_lines(text).iter().map(|l| format!("{l}\n")).collect();
    assert_eq!(joined, text);
}
