use diggeo::input::{clean_lines, select_mode, InputMode};
use diggeo::text::{split_lines_str, str_equal, trim_str};

#[test]
fn explicit_ips_used_verbatim_in_order() {
    let ips = vec!["8.8.8.8".to_string(), "1.1.1.1".to_string()];
    let m = select_mode(None, ips.clone(), true);
    assert_eq!(m, InputMode::Direct(ips));
}

#[test]
fn explicit_ips_win_regardless_of_stdin_state() {
    let ips = vec!["8.8.8.8".to_string(), "1.1.1.1".to_string()];
    let m = select_mode(None, ips.clone(), false);
    assert_eq!(m, InputMode::Direct(ips));
}

#[test]
fn domain_request_takes_precedence() {
    let ips = vec!["8.8.8.8".to_string()];
    let m = select_mode(Some("example.com".to_string()), ips, false);
    assert_eq!(m, InputMode::Domain("example.com".to_string()));
}

#[test]
fn piped_when_no_arguments_and_not_a_tty() {
    assert_eq!(select_mode(None, Vec::new(), false), InputMode::Piped);
}

#[test]
fn no_input_when_interactive_and_no_arguments() {
    assert_eq!(select_mode(None, Vec::new(), true), InputMode::NoInput);
}

#[test]
fn piped_lines_trimmed_and_blanks_dropped() {
    let lines = split_lines_str("1.2.3.4\n\n5.6.7.8\n");
    let cleaned = clean_lines(&lines);
    assert_eq!(cleaned, vec!["1.2.3.4".to_string(), "5.6.7.8".to_string()]);
}

#[test]
fn piped_lines_keep_input_order() {
    let lines = vec![
        "  b  ".to_string(),
        "\t".to_string(),
        "a".to_string(),
        "".to_string(),
        "c".to_string(),
    ];
    let cleaned = clean_lines(&lines);
    assert_eq!(
        cleaned,
        vec!["b".to_string(), "a".to_string(), "c".to_string()]
    );
}

#[test]
fn splitting_lines_keeps_inner_empties() {
    let lines = split_lines_str("a\n\nb");
    assert_eq!(
        lines,
        vec!["a".to_string(), "".to_string(), "b".to_string()]
    );
}

#[test]
fn splitting_empty_text_gives_no_lines() {
    assert_eq!(split_lines_str(""), Vec::<String>::new());
}

#[test]
fn trimming_removes_surrounding_whitespace() {
    assert_eq!(trim_str("  x y \t"), "x y");
    assert_eq!(trim_str("\r\n"), "");
    assert_eq!(trim_str("plain"), "plain");
}

#[test]
fn string_equality_is_by_characters() {
    assert!(str_equal("api_key", "api_key"));
    assert!(!str_equal("api_key", "api_keys"));
    assert!(!str_equal("a", "b"));
}
