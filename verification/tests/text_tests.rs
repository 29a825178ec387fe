use neil_blueprint::text::{
    extract_between, is_system_prompt, pad_to, parse_u64, str_chars, textwrap_simple, truncate_str,
    u64_decimal, wrap_text,
};

fn s(v: &[&str]) -> Vec<String> {
    v.iter().map(|x| x.to_string()).collect()
}

fn chars(v: &[char]) -> String {
    v.iter().collect()
}

#[test]
fn wrap_text_zero_width_keeps_text() {
    assert_eq!(wrap_text("hello world", 0), s(&["hello world"]));
}

#[test]
fn wrap_text_short_line_untouched() {
    assert_eq!(wrap_text("short", 10), s(&["short"]));
}

#[test]
fn wrap_text_breaks_between_words() {
    assert_eq!(wrap_text("the quick brown fox", 10), s(&["the quick", "brown fox"]));
}

#[test]
fn wrap_text_empty_gives_one_empty_line() {
    assert_eq!(wrap_text("", 5), s(&[""]));
}

#[test]
fn wrap_text_keeps_blank_lines() {
    assert_eq!(wrap_text("a\n\nb", 5), s(&["a", "", "b"]));
}

#[test]
fn wrap_text_measures_bytes() {
    // 13 bytes in 11 characters: too long for 12, so it wraps.
    assert_eq!(wrap_text("héllo wörld", 12), s(&["héllo", "wörld"]));
    assert_eq!(wrap_text("héllo wörld", 13), s(&["héllo wörld"]));
}

#[test]
fn wrap_text_long_word_stays_whole() {
    assert_eq!(wrap_text("abcdefghij xy", 4), s(&["abcdefghij", "xy"]));
}

#[test]
fn textwrap_simple_fills_lines() {
    assert_eq!(textwrap_simple("aaa bbb ccc", 7), s(&["aaa bbb", "ccc"]));
}

#[test]
fn textwrap_simple_blank_text_kept() {
    assert_eq!(textwrap_simple("", 5), s(&[""]));
    assert_eq!(textwrap_simple("   ", 5), s(&["   "]));
}

#[test]
fn textwrap_simple_paragraphs() {
    assert_eq!(textwrap_simple("one two\nthree", 20), s(&["one two", "three"]));
}

#[test]
fn truncate_str_keeps_first_characters() {
    assert_eq!(truncate_str("héllo", 2), "hé");
    assert_eq!(truncate_str("héllo", 4), "héll");
    assert_eq!(truncate_str("abc", 5), "abc");
    assert_eq!(truncate_str("abc", 0), "");
}

#[test]
fn extract_between_trims() {
    assert_eq!(extract_between("say [ hi ] now", "[", "]"), Some("hi".to_string()));
    assert_eq!(extract_between("no marker", "[", "]"), None);
    assert_eq!(extract_between("open [ only", "[", "]"), None);
}

#[test]
fn system_prompt_names() {
    assert!(is_system_prompt("2024_heartbeat_01.md"));
    assert!(is_system_prompt("x_sched_y"));
    assert!(is_system_prompt("a_vision"));
    assert!(!is_system_prompt("user_question.md"));
}

#[test]
fn pad_to_pads_and_cuts() {
    assert_eq!(chars(&pad_to(&str_chars("ab"), 4)), "ab  ");
    assert_eq!(chars(&pad_to(&str_chars("abcdef"), 3)), "abc");
}

#[test]
fn decimal_and_parse() {
    assert_eq!(chars(&u64_decimal(0)), "0");
    assert_eq!(chars(&u64_decimal(90210)), "90210");
    assert_eq!(parse_u64(&str_chars("42")), Some(42));
    assert_eq!(parse_u64(&str_chars("4x")), None);
    assert_eq!(parse_u64(&str_chars("")), None);
    assert_eq!(parse_u64(&str_chars("+7")), Some(7));
    assert_eq!(parse_u64(&str_chars("18446744073709551616")), None);
}

#[test]
fn wrapped_lines_fit_or_are_single_words() {
    let text = "a few short words then incomprehensibilities appear\nand a second line";
    let lines = wrap_text(text, 12);
    assert_eq!(lines, vec!["a few short", "words then", "incomprehensibilities", "appear", "and a second", "line"]);
    for l in &lines {
        assert!(l.len() <= 12 || !l.contains(char::is_whitespace));
    }
}
