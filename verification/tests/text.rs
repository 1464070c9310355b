use audio_system_tray::text::{
    contains_chars, ends_with_chars, find_char_exec, parse_u32_chars, rfind_chars, split_lines,
    str_chars, string_from_chars, trim_chars, trim_start_chars,
};

fn cs(s: &str) -> Vec<char> {
    s.chars().collect()
}

#[test]
fn trims_unicode_whitespace() {
    assert_eq!(trim_chars(&cs("\u{3000}\t a b \u{A0}\n")), cs("a b"));
    assert_eq!(trim_start_chars(&cs("  x ")), cs("x "));
    assert_eq!(trim_chars(&cs("   ")), cs(""));
}

#[test]
fn parses_u32_like_std() {
    for s in ["0", "107", "+5", "00042", "4294967295", "4294967296", "", "+", "-1", " 1", "1a", "١"] {
        assert_eq!(parse_u32_chars(&cs(s)), s.parse::<u32>().ok(), "input {s:?}");
    }
}

#[test]
fn splits_lines_like_std() {
    for s in ["", "\n", "a", "a\n", "a\nb", "a\r\nb\r\n", "a\r", "\n\nx\n\n", "x\ry\n"] {
        let mine: Vec<String> = split_lines(&cs(s)).iter().map(|l| l.iter().collect()).collect();
        let std: Vec<String> = s.lines().map(|l| l.to_string()).collect();
        assert_eq!(mine, std, "input {s:?}");
    }
}

#[test]
fn searches_like_std() {
    let s = cs("ab[vol: x[vol:y");
    assert_eq!(rfind_chars(&s, &cs("[vol:")), Some(9));
    assert_eq!(rfind_chars(&s, &cs("zz")), None);
    assert_eq!(find_char_exec(&s, 'v'), Some(3));
    assert!(contains_chars(&s, &cs("l: x")));
    assert!(!contains_chars(&s, &cs("vol:z")));
    assert!(ends_with_chars(&s, &cs("y")));
    assert!(!ends_with_chars(&cs("y"), &cs("xy")));
}

#[test]
fn builds_strings_from_chars() {
    assert_eq!(string_from_chars(&cs("héllo │")), "héllo │");
    assert_eq!(str_chars("a─b"), vec!['a', '─', 'b']);
}
