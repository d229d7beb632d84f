use afkaracode::file_ops::{byte_window, edit_text, format_listing, read_range_text};
use afkaracode::numbers::{format_u64, parse_u64};
use afkaracode::text::{replace_all, to_ascii_lowercase, trim};

fn chars(s: &str) -> Vec<char> {
    s.chars().collect()
}

fn replaced(s: &str, from: &str, to: &str) -> String {
    replace_all(&chars(s), &chars(from), &chars(to)).into_iter().collect()
}

#[test]
fn replace_all_matches_str_replace() {
    let cases = [
        ("hello world", "o", "0"),
        ("aaaa", "aa", "b"),
        ("aaa", "aa", "b"),
        ("abc", "", "-"),
        ("", "", "x"),
        ("", "a", "x"),
        ("fn main() {}", "main", "start"),
        ("héllo héllo", "é", "e"),
        ("abab", "ab", "ab"),
    ];
    for (s, from, to) in cases {
        assert_eq!(replaced(s, from, to), s.replace(from, to), "{s:?} {from:?} {to:?}");
    }
}

#[test]
fn edit_text_replaces_every_occurrence() {
    assert_eq!(edit_text("let x = 1; let y = 1;", "1", "2"), Ok("let x = 2; let y = 2;".to_string()));
}

#[test]
fn edit_text_refuses_absent_snippet() {
    assert_eq!(edit_text("abc", "xyz", "q"), Err("file did not contain old string."));
    assert_eq!(edit_text("", "a", "q"), Err("file did not contain old string."));
}

#[test]
fn edit_text_with_same_snippet_keeps_contents() {
    assert_eq!(edit_text("one two one", "one", "one"), Ok("one two one".to_string()));
}

#[test]
fn edit_text_empty_old_matches_everywhere() {
    assert_eq!(edit_text("ab", "", "|"), Ok("|a|b|".to_string()));
}

#[test]
fn byte_window_cases() {
    let data = b"0123456789";
    assert_eq!(byte_window(data, None, None), data.to_vec());
    assert_eq!(byte_window(data, Some(0), Some(200)), data.to_vec());
    assert_eq!(byte_window(data, Some(3), Some(4)), b"3456".to_vec());
    assert_eq!(byte_window(data, Some(8), None), b"89".to_vec());
    assert_eq!(byte_window(data, Some(50), Some(2)), Vec::<u8>::new());
    assert_eq!(byte_window(data, None, Some(0)), Vec::<u8>::new());
}

#[test]
fn read_range_text_cases() {
    let data = "héllo".as_bytes();
    assert_eq!(read_range_text(data, None, None), Ok("héllo".to_string()));
    assert_eq!(read_range_text(data, Some(3), None), Ok("llo".to_string()));
    assert_eq!(read_range_text(data, Some(1), Some(2)), Ok("é".to_string()));
    assert_eq!(read_range_text(data, Some(1), Some(1)), Err("failed reading file."));
    assert_eq!(read_range_text(data, Some(u64::MAX), None), Err("failed seeking in file."));
    assert_eq!(read_range_text(data, Some(i64::MAX as u64), None), Ok(String::new()));
}

#[test]
fn listing_has_one_line_per_entry() {
    let entries = vec![Some("a.rs".to_string()), None, Some("dir".to_string())];
    assert_eq!(format_listing(&entries), "a.rs\nunknown error reading this entry.\ndir\n");
    assert_eq!(format_listing(&Vec::new()), "");
}

#[test]
fn parse_u64_cases() {
    assert_eq!(parse_u64("60000"), Some(60000));
    assert_eq!(parse_u64("+7"), Some(7));
    assert_eq!(parse_u64("0"), Some(0));
    assert_eq!(parse_u64("18446744073709551615"), Some(u64::MAX));
    assert_eq!(parse_u64("18446744073709551616"), None);
    assert_eq!(parse_u64(""), None);
    assert_eq!(parse_u64("+"), None);
    assert_eq!(parse_u64("-1"), None);
    assert_eq!(parse_u64(" 5"), None);
    assert_eq!(parse_u64("12a"), None);
    for s in ["60000", "+7", "0", "", "+", "-1", "12a", "99999999999999999999"] {
        assert_eq!(parse_u64(s), s.parse::<u64>().ok(), "{s:?}");
    }
}

#[test]
fn format_numbers() {
    assert_eq!(format_u64(0), "0");
    assert_eq!(format_u64(60000), "60000");
    assert_eq!(format_u64(u64::MAX), u64::MAX.to_string());
}

#[test]
fn parse_reads_back_format() {
    for n in [0u64, 1, 9, 10, 12345, u64::MAX] {
        assert_eq!(parse_u64(&format_u64(n)), Some(n));
    }
}

#[test]
fn trim_and_lowercase() {
    assert_eq!(trim("  exit \n"), "exit");
    assert_eq!(trim("\u{3000}x\u{a0}"), "x");
    assert_eq!(trim("   "), "");
    assert_eq!(to_ascii_lowercase("RuSt.É"), "rust.É");
}

#[test]
fn json_escaping_in_reports() {
    let r = afkaracode::bash::completed_report(Some(3), "a\tb\u{1}\\ é", "", &None, &None);
    assert_eq!(r, "{\"exit_code\":3,\"stderr\":\"\",\"stdout\":\"a\\tb\\u0001\\\\ é\"}");
    let mut m = serde_json::Map::new();
    m.insert("exit_code".to_string(), serde_json::Value::from(3));
    m.insert("stdout".to_string(), serde_json::Value::from("a\tb\u{1}\\ é"));
    m.insert("stderr".to_string(), serde_json::Value::from(""));
    let direct = serde_json::Value::Object(m).to_string();
    assert_eq!(r, direct);
}

#[test]
fn split_lines_matches_str_lines() {
    for s in ["", "a", "a\n", "a\r\nb", "a\r", "\n\n", "x\r\r\ny\n", "\r\n"] {
        let ours: Vec<String> = afkaracode::text::split_lines(&chars(s))
            .into_iter()
            .map(|l| l.into_iter().collect())
            .collect();
        let std: Vec<String> = s.lines().map(str::to_string).collect();
        assert_eq!(ours, std, "{s:?}");
    }
}

#[test]
fn trim_matches_str_trim() {
    for s in ["", " a ", "\t\n x y \r", "\u{2003}z\u{205f}", "\u{200b}k"] {
        assert_eq!(trim(s), s.trim(), "{s:?}");
    }
}

#[test]
fn readme_edit_scenario() {
    let before = "fn old() {}\nold();\n";
    assert_eq!(edit_text(before, "old", "new"), Ok("fn new() {}\nnew();\n".to_string()));
}
