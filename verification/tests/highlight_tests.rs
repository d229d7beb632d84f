use afkaracode::highlight::{choose_syntax, highlight_code, highlight_with, lines_with_endings, preview_highlight};
use syntect::easy::HighlightLines;
use syntect::highlighting::ThemeSet;
use syntect::parsing::SyntaxSet;
use syntect::util::as_24_bit_terminal_escaped;

fn direct(syntax: &str, lines: &[&str]) -> Vec<String> {
    let ps = SyntaxSet::load_defaults_newlines();
    let ts = ThemeSet::load_defaults();
    let s = ps.find_syntax_by_name(syntax).unwrap();
    let mut h = HighlightLines::new(s, &ts.themes["base16-ocean.dark"]);
    lines
        .iter()
        .map(|l| as_24_bit_terminal_escaped(&h.highlight_line(l, &ps).unwrap(), false))
        .collect()
}

#[test]
fn syntax_chosen_by_token_name_or_extension() {
    assert_eq!(choose_syntax("rs"), "Rust");
    assert_eq!(choose_syntax("rust"), "Rust");
    assert_eq!(choose_syntax("Python"), "Python");
    assert_eq!(choose_syntax("py"), "Python");
}

#[test]
fn syntax_falls_back_to_plain_text() {
    assert_eq!(choose_syntax(""), "Plain Text");
    assert_eq!(choose_syntax("no-such-language"), "Plain Text");
}

#[test]
fn lines_keep_their_endings() {
    assert_eq!(lines_with_endings("a\nb"), vec!["a\n", "b"]);
    assert_eq!(lines_with_endings("a\n\nb\n"), vec!["a\n", "\n", "b\n"]);
    assert!(lines_with_endings("").is_empty());
}

#[test]
fn code_is_highlighted_as_syntect_does() {
    let lines = vec!["fn main() {}\n".to_string(), "let x = 1;\n".to_string()];
    assert_eq!(highlight_code("rust", &lines), direct("Rust", &["fn main() {}\n", "let x = 1;\n"]));
}

#[test]
fn unknown_syntax_uses_default_style() {
    let lines = vec!["x\n".to_string()];
    assert_eq!(highlight_with("No Such Syntax", &lines), vec!["\u{1b}[38;2;0;0;0mx\n".to_string()]);
}

#[test]
fn edit_preview_highlighted_by_extension() {
    assert_eq!(preview_highlight("py", "print(1)\nx"), direct("Python", &["print(1)\n", "x"]));
    assert_eq!(preview_highlight("", "fn f() {}\n"), direct("Rust", &["fn f() {}\n"]));
}
