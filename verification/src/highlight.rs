//! Syntax highlighting of code for the terminal: which of syntect's
//! default syntaxes a code block is drawn with, and the highlighted lines.
use vstd::prelude::*;
use crate::text::to_chars;

verus! {

/// The views of a list of strings.
pub open spec fn texts_view(v: Seq<String>) -> Seq<Seq<char>> {
    v.map_values(|s: String| s@)
}

/// The view of an optional string.
pub open spec fn opt_text_view(o: Option<String>) -> Option<Seq<char>> {
    match o {
        Some(s) => Some(s@),
        None => None,
    }
}

/// The views of a list of optional strings.
pub open spec fn opt_texts_view(v: Seq<Option<String>>) -> Seq<Option<Seq<char>>> {
    v.map_values(|o: Option<String>| opt_text_view(o))
}

/// The view of an optional list of optional strings.
pub open spec fn opt_lines_view(o: Option<Vec<Option<String>>>) -> Option<Seq<Option<Seq<char>>>> {
    match o {
        Some(v) => Some(opt_texts_view(v@)),
        None => None,
    }
}

/// The name of the syntax that syntect's `find_syntax_by_token` finds for
/// `token` among its default syntaxes, if any.
pub uninterp spec fn syntax_by_token(token: Seq<char>) -> Option<Seq<char>>;

/// The name of the syntax that syntect's `find_syntax_by_name` finds for
/// `name` among its default syntaxes, if any.
pub uninterp spec fn syntax_by_name(name: Seq<char>) -> Option<Seq<char>>;

/// The name of the syntax that syntect's `find_syntax_by_extension` finds
/// for `ext` among its default syntaxes, if any.
pub uninterp spec fn syntax_by_extension(ext: Seq<char>) -> Option<Seq<char>>;

/// What syntect gives for `lines`, highlighted in order by one
/// `HighlightLines` with the default syntax named `syntax` and the default
/// theme `base16-ocean.dark`, each line written with 24-bit colour escapes
/// (`None` for a line syntect fails on); `None` when no default syntax has
/// that name.
pub uninterp spec fn highlighted(syntax: Seq<char>, lines: Seq<Seq<char>>) -> Option<
    Seq<Option<Seq<char>>>,
>;

/// syntect's `SyntaxSet::find_syntax_by_token` on the default syntaxes
/// (by extension, then by name ignoring ASCII case): the name of the syntax
/// found. Stated only as the name of its result.
#[verifier::external_body]
fn find_syntax_by_token(token: &str) -> (r: Option<String>)
    ensures
        opt_text_view(r) == syntax_by_token(token@),
{
    syntect::parsing::SyntaxSet::load_defaults_newlines().find_syntax_by_token(token).map(
        |s| s.name.clone(),
    )
}

/// syntect's `SyntaxSet::find_syntax_by_name` on the default syntaxes: the
/// name of the syntax found, which is `name` itself when there is one.
#[verifier::external_body]
fn find_syntax_by_name(name: &str) -> (r: Option<String>)
    ensures
        opt_text_view(r) == syntax_by_name(name@),
        r matches Some(n) ==> n@ == name@,
{
    syntect::parsing::SyntaxSet::load_defaults_newlines().find_syntax_by_name(name).map(
        |s| s.name.clone(),
    )
}

/// syntect's `SyntaxSet::find_syntax_by_extension` on the default syntaxes
/// (extension compared ignoring ASCII case): the name of the syntax found.
/// Stated only as the name of its result.
#[verifier::external_body]
fn find_syntax_by_extension(ext: &str) -> (r: Option<String>)
    ensures
        opt_text_view(r) == syntax_by_extension(ext@),
{
    syntect::parsing::SyntaxSet::load_defaults_newlines().find_syntax_by_extension(ext).map(
        |s| s.name.clone(),
    )
}

/// syntect's `HighlightLines::highlight_line` on each line in turn, with
/// the default syntax named `syntax` and the theme `base16-ocean.dark`
/// (always among syntect's default themes), each result written by
/// `as_24_bit_terminal_escaped` without background. One result per line;
/// what the escapes are is only named (`highlighted`).
#[verifier::external_body]
fn highlight_lines(syntax: &str, lines: &Vec<String>) -> (r: Option<Vec<Option<String>>>)
    ensures
        opt_lines_view(r) == highlighted(syntax@, texts_view(lines@)),
        r matches Some(v) ==> v@.len() == lines@.len(),
{
    let ps = syntect::parsing::SyntaxSet::load_defaults_newlines();
    let ts = syntect::highlighting::ThemeSet::load_defaults();
    let syntax = ps.find_syntax_by_name(syntax)?;
    let mut h = syntect::easy::HighlightLines::new(syntax, &ts.themes["base16-ocean.dark"]);
    Some(lines.iter().map(|l| h.highlight_line(l, &ps).ok().map(
        |r| syntect::util::as_24_bit_terminal_escaped(&r, false),
    )).collect())
}

/// `line` in syntect's default style (black text), as
/// `as_24_bit_terminal_escaped` writes it without background.
pub open spec fn default_styled(line: Seq<char>) -> Seq<char> {
    seq!['\x1b', '[', '3', '8', ';', '2', ';', '0', ';', '0', ';', '0', 'm'] + line
}

/// syntect's `as_24_bit_terminal_escaped` on `line` in the default
/// `Style`: its foreground is opaque black, so the text follows one
/// 24-bit foreground escape for black.
#[verifier::external_body]
fn escape_default_style(line: &str) -> (r: String)
    ensures
        r@ == default_styled(line@),
{
    syntect::util::as_24_bit_terminal_escaped(&[(syntect::highlighting::Style::default(), line)], false)
}

/// The name of syntect's plain text syntax.
pub open spec fn plain_text_syntax() -> Seq<char> {
    "Plain Text"@
}

/// The syntax a code block whose fence names `lang` is drawn with: plain
/// text when it names none; else the one found by token, else by name,
/// else by extension, else plain text.
pub open spec fn chosen_syntax(lang: Seq<char>) -> Seq<char> {
    if lang.len() == 0 {
        plain_text_syntax()
    } else {
        match syntax_by_token(lang) {
            Some(n) => n,
            None => match syntax_by_name(lang) {
                Some(n) => n,
                None => match syntax_by_extension(lang) {
                    Some(n) => n,
                    None => plain_text_syntax(),
                },
            },
        }
    }
}

/// The syntax for a code block whose fence names `lang` (see
/// `chosen_syntax`).
pub fn choose_syntax(lang: &str) -> (r: String)
    ensures
        r@ == chosen_syntax(lang@),
{
    if lang.is_empty() {
        return String::from_str("Plain Text");
    }
    match find_syntax_by_token(lang) {
        Some(n) => n,
        None => match find_syntax_by_name(lang) {
            Some(n) => n,
            None => match find_syntax_by_extension(lang) {
                Some(n) => n,
                None => String::from_str("Plain Text"),
            },
        },
    }
}

/// The drawn lines of code in the syntax named `syntax`: each line as
/// syntect highlights it, or in the default style where syntect fails on
/// it; all in the default style when no syntax has that name.
pub open spec fn code_lines_spec(syntax: Seq<char>, lines: Seq<Seq<char>>) -> Seq<Seq<char>> {
    match highlighted(syntax, lines) {
        Some(h) => Seq::new(
            lines.len(),
            |i: int|
                match h[i] {
                    Some(t) => t,
                    None => default_styled(lines[i]),
                },
        ),
        None => Seq::new(lines.len(), |i: int| default_styled(lines[i])),
    }
}

/// Draws `lines` of code in the syntax named `syntax` (see
/// `code_lines_spec`).
pub fn highlight_with(syntax: &str, lines: &Vec<String>) -> (r: Vec<String>)
    ensures
        texts_view(r@) == code_lines_spec(syntax@, texts_view(lines@)),
{
    let hl = highlight_lines(syntax, lines);
    let ghost want = code_lines_spec(syntax@, texts_view(lines@));
    let mut r: Vec<String> = Vec::new();
    let mut i: usize = 0;
    while i < lines.len()
        invariant
            i <= lines@.len(),
            r@.len() == i,
            want == code_lines_spec(syntax@, texts_view(lines@)),
            opt_lines_view(hl) == highlighted(syntax@, texts_view(lines@)),
            hl matches Some(v) ==> v@.len() == lines@.len(),
            forall|k: int| 0 <= k < i ==> #[trigger] r@[k]@ == want[k],
        decreases lines@.len() - i,
    {
        let t = match &hl {
            Some(v) => match &v[i] {
                Some(s) => s.clone(),
                None => escape_default_style(lines[i].as_str()),
            },
            None => escape_default_style(lines[i].as_str()),
        };
        proof {
            assert(texts_view(lines@)[i as int] == lines@[i as int]@);
            if hl is Some {
                assert(opt_texts_view(hl->0@)[i as int] == opt_text_view(hl->0@[i as int]));
            }
            assert(t@ == want[i as int]);
        }
        r.push(t);
        i += 1;
    }
    proof {
        assert(texts_view(r@) =~= want);
    }
    r
}

/// Draws a code block whose fence names `lang`: its lines in the syntax
/// `chosen_syntax(lang)`.
pub fn highlight_code(lang: &str, lines: &Vec<String>) -> (r: Vec<String>)
    ensures
        texts_view(r@) == code_lines_spec(chosen_syntax(lang@), texts_view(lines@)),
{
    let syntax = choose_syntax(lang);
    highlight_with(syntax.as_str(), lines)
}

/// The lines of `s`, each with its line break; a last line without one is
/// kept when it is not empty. `done` holds the lines so far and `cur` the
/// line being read.
pub open spec fn lines_with_endings_from(s: Seq<char>, done: Seq<Seq<char>>, cur: Seq<char>) -> Seq<
    Seq<char>,
>
    decreases s.len(),
{
    if s.len() == 0 {
        if cur.len() == 0 {
            done
        } else {
            done.push(cur)
        }
    } else if s[0] == '\n' {
        lines_with_endings_from(s.drop_first(), done.push(cur.push('\n')), Seq::empty())
    } else {
        lines_with_endings_from(s.drop_first(), done, cur.push(s[0]))
    }
}

/// The lines of `s` with their line breaks, as syntect's
/// `LinesWithEndings` gives them.
pub open spec fn lines_with_endings_spec(s: Seq<char>) -> Seq<Seq<char>> {
    lines_with_endings_from(s, Seq::empty(), Seq::empty())
}

/// Splits `s` into its lines, each with its line break (see
/// `lines_with_endings_spec`).
pub fn lines_with_endings(s: &str) -> (r: Vec<String>)
    ensures
        texts_view(r@) == lines_with_endings_spec(s@),
{
    let v = to_chars(s);
    let mut r: Vec<String> = Vec::new();
    let mut cur = String::new();
    let mut i: usize = 0;
    proof {
        assert(v@.skip(0) =~= v@);
        assert(texts_view(r@) =~= Seq::<Seq<char>>::empty());
    }
    while i < v.len()
        invariant
            i <= v@.len(),
            v@ == s@,
            lines_with_endings_from(v@.skip(i as int), texts_view(r@), cur@)
                == lines_with_endings_spec(s@),
        decreases v@.len() - i,
    {
        let c = v[i];
        proof {
            assert(v@.skip(i as int).drop_first() =~= v@.skip(i + 1));
            assert(v@.skip(i as int)[0] == c);
        }
        if c == '\n' {
            cur.push('\n');
            let ghost before = texts_view(r@);
            let ghost line = cur@;
            r.push(cur);
            cur = String::new();
            proof {
                assert(texts_view(r@) =~= before.push(line));
                assert(cur@ =~= Seq::<char>::empty());
            }
        } else {
            cur.push(c);
        }
        i += 1;
    }
    proof {
        assert(v@.skip(i as int) =~= Seq::<char>::empty());
    }
    if !cur.as_str().is_empty() {
        let ghost before = texts_view(r@);
        let ghost line = cur@;
        r.push(cur);
        proof {
            assert(texts_view(r@) =~= before.push(line));
        }
    }
    r
}

/// The syntax the preview of an edit is drawn with, for a file with
/// extension `ext` (empty when it has none): the one found by extension,
/// else Rust, else plain text.
pub open spec fn preview_syntax(ext: Seq<char>) -> Seq<char> {
    match syntax_by_extension(ext) {
        Some(n) => n,
        None => match syntax_by_name("Rust"@) {
            Some(n) => n,
            None => plain_text_syntax(),
        },
    }
}

/// Draws the new text of an edit to a file with extension `ext`: its lines
/// (see `lines_with_endings_spec`) in the syntax `preview_syntax(ext)`.
pub fn preview_highlight(ext: &str, text: &str) -> (r: Vec<String>)
    ensures
        texts_view(r@) == code_lines_spec(preview_syntax(ext@), lines_with_endings_spec(text@)),
{
    let syntax = match find_syntax_by_extension(ext) {
        Some(n) => n,
        None => match find_syntax_by_name("Rust") {
            Some(n) => n,
            None => String::from_str("Plain Text"),
        },
    };
    let lines = lines_with_endings(text);
    highlight_with(syntax.as_str(), &lines)
}

} // verus!
