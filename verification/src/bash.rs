//! The shell tool's decisions: which arguments a call carries, which output
//! lines survive the optional regular-expression filters, and the JSON text
//! that reports the outcome.
use vstd::prelude::*;
use crate::text::{lines_spec, lines_from, strip_cr, split_lines, to_chars, from_chars};
use crate::numbers::{parse_u64, parse_u64_spec};

verus! {

/// Whether `regex::Regex::new` accepts `pattern`.
pub uninterp spec fn regex_compiles(pattern: Seq<char>) -> bool;

/// Whether the regular expression compiled from `pattern` matches somewhere
/// in `text` (`regex::Regex::is_match`).
pub uninterp spec fn regex_is_match(pattern: Seq<char>, text: Seq<char>) -> bool;

/// `regex::Regex::new(pattern)`: whether it succeeds. The result depends on
/// the pattern alone.
#[verifier::external_body]
fn regex_valid(pattern: &str) -> (b: bool)
    ensures
        b == regex_compiles(pattern@),
{
    regex::Regex::new(pattern).is_ok()
}

/// `regex::Regex::is_match` on the expression compiled from `pattern`,
/// which must compile.
#[verifier::external_body]
fn regex_match(pattern: &str, text: &str) -> (b: bool)
    requires
        regex_compiles(pattern@),
    ensures
        b == regex_is_match(pattern@, text@),
{
    match regex::Regex::new(pattern) {
        Ok(re) => re.is_match(text),
        Err(_) => false,
    }
}

/// A scalar value of a JSON report.
pub enum JsonScalar {
    Signed(i64),
    Unsigned(u64),
    Text(String),
}

/// What a report value is: a number or a string.
pub enum JsonScalarView {
    Number(int),
    Text(Seq<char>),
}

impl View for JsonScalar {
    type V = JsonScalarView;

    open spec fn view(&self) -> JsonScalarView {
        match self {
            JsonScalar::Signed(n) => JsonScalarView::Number(*n as int),
            JsonScalar::Unsigned(n) => JsonScalarView::Number(*n as int),
            JsonScalar::Text(s) => JsonScalarView::Text(s@),
        }
    }
}

/// The fields of a report, by view.
pub open spec fn fields_view(fields: Seq<(String, JsonScalar)>) -> Seq<(Seq<char>, JsonScalarView)> {
    fields.map_values(|f: (String, JsonScalar)| (f.0@, f.1@))
}

/// The text `serde_json` writes for the object with `fields` (a
/// `serde_json::Map` filled in order, then `Value::to_string`).
pub uninterp spec fn json_object_text(fields: Seq<(Seq<char>, JsonScalarView)>) -> Seq<char>;

/// `serde_json::Value::to_string` on the object holding `fields`, each
/// number a JSON number and each text a JSON string, inserted in order.
/// Writing a value into memory cannot fail. What the text is, is only
/// named (`json_object_text`).
#[verifier::external_body]
fn json_object(fields: Vec<(String, JsonScalar)>) -> (r: String)
    ensures
        r@ == json_object_text(fields_view(fields@)),
{
    let map: serde_json::Map<String, serde_json::Value> = fields.into_iter().map(|(k, v)| (k, match v {
        JsonScalar::Signed(n) => serde_json::Value::from(n),
        JsonScalar::Unsigned(n) => serde_json::Value::from(n),
        JsonScalar::Text(s) => serde_json::Value::from(s),
    })).collect();
    serde_json::Value::Object(map).to_string()
}

/// A shell call's arguments, as the tool uses them.
#[derive(Debug)]
pub struct BashArgs {
    pub cmd: String,
    pub cwd: Option<String>,
    pub timeout_ms: u64,
    pub filter_for: Option<String>,
    pub filter_out: Option<String>,
}

/// An optional text argument, with an empty one counted as absent.
pub open spec fn non_empty(s: Option<String>) -> Option<Seq<char>> {
    match s {
        Some(t) => if t@.len() > 0 {
            Some(t@)
        } else {
            None
        },
        None => None,
    }
}

/// The view of an optional `String`.
pub open spec fn opt_view(s: Option<String>) -> Option<Seq<char>> {
    match s {
        Some(t) => Some(t@),
        None => None,
    }
}

/// The timeout a call asks for: its `timeout_ms` text read as a decimal
/// `u64`, or 60000 when it is absent or not such a number.
pub open spec fn timeout_spec(t: Option<String>) -> u64 {
    match t {
        Some(s) => match parse_u64_spec(s@) {
            Some(n) => n,
            None => 60000,
        },
        None => 60000,
    }
}

fn keep_non_empty(s: Option<String>) -> (r: Option<String>)
    ensures
        opt_view(r) == non_empty(s),
{
    match s {
        Some(t) => if t.as_str().is_empty() {
            None
        } else {
            Some(t)
        },
        None => None,
    }
}

/// The arguments of a shell call, from the string values the call carries
/// under `cmd`, `cwd`, `timeout_ms`, `filter_for` and `filter_out` (`None`
/// where a key is missing or not a string). A call without `cmd` is refused.
pub fn bash_args(
    cmd: Option<String>,
    cwd: Option<String>,
    timeout_ms: Option<String>,
    filter_for: Option<String>,
    filter_out: Option<String>,
) -> (r: Result<BashArgs, &'static str>)
    ensures
        match r {
            Ok(a) => cmd matches Some(c) && a.cmd@ == c@ && opt_view(a.cwd) == non_empty(cwd)
                && a.timeout_ms == timeout_spec(timeout_ms) && opt_view(a.filter_for) == non_empty(
                filter_for,
            ) && opt_view(a.filter_out) == non_empty(filter_out),
            Err(e) => cmd is None && e@ == "please provide a cmd"@,
        },
{
    let cmd = match cmd {
        Some(c) => c,
        None => return Err("please provide a cmd"),
    };
    let timeout = match timeout_ms {
        Some(t) => match parse_u64(t.as_str()) {
            Some(n) => n,
            None => 60000,
        },
        None => 60000,
    };
    Ok(
        BashArgs {
            cmd,
            cwd: keep_non_empty(cwd),
            timeout_ms: timeout,
            filter_for: keep_non_empty(filter_for),
            filter_out: keep_non_empty(filter_out),
        },
    )
}

/// A filter pattern that is applied: one that compiles. A pattern that
/// does not compile is left out, as if none had been given.
pub open spec fn effective_pattern(p: Option<Seq<char>>) -> Option<Seq<char>> {
    match p {
        Some(p) => if regex_compiles(p) {
            Some(p)
        } else {
            None
        },
        None => None,
    }
}

/// A line survives the filters when it matches `filter_for` (if given) and
/// does not match `filter_out` (if given).
pub open spec fn keeps_line(for_p: Option<Seq<char>>, out_p: Option<Seq<char>>, line: Seq<char>) -> bool {
    (match for_p {
        Some(p) => regex_is_match(p, line),
        None => true,
    }) && (match out_p {
        Some(p) => !regex_is_match(p, line),
        None => true,
    })
}

/// The lines that survive the filters, in order.
pub open spec fn kept_lines(
    lines: Seq<Seq<char>>,
    for_p: Option<Seq<char>>,
    out_p: Option<Seq<char>>,
) -> Seq<Seq<char>>
    decreases lines.len(),
{
    if lines.len() == 0 {
        Seq::empty()
    } else if keeps_line(for_p, out_p, lines.last()) {
        kept_lines(lines.drop_last(), for_p, out_p).push(lines.last())
    } else {
        kept_lines(lines.drop_last(), for_p, out_p)
    }
}

/// `parts` joined with `sep` between each two.
pub open spec fn join_spec(parts: Seq<Seq<char>>, sep: Seq<char>) -> Seq<char>
    decreases parts.len(),
{
    if parts.len() == 0 {
        Seq::empty()
    } else if parts.len() == 1 {
        parts[0]
    } else {
        join_spec(parts.drop_last(), sep) + sep + parts.last()
    }
}

/// The output text after filtering: the surviving lines joined by `\n`.
pub open spec fn filtered_output_spec(
    text: Seq<char>,
    filter_for: Option<Seq<char>>,
    filter_out: Option<Seq<char>>,
) -> Seq<char> {
    join_spec(
        kept_lines(lines_spec(text), effective_pattern(filter_for), effective_pattern(filter_out)),
        seq!['\n'],
    )
}

fn usable_pattern(p: &Option<String>) -> (r: Option<&str>)
    ensures
        match r {
            Some(s) => effective_pattern(opt_view(*p)) == Some(s@),
            None => effective_pattern(opt_view(*p)) is None,
        },
{
    match p {
        Some(s) => if regex_valid(s.as_str()) {
            Some(s.as_str())
        } else {
            None
        },
        None => None,
    }
}

/// `text` with only the lines that survive the filters, joined by `\n`
/// (see `filtered_output_spec`). A filter whose pattern does not compile is
/// not applied.
pub fn filter_output(text: &str, filter_for: &Option<String>, filter_out: &Option<String>) -> (r:
    String)
    ensures
        r@ == filtered_output_spec(text@, opt_view(*filter_for), opt_view(*filter_out)),
{
    let fp = usable_pattern(filter_for);
    let op = usable_pattern(filter_out);
    let ghost ef = effective_pattern(opt_view(*filter_for));
    let ghost eo = effective_pattern(opt_view(*filter_out));
    let chars = to_chars(text);
    let lines = split_lines(&chars);
    let ghost ls = lines_spec(text@);
    let mut out: Vec<char> = Vec::new();
    let mut count: usize = 0;
    let mut i: usize = 0;
    while i < lines.len()
        invariant
            i <= lines@.len(),
            lines@.len() == ls.len(),
            forall|k: int| 0 <= k < lines@.len() ==> #[trigger] lines@[k]@ == ls[k],
            count == kept_lines(ls.take(i as int), ef, eo).len(),
            out@ == join_spec(kept_lines(ls.take(i as int), ef, eo), seq!['\n']),
            ef == effective_pattern(opt_view(*filter_for)),
            eo == effective_pattern(opt_view(*filter_out)),
            match fp {
                Some(s) => ef == Some(s@),
                None => ef is None,
            },
            match op {
                Some(s) => eo == Some(s@),
                None => eo is None,
            },
            count <= i,
        decreases lines@.len() - i,
    {
        let line = from_chars(&lines[i]);
        let keep_for = match fp {
            Some(p) => regex_match(p, line.as_str()),
            None => true,
        };
        let keep_out = match op {
            Some(p) => !regex_match(p, line.as_str()),
            None => true,
        };
        let ghost prev = kept_lines(ls.take(i as int), ef, eo);
        proof {
            assert(ls.take(i + 1).drop_last() =~= ls.take(i as int));
            assert(ls.take(i + 1).last() == line@);
        }
        if keep_for && keep_out {
            if count > 0 {
                out.push('\n');
            }
            let cur = &lines[i];
            let mut k: usize = 0;
            let ghost base = out@;
            while k < cur.len()
                invariant
                    k <= cur@.len(),
                    out@ == base + cur@.take(k as int),
                decreases cur@.len() - k,
            {
                out.push(cur[k]);
                k += 1;
                proof {
                    assert(cur@.take(k as int) =~= cur@.take(k - 1).push(cur@[k - 1]));
                }
            }
            proof {
                assert(cur@.take(k as int) =~= cur@);
                let now = prev.push(line@);
                assert(now.drop_last() =~= prev);
                if count == 0 {
                    assert(prev.len() == 0);
                    assert(out@ =~= join_spec(now, seq!['\n']));
                } else {
                    assert(out@ =~= join_spec(now, seq!['\n']));
                }
            }
            count += 1;
        }
        i += 1;
    }
    proof {
        assert(ls.take(i as int) =~= ls);
    }
    from_chars(&out)
}

/// With neither filter given, the output is every line of the text,
/// joined by `\n`.
pub proof fn lemma_no_filters_keep_all(lines: Seq<Seq<char>>)
    ensures
        kept_lines(lines, None, None) == lines,
    decreases lines.len(),
{
    if lines.len() > 0 {
        lemma_no_filters_keep_all(lines.drop_last());
        assert(lines.drop_last().push(lines.last()) =~= lines);
    }
}

/// Giving the same compiling pattern as `filter_for` and `filter_out`
/// leaves no line.
pub proof fn lemma_same_filter_keeps_nothing(lines: Seq<Seq<char>>, p: Seq<char>)
    ensures
        kept_lines(lines, Some(p), Some(p)) == Seq::<Seq<char>>::empty(),
    decreases lines.len(),
{
    if lines.len() > 0 {
        lemma_same_filter_keeps_nothing(lines.drop_last(), p);
    }
}

/// The lines that survive the filters are exactly, in order, those that
/// `filter_for` (when given) matches and `filter_out` (when given) does
/// not, each line matched as it stands.
pub proof fn lemma_kept_lines_are_matching_lines(
    lines: Seq<Seq<char>>,
    for_p: Option<Seq<char>>,
    out_p: Option<Seq<char>>,
)
    ensures
        kept_lines(lines, for_p, out_p) == lines.filter(
            |l: Seq<char>|
                (for_p is Some ==> regex_is_match(for_p->0, l)) && (out_p is Some ==> !regex_is_match(
                    out_p->0,
                    l,
                )),
        ),
    decreases lines.len(),
{
    reveal(Seq::filter);
    if lines.len() > 0 {
        lemma_kept_lines_are_matching_lines(lines.drop_last(), for_p, out_p);
    }
}

proof fn lemma_lines_without_break(s: Seq<char>, cur: Seq<char>)
    requires
        forall|i: int| 0 <= i < s.len() ==> #[trigger] s[i] != '\n',
    ensures
        lines_from(s, cur) == (if (cur + s).len() == 0 {
            Seq::<Seq<char>>::empty()
        } else {
            seq![cur + s]
        }),
    decreases s.len(),
{
    if s.len() == 0 {
        assert(cur + s =~= cur);
    } else {
        let t = s.drop_first();
        assert forall|i: int| 0 <= i < t.len() implies #[trigger] t[i] != '\n' by {
            assert(t[i] == s[i + 1]);
        }
        assert(s[0] != '\n');
        lemma_lines_without_break(t, cur.push(s[0]));
        assert(cur.push(s[0]) + t =~= cur + s);
    }
}

/// A one-line output (no line break) with a compiling `filter_for` pattern
/// is kept whole when the pattern matches the line itself, and dropped
/// otherwise; with a compiling `filter_out` pattern it is dropped when the
/// pattern matches the line and kept otherwise.
pub proof fn lemma_filter_one_line(line: Seq<char>, p: Seq<char>)
    requires
        forall|i: int| 0 <= i < line.len() ==> #[trigger] line[i] != '\n',
        regex_compiles(p),
    ensures
        filtered_output_spec(line, Some(p), None) == (if regex_is_match(p, line) {
            line
        } else {
            Seq::<char>::empty()
        }),
        filtered_output_spec(line, None, Some(p)) == (if regex_is_match(p, line) {
            Seq::<char>::empty()
        } else {
            line
        }),
{
    lemma_lines_without_break(line, Seq::empty());
    assert(Seq::<char>::empty() + line =~= line);
    let ls = lines_spec(line);
    assert(effective_pattern(Some(p)) == Some(p));
    let nl = seq!['\n'];
    if line.len() > 0 {
        assert(ls == seq![line]);
        assert(ls.drop_last() =~= Seq::<Seq<char>>::empty());
        assert(ls.last() == line);
        assert(Seq::<Seq<char>>::empty().push(line) =~= seq![line]);
        assert(kept_lines(ls.drop_last(), Some(p), None) == Seq::<Seq<char>>::empty());
        assert(kept_lines(ls.drop_last(), None, Some(p)) == Seq::<Seq<char>>::empty());
        assert(join_spec(seq![line], nl) == line);
        assert(join_spec(Seq::<Seq<char>>::empty(), nl) == Seq::<char>::empty());
        if regex_is_match(p, line) {
            assert(kept_lines(ls, Some(p), None) == seq![line]);
            assert(kept_lines(ls, None, Some(p)) == Seq::<Seq<char>>::empty());
        } else {
            assert(kept_lines(ls, Some(p), None) == Seq::<Seq<char>>::empty());
            assert(kept_lines(ls, None, Some(p)) == seq![line]);
        }
    } else {
        assert(line =~= Seq::<char>::empty());
        assert(ls == Seq::<Seq<char>>::empty());
        assert(kept_lines(ls, Some(p), None) == Seq::<Seq<char>>::empty());
        assert(kept_lines(ls, None, Some(p)) == Seq::<Seq<char>>::empty());
        assert(join_spec(Seq::<Seq<char>>::empty(), nl) == Seq::<char>::empty());
    }
}

/// `s` without its final line break, if it ends with one.
pub open spec fn without_final_break(s: Seq<char>) -> Seq<char> {
    if s.len() > 0 && s.last() == '\n' {
        s.drop_last()
    } else {
        s
    }
}

proof fn lemma_join_front(x: Seq<char>, rest: Seq<Seq<char>>, sep: Seq<char>)
    requires
        rest.len() > 0,
    ensures
        join_spec(seq![x] + rest, sep) == x + sep + join_spec(rest, sep),
    decreases rest.len(),
{
    let all = seq![x] + rest;
    assert(all.last() == rest.last());
    assert(all.len() >= 2);
    assert(join_spec(all, sep) == join_spec(all.drop_last(), sep) + sep + all.last());
    if rest.len() == 1 {
        assert(all.drop_last() =~= seq![x]);
        assert(join_spec(seq![x], sep) == x);
        assert(join_spec(rest, sep) == rest[0]);
        assert(rest.last() == rest[0]);
    } else {
        assert(all.drop_last() =~= seq![x] + rest.drop_last());
        lemma_join_front(x, rest.drop_last(), sep);
        assert(join_spec(rest, sep) == join_spec(rest.drop_last(), sep) + sep + rest.last());
        assert(x + sep + join_spec(rest.drop_last(), sep) + sep + rest.last() =~= x + sep + (join_spec(
            rest.drop_last(),
            sep,
        ) + sep + rest.last()));
    }
}

proof fn lemma_lines_from_nonempty(s: Seq<char>, cur: Seq<char>)
    ensures
        lines_from(s, cur).len() == 0 <==> (s.len() == 0 && cur.len() == 0),
    decreases s.len(),
{
    if s.len() > 0 {
        lemma_lines_from_nonempty(s.drop_first(), if s[0] == '\n' {
            Seq::empty()
        } else {
            cur.push(s[0])
        });
    }
}

proof fn lemma_join_lines_from(s: Seq<char>, cur: Seq<char>)
    requires
        forall|i: int| 0 <= i < s.len() ==> #[trigger] s[i] != '\r',
        forall|i: int| 0 <= i < cur.len() ==> #[trigger] cur[i] != '\r',
    ensures
        join_spec(lines_from(s, cur), seq!['\n']) == cur + without_final_break(s),
    decreases s.len(),
{
    let nl = seq!['\n'];
    if s.len() == 0 {
        assert(cur + s =~= cur);
        if cur.len() > 0 {
            assert(join_spec(seq![cur], nl) == cur);
        }
    } else {
        let t = s.drop_first();
        assert forall|i: int| 0 <= i < t.len() implies #[trigger] t[i] != '\r' by {
            assert(t[i] == s[i + 1]);
        }
        if s[0] == '\n' {
            if cur.len() > 0 {
                assert(cur[cur.len() - 1] != '\r');
            }
            assert(strip_cr(cur) == cur);
            lemma_join_lines_from(t, Seq::empty());
            lemma_lines_from_nonempty(t, Seq::empty());
            let rest = lines_from(t, Seq::empty());
            if t.len() == 0 {
                assert(rest.len() == 0);
                assert(seq![cur] + rest =~= seq![cur]);
                assert(join_spec(seq![cur], nl) == cur);
                assert(without_final_break(s) =~= Seq::<char>::empty());
                assert(cur + without_final_break(s) =~= cur);
            } else {
                lemma_join_front(cur, rest, nl);
                assert(Seq::<char>::empty() + without_final_break(t) =~= without_final_break(t));
                assert(without_final_break(s) =~= nl + without_final_break(t));
                assert(cur + nl + without_final_break(t) =~= cur + without_final_break(s));
            }
        } else {
            let c2 = cur.push(s[0]);
            assert forall|i: int| 0 <= i < c2.len() implies #[trigger] c2[i] != '\r' by {
                if i < cur.len() {
                    assert(c2[i] == cur[i]);
                }
            }
            lemma_join_lines_from(t, c2);
            if t.len() == 0 {
                assert(without_final_break(s) =~= s);
                assert(c2 + without_final_break(t) =~= cur + s);
            } else {
                assert(without_final_break(s) =~= seq![s[0]] + without_final_break(t));
                assert(c2 + without_final_break(t) =~= cur + without_final_break(s));
            }
        }
    }
}

/// With no filters the output is the text itself, but for a final line
/// break (for text without carriage returns): no line is lost, changed or
/// reordered, and lines stay separated by one `\n`.
pub proof fn lemma_no_filters_give_the_text(text: Seq<char>)
    requires
        forall|i: int| 0 <= i < text.len() ==> #[trigger] text[i] != '\r',
    ensures
        filtered_output_spec(text, None, None) == without_final_break(text),
{
    lemma_no_filters_keep_all(lines_spec(text));
    lemma_join_lines_from(text, Seq::empty());
    assert(Seq::<char>::empty() + without_final_break(text) =~= without_final_break(text));
}

/// The fields of the report of a finished command: its exit code (-1 when
/// it has none, e.g. when a signal ended it) and its filtered output
/// streams.
pub open spec fn completed_fields(code: Option<i32>, stdout: Seq<char>, stderr: Seq<char>) -> Seq<
    (Seq<char>, JsonScalarView),
> {
    let c: int = match code {
        Some(c) => c as int,
        None => -1,
    };
    seq![
        ("exit_code"@, JsonScalarView::Number(c)),
        ("stdout"@, JsonScalarView::Text(stdout)),
        ("stderr"@, JsonScalarView::Text(stderr)),
    ]
}

/// The JSON report of a finished command whose raw output streams are
/// `stdout_raw` and `stderr_raw`; each stream is filtered line by line (see
/// `filtered_output_spec`).
pub fn completed_report(
    code: Option<i32>,
    stdout_raw: &str,
    stderr_raw: &str,
    filter_for: &Option<String>,
    filter_out: &Option<String>,
) -> (r: String)
    ensures
        r@ == json_object_text(
            completed_fields(
                code,
                filtered_output_spec(stdout_raw@, opt_view(*filter_for), opt_view(*filter_out)),
                filtered_output_spec(stderr_raw@, opt_view(*filter_for), opt_view(*filter_out)),
            ),
        ),
{
    let stdout = filter_output(stdout_raw, filter_for, filter_out);
    let stderr = filter_output(stderr_raw, filter_for, filter_out);
    let c: i64 = match code {
        Some(c) => c as i64,
        None => -1,
    };
    let mut fields: Vec<(String, JsonScalar)> = Vec::new();
    fields.push((String::from_str("exit_code"), JsonScalar::Signed(c)));
    fields.push((String::from_str("stdout"), JsonScalar::Text(stdout)));
    fields.push((String::from_str("stderr"), JsonScalar::Text(stderr)));
    let ghost want = completed_fields(
        code,
        filtered_output_spec(stdout_raw@, opt_view(*filter_for), opt_view(*filter_out)),
        filtered_output_spec(stderr_raw@, opt_view(*filter_for), opt_view(*filter_out)),
    );
    proof {
        assert(fields_view(fields@) =~= want);
    }
    json_object(fields)
}

/// The fields of the report of a command that did not finish within
/// `timeout_ms`.
pub open spec fn timeout_fields(timeout_ms: u64) -> Seq<(Seq<char>, JsonScalarView)> {
    seq![
        ("error"@, JsonScalarView::Text("timeout"@)),
        ("timeout_ms"@, JsonScalarView::Number(timeout_ms as int)),
    ]
}

/// The JSON report of a command that did not finish within `timeout_ms`.
pub fn timeout_report(timeout_ms: u64) -> (r: String)
    ensures
        r@ == json_object_text(timeout_fields(timeout_ms)),
{
    let mut fields: Vec<(String, JsonScalar)> = Vec::new();
    fields.push((String::from_str("error"), JsonScalar::Text(String::from_str("timeout"))));
    fields.push((String::from_str("timeout_ms"), JsonScalar::Unsigned(timeout_ms)));
    proof {
        assert(fields_view(fields@) =~= timeout_fields(timeout_ms));
    }
    json_object(fields)
}

/// The report of a command that could not be started.
pub fn failed_report() -> (r: &'static str)
    ensures
        r@ == "failed to execute command"@,
{
    "failed to execute command"
}

} // verus!
