//! An agent reply drawn for the terminal: which lines open or close a
//! ``` code fence, which are code and which are plain text; code blocks
//! are highlighted with syntect, fences and text are tinted grey.
use vstd::prelude::*;
use crate::text::{lines_spec, split_lines, to_chars, from_chars, trim_chars, trim_spec, replace_all_spec};
use crate::numbers::decimal_spec;
use crate::highlight::{chosen_syntax, code_lines_spec, highlight_code, texts_view};

verus! {

/// One line of a reply, classified.
#[derive(Debug, Clone, PartialEq, Eq)]
pub enum MarkdownLine {
    /// A fence that opens a code block, with the language named after the
    /// backticks (trimmed; empty when none is named).
    FenceOpen(String),
    /// A fence that closes the open code block.
    FenceClose,
    /// A line inside a code block.
    Code(String),
    /// A line outside any code block.
    Text(String),
}

/// What a `MarkdownLine` holds.
pub enum MarkdownLineView {
    FenceOpen(Seq<char>),
    FenceClose,
    Code(Seq<char>),
    Text(Seq<char>),
}

impl View for MarkdownLine {
    type V = MarkdownLineView;

    open spec fn view(&self) -> MarkdownLineView {
        match self {
            MarkdownLine::FenceOpen(l) => MarkdownLineView::FenceOpen(l@),
            MarkdownLine::FenceClose => MarkdownLineView::FenceClose,
            MarkdownLine::Code(l) => MarkdownLineView::Code(l@),
            MarkdownLine::Text(l) => MarkdownLineView::Text(l@),
        }
    }
}

/// The three backticks that open and close a code block.
pub open spec fn fence() -> Seq<char> {
    seq!['`', '`', '`']
}

/// `line` starts with a fence.
pub open spec fn is_fence(line: Seq<char>) -> bool {
    line.len() >= 3 && line.take(3) == fence()
}

/// The classification of `lines`, given whether a code block is open
/// before the first of them. A fence line closes an open block and
/// otherwise opens one; other lines are code inside a block and text
/// outside.
pub open spec fn classify_from(lines: Seq<Seq<char>>, in_code: bool) -> Seq<MarkdownLineView>
    decreases lines.len(),
{
    if lines.len() == 0 {
        Seq::empty()
    } else {
        let l = lines[0];
        if is_fence(l) {
            if in_code {
                seq![MarkdownLineView::FenceClose] + classify_from(lines.drop_first(), false)
            } else {
                seq![MarkdownLineView::FenceOpen(trim_spec(l.skip(3)))] + classify_from(
                    lines.drop_first(),
                    true,
                )
            }
        } else if in_code {
            seq![MarkdownLineView::Code(l)] + classify_from(lines.drop_first(), true)
        } else {
            seq![MarkdownLineView::Text(l)] + classify_from(lines.drop_first(), false)
        }
    }
}

/// The classification of every line of `input`, starting outside any code
/// block.
pub open spec fn classify_markdown_spec(input: Seq<char>) -> Seq<MarkdownLineView> {
    classify_from(lines_spec(input), false)
}

proof fn lemma_classify_len(lines: Seq<Seq<char>>, in_code: bool)
    ensures
        classify_from(lines, in_code).len() == lines.len(),
    decreases lines.len(),
{
    if lines.len() > 0 {
        lemma_classify_len(lines.drop_first(), is_fence(lines[0]) != in_code);
    }
}

/// Every line of the input gives exactly one classified line.
pub proof fn lemma_one_entry_per_line(input: Seq<char>)
    ensures
        classify_markdown_spec(input).len() == lines_spec(input).len(),
{
    lemma_classify_len(lines_spec(input), false);
}

/// In a reply without fences every line is plain text, unchanged.
pub proof fn lemma_no_fence_all_text(lines: Seq<Seq<char>>)
    requires
        forall|i: int| 0 <= i < lines.len() ==> !is_fence(#[trigger] lines[i]),
    ensures
        classify_from(lines, false) == lines.map_values(|l: Seq<char>| MarkdownLineView::Text(l)),
    decreases lines.len(),
{
    if lines.len() > 0 {
        let t = lines.drop_first();
        assert forall|i: int| 0 <= i < t.len() implies !is_fence(#[trigger] t[i]) by {
            assert(t[i] == lines[i + 1]);
        }
        lemma_no_fence_all_text(t);
        assert(!is_fence(lines[0]));
        assert(classify_from(lines, false) =~= lines.map_values(
            |l: Seq<char>| MarkdownLineView::Text(l),
        ));
    } else {
        assert(classify_from(lines, false) =~= lines.map_values(
            |l: Seq<char>| MarkdownLineView::Text(l),
        ));
    }
}

/// Whether `line` starts with three backticks.
fn starts_with_fence(line: &[char]) -> (b: bool)
    ensures
        b == is_fence(line@),
{
    if line.len() >= 3 && line[0] == '`' && line[1] == '`' && line[2] == '`' {
        proof {
            assert(line@.take(3) =~= fence());
        }
        true
    } else {
        proof {
            if line@.len() >= 3 {
                assert(line@.take(3)[0] == line@[0]);
                assert(line@.take(3)[1] == line@[1]);
                assert(line@.take(3)[2] == line@[2]);
            }
        }
        false
    }
}

/// Splits a reply into classified lines (see `classify_markdown_spec`).
pub fn classify_markdown(input: &str) -> (r: Vec<MarkdownLine>)
    ensures
        r@.len() == classify_markdown_spec(input@).len(),
        forall|i: int| 0 <= i < r@.len() ==> #[trigger] r@[i]@ == classify_markdown_spec(input@)[i],
{
    let chars = to_chars(input);
    let lines = split_lines(&chars);
    let ghost ls = lines_spec(input@);
    let mut out: Vec<MarkdownLine> = Vec::new();
    let mut in_code = false;
    let mut i: usize = 0;
    proof {
        assert(lines@.map_values(|l: Vec<char>| l@) =~= ls);
        assert(ls.skip(0) =~= ls);
    }
    while i < lines.len()
        invariant
            i <= lines@.len(),
            lines@.len() == ls.len(),
            forall|k: int| 0 <= k < lines@.len() ==> #[trigger] lines@[k]@ == ls[k],
            ls == lines_spec(input@),
            out@.map_values(|m: MarkdownLine| m@) + classify_from(ls.skip(i as int), in_code)
                == classify_from(ls, false),
        decreases lines@.len() - i,
    {
        let line = &lines[i];
        let ghost rest = ls.skip(i as int);
        proof {
            assert(rest[0] == line@);
            assert(rest.drop_first() =~= ls.skip(i + 1));
        }
        let item = if starts_with_fence(line) {
            if in_code {
                in_code = false;
                MarkdownLine::FenceClose
            } else {
                in_code = true;
                let mut tail: Vec<char> = Vec::new();
                let mut k: usize = 3;
                while k < line.len()
                    invariant
                        3 <= k <= line@.len(),
                        tail@ == line@.subrange(3, k as int),
                    decreases line@.len() - k,
                {
                    tail.push(line[k]);
                    k += 1;
                    proof {
                        assert(line@.subrange(3, k as int) =~= line@.subrange(3, k - 1).push(
                            line@[k - 1],
                        ));
                    }
                }
                proof {
                    assert(tail@ =~= line@.skip(3));
                }
                let lang = trim_chars(&tail);
                MarkdownLine::FenceOpen(from_chars(&lang))
            }
        } else if in_code {
            MarkdownLine::Code(from_chars(line))
        } else {
            MarkdownLine::Text(from_chars(line))
        };
        let ghost before = out@;
        out.push(item);
        proof {
            assert(out@.map_values(|m: MarkdownLine| m@) =~= before.map_values(
                |m: MarkdownLine| m@,
            ).push(item@));
        }
        i += 1;
    }
    proof {
        assert(ls.skip(i as int) =~= Seq::<Seq<char>>::empty());
        let o = out@.map_values(|m: MarkdownLine| m@);
        assert(o =~= classify_from(ls, false));
        assert forall|j: int| 0 <= j < out@.len() implies #[trigger] out@[j]@
            == classify_markdown_spec(input@)[j] by {
            assert(o[j] == out@[j]@);
        }
    }
    out
}


/// The escape sequence that ends a colour.
pub open spec fn sgr_reset() -> Seq<char> {
    seq!['\x1b', '[', '0', 'm']
}

/// The escape sequence that starts the colour with parameters `code`.
pub open spec fn sgr_start(code: Seq<char>) -> Seq<char> {
    seq!['\x1b', '['] + code + seq!['m']
}

/// The colour parameters of a 24-bit foreground colour.
pub open spec fn truecolor_code(r: u8, g: u8, b: u8) -> Seq<char> {
    seq!['3', '8', ';', '2', ';'] + decimal_spec(r as nat) + seq![';'] + decimal_spec(g as nat) + seq![
        ';',
    ] + decimal_spec(b as nat)
}

/// The parameters of one of the sixteen basic foreground colours.
pub open spec fn basic_fg_code(code: Seq<char>) -> bool {
    code.len() == 2 && (code[0] == '3' || code[0] == '9') && '0' <= code[1] <= '7'
}

/// `text` written in the colour with parameters `code`, as colored writes
/// it: the colour is started again after every reset inside the text.
pub open spec fn painted_with(text: Seq<char>, code: Seq<char>) -> Seq<char> {
    sgr_start(code) + replace_all_spec(text, sgr_reset(), sgr_reset() + sgr_start(code))
        + sgr_reset()
}

/// What colored can give for `text` in the 24-bit colour `(r, g, b)`: the
/// text as it is when its environment turns colour off, the 24-bit colour,
/// or, when the terminal does not announce 24-bit support, the nearest of
/// the sixteen basic colours.
pub open spec fn paint_outcome(text: Seq<char>, out: Seq<char>, r: u8, g: u8, b: u8) -> bool {
    ||| out == text
    ||| out == painted_with(text, truecolor_code(r, g, b))
    ||| exists|code: Seq<char>| #[trigger] basic_fg_code(code) && out == painted_with(text, code)
}

/// colored's `truecolor(r, g, b)` on `text`, written out. Whether and how
/// it colours depends on the environment (`NO_COLOR`, `CLICOLOR`,
/// `CLICOLOR_FORCE`, `COLORTERM`, whether standard output is a terminal),
/// so only what holds of every outcome is stated.
#[verifier::external_body]
fn paint(text: &str, r: u8, g: u8, b: u8) -> (out: String)
    ensures
        paint_outcome(text@, out@, r, g, b),
{
    colored::Colorize::truecolor(text, r, g, b).to_string()
}

/// One piece of the drawn reply: text as it is, or text to tint.
pub enum RenderPiece {
    Raw(Seq<char>),
    Paint(Seq<char>, u8, u8, u8),
}

/// What a piece may be written as: raw text as it is; tinted text as it is
/// when colour is off, and as colored writes it (see `paint_outcome`) when
/// colour is on.
pub open spec fn piece_allowed(p: RenderPiece, out: Seq<char>, color: bool) -> bool {
    match p {
        RenderPiece::Raw(t) => out == t,
        RenderPiece::Paint(t, r, g, b) => if color {
            paint_outcome(t, out, r, g, b)
        } else {
            out == t
        },
    }
}

/// The text of a piece with colour off.
pub open spec fn plain_text(p: RenderPiece) -> Seq<char> {
    match p {
        RenderPiece::Raw(t) => t,
        RenderPiece::Paint(t, _, _, _) => t,
    }
}

/// `outs` is a way of writing `pieces`, one text per piece.
pub open spec fn rendered_as(pieces: Seq<RenderPiece>, outs: Seq<Seq<char>>, color: bool) -> bool {
    &&& outs.len() == pieces.len()
    &&& forall|k: int| 0 <= k < pieces.len() ==> piece_allowed(pieces[k], #[trigger] outs[k], color)
}

/// The texts laid end to end.
pub open spec fn joined(parts: Seq<Seq<char>>) -> Seq<char>
    decreases parts.len(),
{
    if parts.len() == 0 {
        Seq::empty()
    } else {
        joined(parts.drop_last()) + parts.last()
    }
}

proof fn lemma_joined_append(a: Seq<Seq<char>>, b: Seq<Seq<char>>)
    ensures
        joined(a + b) == joined(a) + joined(b),
    decreases b.len(),
{
    if b.len() == 0 {
        assert(a + b =~= a);
        assert(joined(a) + joined(b) =~= joined(a));
    } else {
        lemma_joined_append(a, b.drop_last());
        assert((a + b).drop_last() =~= a + b.drop_last());
        assert(joined(a + b) =~= joined(a) + joined(b));
    }
}

/// A line break.
pub open spec fn newline() -> Seq<char> {
    seq!['\n']
}

/// The pieces for an open code block: its highlighted lines.
pub open spec fn flush_spec(block: Option<(Seq<char>, Seq<Seq<char>>)>) -> Seq<RenderPiece> {
    match block {
        None => Seq::empty(),
        Some((lang, lines)) => Seq::new(
            lines.len(),
            |i: int| RenderPiece::Raw(code_lines_spec(chosen_syntax(lang), lines)[i]),
        ),
    }
}

/// The pieces for the classified lines `events`, given the code block open
/// before them (its language and the lines read so far, each with its line
/// break). A fence opening a block is drawn as a grey fence line; the
/// block's lines are highlighted together when it ends (at its closing
/// fence or at the end of the reply); a closing fence is not drawn; a text
/// line is drawn light grey; a code line outside any block is kept as is.
pub open spec fn render_from(
    events: Seq<MarkdownLineView>,
    block: Option<(Seq<char>, Seq<Seq<char>>)>,
) -> Seq<RenderPiece>
    decreases events.len(),
{
    if events.len() == 0 {
        flush_spec(block)
    } else {
        let rest = events.drop_first();
        match events[0] {
            MarkdownLineView::FenceOpen(lang) => flush_spec(block) + seq![
                RenderPiece::Paint("```"@, 120, 120, 120),
                RenderPiece::Raw(newline()),
            ] + render_from(rest, Some((lang, Seq::empty()))),
            MarkdownLineView::FenceClose => flush_spec(block) + render_from(rest, None),
            MarkdownLineView::Code(l) => match block {
                Some((lang, lines)) => render_from(rest, Some((lang, lines.push(l + newline())))),
                None => seq![RenderPiece::Raw(l + newline())] + render_from(rest, None),
            },
            MarkdownLineView::Text(l) => flush_spec(block) + seq![
                RenderPiece::Paint(l, 220, 220, 220),
                RenderPiece::Raw(newline()),
            ] + render_from(rest, None),
        }
    }
}

/// The pieces a reply is drawn as.
pub open spec fn render_spec(input: Seq<char>) -> Seq<RenderPiece> {
    render_from(classify_markdown_spec(input), None)
}

/// The view of the open code block.
pub open spec fn block_view(block: Option<(String, Vec<String>)>) -> Option<(Seq<char>, Seq<Seq<char>>)> {
    match block {
        Some((l, v)) => Some((l@, texts_view(v@))),
        None => None,
    }
}

fn flush_block(block: Option<(String, Vec<String>)>) -> (r: Vec<String>)
    ensures
        r@.len() == flush_spec(block_view(block)).len(),
        forall|i: int| 0 <= i < r@.len() ==> flush_spec(block_view(block))[i] == RenderPiece::Raw(
            #[trigger] r@[i]@,
        ),
{
    match block {
        Some((lang, lines)) => {
            let r = highlight_code(lang.as_str(), &lines);
            proof {
                let want = code_lines_spec(chosen_syntax(lang@), texts_view(lines@));
                assert(want.len() == lines@.len());
                assert(texts_view(r@).len() == r@.len());
                assert forall|i: int| 0 <= i < r@.len() implies flush_spec(block_view(block))[i]
                    == RenderPiece::Raw(#[trigger] r@[i]@) by {
                    assert(texts_view(r@)[i] == r@[i]@);
                }
            }
            r
        },
        None => Vec::new(),
    }
}

fn append_all(out: &mut String, parts: &Vec<String>)
    ensures
        final(out)@ == old(out)@ + joined(texts_view(parts@)),
{
    let mut i: usize = 0;
    while i < parts.len()
        invariant
            i <= parts@.len(),
            out@ == old(out)@ + joined(texts_view(parts@.take(i as int))),
        decreases parts@.len() - i,
    {
        out.append(parts[i].as_str());
        proof {
            assert(texts_view(parts@.take(i + 1)).drop_last() =~= texts_view(parts@.take(i as int)));
        }
        i += 1;
    }
    proof {
        assert(parts@.take(i as int) =~= parts@);
    }
}

fn paint_piece(text: &str, r: u8, g: u8, b: u8, color: bool) -> (out: String)
    ensures
        piece_allowed(RenderPiece::Paint(text@, r, g, b), out@, color),
{
    if color {
        paint(text, r, g, b)
    } else {
        String::from_str(text)
    }
}

proof fn lemma_extend(
    pieces: Seq<RenderPiece>,
    outs: Seq<Seq<char>>,
    np: Seq<RenderPiece>,
    no: Seq<Seq<char>>,
    color: bool,
)
    requires
        rendered_as(pieces, outs, color),
        rendered_as(np, no, color),
    ensures
        rendered_as(pieces + np, outs + no, color),
        joined(outs + no) == joined(outs) + joined(no),
{
    lemma_joined_append(outs, no);
    assert forall|k: int| 0 <= k < (pieces + np).len() implies piece_allowed(
        (pieces + np)[k],
        #[trigger] (outs + no)[k],
        color,
    ) by {
        if k >= pieces.len() {
            assert(no[k - pieces.len()] == (outs + no)[k]);
            assert(np[k - pieces.len()] == (pieces + np)[k]);
        } else {
            assert(outs[k] == (outs + no)[k]);
        }
    }
}

proof fn lemma_flush_rendered(hl: Seq<String>, fl: Seq<RenderPiece>, color: bool)
    requires
        hl.len() == fl.len(),
        forall|i: int| 0 <= i < hl.len() ==> fl[i] == RenderPiece::Raw(#[trigger] hl[i]@),
    ensures
        rendered_as(fl, texts_view(hl), color),
{
    assert forall|k: int| 0 <= k < fl.len() implies piece_allowed(
        fl[k],
        #[trigger] texts_view(hl)[k],
        color,
    ) by {
        assert(fl[k] == RenderPiece::Raw(hl[k]@));
    }
}

proof fn lemma_joined_two(a: Seq<char>, b: Seq<char>)
    ensures
        joined(seq![a, b]) == a + b,
{
    assert(seq![a, b].drop_last() =~= seq![a]);
    let e = Seq::<Seq<char>>::empty();
    assert(seq![a].drop_last() =~= e);
    assert(joined(e) == Seq::<char>::empty());
    assert(seq![a].last() == a);
    assert(joined(seq![a]) == joined(e) + a);
    assert(Seq::<char>::empty() + a =~= a);
}

proof fn lemma_joined_one(a: Seq<char>)
    ensures
        joined(seq![a]) == a,
{
    let e = Seq::<Seq<char>>::empty();
    assert(seq![a].drop_last() =~= e);
    assert(joined(e) == Seq::<char>::empty());
    assert(seq![a].last() == a);
    assert(joined(seq![a]) == joined(e) + a);
    assert(Seq::<char>::empty() + a =~= a);
}

/// Draws a reply for the terminal (see `render_spec`); `color` says whether
/// tints may be used. With colour off the text is fixed exactly; with it
/// on, each tinted piece is as colored writes it.
pub fn render_markdown(input: &str, color: bool) -> (r: String)
    ensures
        exists|outs: Seq<Seq<char>>| #[trigger] rendered_as(render_spec(input@), outs, color) && r@
            == joined(outs),
        !color ==> r@ == joined(render_spec(input@).map_values(|p: RenderPiece| plain_text(p))),
{
    let lines = classify_markdown(input);
    let ghost events = classify_markdown_spec(input@);
    let mut out = String::new();
    let mut block: Option<(String, Vec<String>)> = None;
    let ghost mut pieces: Seq<RenderPiece> = Seq::empty();
    let ghost mut outs: Seq<Seq<char>> = Seq::empty();
    let mut i: usize = 0;
    proof {
        assert(events.skip(0) =~= events);
        reveal_strlit("\n");
    }
    while i < lines.len()
        invariant
            i <= lines@.len(),
            lines@.len() == events.len(),
            events == classify_markdown_spec(input@),
            forall|k: int| 0 <= k < lines@.len() ==> #[trigger] lines@[k]@ == events[k],
            pieces + render_from(events.skip(i as int), block_view(block)) == render_from(
                events,
                None,
            ),
            rendered_as(pieces, outs, color),
            out@ == joined(outs),
            "\n"@ == newline(),
        decreases lines@.len() - i,
    {
        let ghost rest = events.skip(i as int);
        let ghost bv = block_view(block);
        proof {
            assert(rest[0] == lines@[i as int]@);
            assert(rest.drop_first() =~= events.skip(i + 1));
        }
        match &lines[i] {
            MarkdownLine::FenceOpen(lang) => {
                let ghost fl = flush_spec(bv);
                let hl = flush_block(block);
                append_all(&mut out, &hl);
                let fence = paint_piece("```", 120, 120, 120, color);
                out.append(fence.as_str());
                out.append("\n");
                block = Some((lang.clone(), Vec::new()));
                proof {
                    let np = fl + seq![
                        RenderPiece::Paint("```"@, 120, 120, 120),
                        RenderPiece::Raw(newline()),
                    ];
                    let no = texts_view(hl@) + seq![fence@, newline()];
                    lemma_flush_rendered(hl@, fl, color);
                    lemma_extend(
                        fl,
                        texts_view(hl@),
                        seq![RenderPiece::Paint("```"@, 120, 120, 120), RenderPiece::Raw(newline())],
                        seq![fence@, newline()],
                        color,
                    );
                    lemma_joined_two(fence@, newline());
                    lemma_extend(pieces, outs, np, no, color);
                    lemma_joined_append(texts_view(hl@), seq![fence@, newline()]);
                    assert(block_view(block) == Some(
                        (lang@, Seq::<Seq<char>>::empty()),
                    ));
                    assert(pieces + np + render_from(events.skip(i + 1), block_view(block))
                        =~= pieces + render_from(rest, bv));
                    pieces = pieces + np;
                    outs = outs + no;
                }
            },
            MarkdownLine::FenceClose => {
                let ghost fl = flush_spec(bv);
                let hl = flush_block(block);
                append_all(&mut out, &hl);
                block = None;
                proof {
                    lemma_flush_rendered(hl@, fl, color);
                    lemma_extend(pieces, outs, fl, texts_view(hl@), color);
                    assert(pieces + fl + render_from(events.skip(i + 1), block_view(block))
                        =~= pieces + render_from(rest, bv));
                    pieces = pieces + fl;
                    outs = outs + texts_view(hl@);
                }
            },
            MarkdownLine::Code(l) => {
                let mut text = l.clone();
                text.append("\n");
                match block {
                    Some((lang, lines_so_far)) => {
                        let mut v = lines_so_far;
                        let ghost before = v@;
                        v.push(text);
                        block = Some((lang, v));
                        proof {
                            assert(texts_view(v@) =~= texts_view(before).push(l@ + newline()));
                            assert(pieces + render_from(events.skip(i + 1), block_view(block))
                                =~= pieces + render_from(rest, bv));
                        }
                    },
                    None => {
                        out.append(text.as_str());
                        block = None;
                        proof {
                            let np = seq![RenderPiece::Raw(l@ + newline())];
                            let no = seq![text@];
                            lemma_joined_one(text@);
                            assert(rendered_as(np, no, color));
                            lemma_extend(pieces, outs, np, no, color);
                            assert(pieces + np + render_from(events.skip(i + 1), block_view(block))
                                =~= pieces + render_from(rest, bv));
                            pieces = pieces + np;
                            outs = outs + no;
                        }
                    },
                }
            },
            MarkdownLine::Text(l) => {
                let ghost fl = flush_spec(bv);
                let hl = flush_block(block);
                append_all(&mut out, &hl);
                let tinted = paint_piece(l.as_str(), 220, 220, 220, color);
                out.append(tinted.as_str());
                out.append("\n");
                block = None;
                proof {
                    let tail = seq![RenderPiece::Paint(l@, 220, 220, 220), RenderPiece::Raw(newline())];
                    let np = fl + tail;
                    let no = texts_view(hl@) + seq![tinted@, newline()];
                    lemma_flush_rendered(hl@, fl, color);
                    lemma_extend(fl, texts_view(hl@), tail, seq![tinted@, newline()], color);
                    lemma_joined_two(tinted@, newline());
                    lemma_extend(pieces, outs, np, no, color);
                    lemma_joined_append(texts_view(hl@), seq![tinted@, newline()]);
                    assert(pieces + np + render_from(events.skip(i + 1), block_view(block))
                        =~= pieces + render_from(rest, bv));
                    pieces = pieces + np;
                    outs = outs + no;
                }
            },
        }
        i += 1;
    }
    let ghost bv = block_view(block);
    let ghost fl = flush_spec(bv);
    let hl = flush_block(block);
    append_all(&mut out, &hl);
    proof {
        assert(events.skip(i as int) =~= Seq::<MarkdownLineView>::empty());
        lemma_flush_rendered(hl@, fl, color);
        lemma_extend(pieces, outs, fl, texts_view(hl@), color);
        pieces = pieces + fl;
        outs = outs + texts_view(hl@);
        assert(pieces =~= render_spec(input@));
        assert(rendered_as(render_spec(input@), outs, color));
        if !color {
            assert forall|k: int| 0 <= k < outs.len() implies #[trigger] outs[k]
                == render_spec(input@).map_values(|p: RenderPiece| plain_text(p))[k] by {
                assert(piece_allowed(pieces[k], outs[k], color));
            }
            assert(outs =~= render_spec(input@).map_values(|p: RenderPiece| plain_text(p)));
        }
    }
    out
}

/// The lines, each followed by a line break, laid end to end.
pub open spec fn lines_with_breaks(lines: Seq<Seq<char>>) -> Seq<char>
    decreases lines.len(),
{
    if lines.len() == 0 {
        Seq::empty()
    } else {
        lines[0] + newline() + lines_with_breaks(lines.drop_first())
    }
}

/// The text a list of pieces gives with colour off.
pub open spec fn plain_joined(pieces: Seq<RenderPiece>) -> Seq<char> {
    joined(pieces.map_values(|p: RenderPiece| plain_text(p)))
}

proof fn lemma_plain_joined_append(a: Seq<RenderPiece>, b: Seq<RenderPiece>)
    ensures
        plain_joined(a + b) == plain_joined(a) + plain_joined(b),
{
    assert((a + b).map_values(|p: RenderPiece| plain_text(p)) =~= a.map_values(
        |p: RenderPiece| plain_text(p),
    ) + b.map_values(|p: RenderPiece| plain_text(p)));
    lemma_joined_append(
        a.map_values(|p: RenderPiece| plain_text(p)),
        b.map_values(|p: RenderPiece| plain_text(p)),
    );
}

/// Lines without fences are classified as text outside a code block and
/// as code inside one, each line as it is.
proof fn lemma_classify_plain_prefix(lines: Seq<Seq<char>>, rest: Seq<Seq<char>>, in_code: bool)
    requires
        forall|i: int| 0 <= i < lines.len() ==> !is_fence(#[trigger] lines[i]),
    ensures
        classify_from(lines + rest, in_code) == lines.map_values(
            |l: Seq<char>|
                if in_code {
                    MarkdownLineView::Code(l)
                } else {
                    MarkdownLineView::Text(l)
                },
        ) + classify_from(rest, in_code),
    decreases lines.len(),
{
    let f = |l: Seq<char>|
        if in_code {
            MarkdownLineView::Code(l)
        } else {
            MarkdownLineView::Text(l)
        };
    if lines.len() == 0 {
        assert(lines + rest =~= rest);
        assert(lines.map_values(f) + classify_from(rest, in_code) =~= classify_from(rest, in_code));
    } else {
        let t = lines.drop_first();
        assert forall|i: int| 0 <= i < t.len() implies !is_fence(#[trigger] t[i]) by {
            assert(t[i] == lines[i + 1]);
        }
        assert(!is_fence(lines[0]));
        assert((lines + rest)[0] == lines[0]);
        assert((lines + rest).drop_first() =~= t + rest);
        lemma_classify_plain_prefix(t, rest, in_code);
        assert(lines.map_values(f) =~= seq![f(lines[0])] + t.map_values(f));
        assert(classify_from(lines + rest, in_code) =~= lines.map_values(f) + classify_from(
            rest,
            in_code,
        ));
    }
}

/// Text lines before some classified lines are drawn one by one, each
/// followed by a line break.
proof fn lemma_text_prefix_drawn(lines: Seq<Seq<char>>, events: Seq<MarkdownLineView>)
    ensures
        plain_joined(
            render_from(lines.map_values(|l: Seq<char>| MarkdownLineView::Text(l)) + events, None),
        ) == lines_with_breaks(lines) + plain_joined(render_from(events, None)),
    decreases lines.len(),
{
    let ev = lines.map_values(|l: Seq<char>| MarkdownLineView::Text(l));
    if lines.len() == 0 {
        assert(ev + events =~= events);
        assert(lines_with_breaks(lines) + plain_joined(render_from(events, None)) =~= plain_joined(
            render_from(events, None),
        ));
    } else {
        let rest = lines.drop_first();
        let rev = rest.map_values(|l: Seq<char>| MarkdownLineView::Text(l));
        let all = ev + events;
        assert(all[0] == MarkdownLineView::Text(lines[0]));
        assert(all.drop_first() =~= rev + events);
        let head = seq![RenderPiece::Paint(lines[0], 220, 220, 220), RenderPiece::Raw(newline())];
        let tail = render_from(rev + events, None);
        assert(flush_spec(None) =~= Seq::<RenderPiece>::empty());
        assert(render_from(all, None) =~= head + tail);
        lemma_plain_joined_append(head, tail);
        assert(head.map_values(|p: RenderPiece| plain_text(p)) =~= seq![lines[0], newline()]);
        lemma_joined_two(lines[0], newline());
        lemma_text_prefix_drawn(rest, events);
        assert(lines_with_breaks(lines) == lines[0] + newline() + lines_with_breaks(rest));
        assert(lines[0] + newline() + (lines_with_breaks(rest) + plain_joined(render_from(events, None)))
            =~= lines_with_breaks(lines) + plain_joined(render_from(events, None)));
    }
}

/// Code lines inside an open block are gathered, each with its line
/// break, to be drawn with the block.
proof fn lemma_code_gathered(
    lines: Seq<Seq<char>>,
    events: Seq<MarkdownLineView>,
    lang: Seq<char>,
    acc: Seq<Seq<char>>,
)
    ensures
        render_from(
            lines.map_values(|l: Seq<char>| MarkdownLineView::Code(l)) + events,
            Some((lang, acc)),
        ) == render_from(events, Some((lang, acc + lines.map_values(|l: Seq<char>| l + newline())))),
    decreases lines.len(),
{
    let ev = lines.map_values(|l: Seq<char>| MarkdownLineView::Code(l));
    if lines.len() == 0 {
        assert(ev + events =~= events);
        assert(acc + lines.map_values(|l: Seq<char>| l + newline()) =~= acc);
    } else {
        let rest = lines.drop_first();
        let all = ev + events;
        assert(all[0] == MarkdownLineView::Code(lines[0]));
        assert(all.drop_first() =~= rest.map_values(|l: Seq<char>| MarkdownLineView::Code(l))
            + events);
        lemma_code_gathered(rest, events, lang, acc.push(lines[0] + newline()));
        assert(acc.push(lines[0] + newline()) + rest.map_values(|l: Seq<char>| l + newline()) =~= acc
            + lines.map_values(|l: Seq<char>| l + newline()));
    }
}

/// A finished code block is drawn as its highlighted lines.
proof fn lemma_block_drawn(lang: Seq<char>, lines: Seq<Seq<char>>)
    ensures
        plain_joined(flush_spec(Some((lang, lines)))) == joined(
            code_lines_spec(chosen_syntax(lang), lines),
        ),
{
    let f = flush_spec(Some((lang, lines)));
    assert(f.map_values(|p: RenderPiece| plain_text(p)) =~= code_lines_spec(chosen_syntax(lang), lines));
}

/// The text a code block gives with colour off: a grey fence line, then
/// its lines as highlighted in the syntax its fence names.
pub open spec fn drawn_block(fence_line: Seq<char>, code: Seq<Seq<char>>) -> Seq<char> {
    "```"@ + newline() + joined(
        code_lines_spec(
            chosen_syntax(trim_spec(fence_line.skip(3))),
            code.map_values(|l: Seq<char>| l + newline()),
        ),
    )
}

/// With colour off, a reply of text lines, one code block (its opening
/// fence `open`, code lines `code`, closing fence `close`) and more text
/// lines is drawn as the text lines each with a line break, the block as a
/// grey fence line and its highlighted lines (the closing fence is not
/// drawn), then the last text lines each with a line break.
pub proof fn lemma_plain_reply_with_block(
    input: Seq<char>,
    before: Seq<Seq<char>>,
    open: Seq<char>,
    code: Seq<Seq<char>>,
    close: Seq<char>,
    after: Seq<Seq<char>>,
)
    requires
        lines_spec(input) == before + seq![open] + code + seq![close] + after,
        is_fence(open),
        is_fence(close),
        forall|i: int| 0 <= i < before.len() ==> !is_fence(#[trigger] before[i]),
        forall|i: int| 0 <= i < code.len() ==> !is_fence(#[trigger] code[i]),
        forall|i: int| 0 <= i < after.len() ==> !is_fence(#[trigger] after[i]),
    ensures
        plain_joined(render_spec(input)) == lines_with_breaks(before) + drawn_block(open, code)
            + lines_with_breaks(after),
{
    let lang = trim_spec(open.skip(3));
    let r3 = seq![close] + after;
    let r2 = code + r3;
    let r1 = seq![open] + r2;
    assert(lines_spec(input) =~= before + r1);
    lemma_classify_plain_prefix(before, r1, false);
    assert(r1[0] == open);
    assert(r1.drop_first() =~= r2);
    lemma_classify_plain_prefix(code, r3, true);
    assert(r3[0] == close);
    assert(r3.drop_first() =~= after);
    lemma_no_fence_all_text(after);
    let tev = |l: Seq<char>| MarkdownLineView::Text(l);
    let cev = |l: Seq<char>| MarkdownLineView::Code(l);
    let e4 = after.map_values(tev);
    let e3 = seq![MarkdownLineView::FenceClose] + e4;
    let e2 = code.map_values(cev) + e3;
    let e1 = seq![MarkdownLineView::FenceOpen(lang)] + e2;
    assert(classify_from(r3, true) =~= e3);
    assert(classify_from(r2, true) =~= e2);
    assert(classify_from(r1, false) =~= e1);
    assert(classify_markdown_spec(input) =~= before.map_values(tev) + e1);
    lemma_text_prefix_drawn(before, e1);
    assert(e1[0] == MarkdownLineView::FenceOpen(lang));
    assert(e1.drop_first() =~= e2);
    let fence_pieces = seq![RenderPiece::Paint("```"@, 120, 120, 120), RenderPiece::Raw(newline())];
    assert(flush_spec(None) =~= Seq::<RenderPiece>::empty());
    assert(render_from(e1, None) =~= fence_pieces + render_from(e2, Some((lang, Seq::empty()))));
    let gathered = code.map_values(|l: Seq<char>| l + newline());
    lemma_code_gathered(code, e3, lang, Seq::empty());
    assert(Seq::<Seq<char>>::empty() + gathered =~= gathered);
    assert(e3[0] == MarkdownLineView::FenceClose);
    assert(e3.drop_first() =~= e4);
    let block = flush_spec(Some((lang, gathered)));
    assert(render_from(e3, Some((lang, gathered))) =~= block + render_from(e4, None));
    lemma_text_prefix_drawn(after, Seq::empty());
    assert(after.map_values(tev) + Seq::<MarkdownLineView>::empty() =~= e4);
    assert(render_from(Seq::<MarkdownLineView>::empty(), None) =~= Seq::<RenderPiece>::empty());
    assert(plain_joined(Seq::<RenderPiece>::empty()) =~= Seq::<char>::empty());
    assert(lines_with_breaks(after) + Seq::<char>::empty() =~= lines_with_breaks(after));
    lemma_plain_joined_append(fence_pieces, block + render_from(e4, None));
    lemma_plain_joined_append(block, render_from(e4, None));
    assert(fence_pieces.map_values(|p: RenderPiece| plain_text(p)) =~= seq!["```"@, newline()]);
    lemma_joined_two("```"@, newline());
    lemma_block_drawn(lang, gathered);
    assert(lines_with_breaks(before) + ("```"@ + newline() + (joined(
        code_lines_spec(chosen_syntax(lang), gathered),
    ) + lines_with_breaks(after))) =~= lines_with_breaks(before) + drawn_block(open, code)
        + lines_with_breaks(after));
}

/// With colour off, a reply that ends inside a code block (text lines, an
/// opening fence `open`, code lines `code` and no closing fence) is drawn
/// as the text lines each with a line break, then the block as a grey
/// fence line and its highlighted lines.
pub proof fn lemma_plain_reply_with_open_block(
    input: Seq<char>,
    before: Seq<Seq<char>>,
    open: Seq<char>,
    code: Seq<Seq<char>>,
)
    requires
        lines_spec(input) == before + seq![open] + code,
        is_fence(open),
        forall|i: int| 0 <= i < before.len() ==> !is_fence(#[trigger] before[i]),
        forall|i: int| 0 <= i < code.len() ==> !is_fence(#[trigger] code[i]),
    ensures
        plain_joined(render_spec(input)) == lines_with_breaks(before) + drawn_block(open, code),
{
    let lang = trim_spec(open.skip(3));
    let empty_lines = Seq::<Seq<char>>::empty();
    let no_events = Seq::<MarkdownLineView>::empty();
    let r2 = code + empty_lines;
    let r1 = seq![open] + r2;
    assert(lines_spec(input) =~= before + r1);
    lemma_classify_plain_prefix(before, r1, false);
    assert(r1[0] == open);
    assert(r1.drop_first() =~= r2);
    lemma_classify_plain_prefix(code, empty_lines, true);
    let tev = |l: Seq<char>| MarkdownLineView::Text(l);
    let cev = |l: Seq<char>| MarkdownLineView::Code(l);
    let e2 = code.map_values(cev) + no_events;
    let e1 = seq![MarkdownLineView::FenceOpen(lang)] + e2;
    assert(classify_from(empty_lines, true) =~= no_events);
    assert(classify_from(r2, true) =~= e2);
    assert(classify_from(r1, false) =~= e1);
    assert(classify_markdown_spec(input) =~= before.map_values(tev) + e1);
    lemma_text_prefix_drawn(before, e1);
    assert(e1[0] == MarkdownLineView::FenceOpen(lang));
    assert(e1.drop_first() =~= e2);
    let fence_pieces = seq![RenderPiece::Paint("```"@, 120, 120, 120), RenderPiece::Raw(newline())];
    assert(flush_spec(None) =~= Seq::<RenderPiece>::empty());
    assert(render_from(e1, None) =~= fence_pieces + render_from(e2, Some((lang, Seq::empty()))));
    let gathered = code.map_values(|l: Seq<char>| l + newline());
    lemma_code_gathered(code, no_events, lang, Seq::empty());
    assert(Seq::<Seq<char>>::empty() + gathered =~= gathered);
    let block = flush_spec(Some((lang, gathered)));
    assert(render_from(no_events, Some((lang, gathered))) == block);
    lemma_plain_joined_append(fence_pieces, block);
    assert(fence_pieces.map_values(|p: RenderPiece| plain_text(p)) =~= seq!["```"@, newline()]);
    lemma_joined_two("```"@, newline());
    lemma_block_drawn(lang, gathered);
    assert(lines_with_breaks(before) + ("```"@ + newline() + joined(
        code_lines_spec(chosen_syntax(lang), gathered),
    )) =~= lines_with_breaks(before) + drawn_block(open, code));
}

/// With colour off, a reply without fences is drawn line by line: every
/// line of it (blank ones too), each followed by a line break, in order.
pub proof fn lemma_plain_reply_keeps_every_line(input: Seq<char>)
    requires
        forall|i: int| 0 <= i < lines_spec(input).len() ==> !is_fence(#[trigger] lines_spec(input)[i]),
    ensures
        joined(render_spec(input).map_values(|p: RenderPiece| plain_text(p))) == lines_with_breaks(
            lines_spec(input),
        ),
{
    let ls = lines_spec(input);
    lemma_no_fence_all_text(ls);
    lemma_text_prefix_drawn(ls, Seq::empty());
    assert(ls.map_values(|l: Seq<char>| MarkdownLineView::Text(l)) + Seq::<MarkdownLineView>::empty()
        =~= classify_markdown_spec(input));
    assert(render_from(Seq::<MarkdownLineView>::empty(), None) =~= Seq::<RenderPiece>::empty());
    assert(plain_joined(Seq::<RenderPiece>::empty()) =~= Seq::<char>::empty());
    assert(lines_with_breaks(ls) + Seq::<char>::empty() =~= lines_with_breaks(ls));
}

} // verus!
