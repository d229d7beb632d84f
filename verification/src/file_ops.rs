//! What the file tools compute once the file system has been read:
//! snippet replacement, byte windows, and directory listings.
use vstd::prelude::*;
use vstd::utf8::{valid_utf8, decode_utf8};
use crate::text::{contains_seq, occurs_at, replace_all_spec, to_chars, from_chars, find_seq, replace_all};

verus! {

/// Replacing an absent snippet leaves the text as it is.
pub proof fn lemma_replace_absent(s: Seq<char>, from: Seq<char>, to: Seq<char>)
    requires
        from.len() > 0,
        !contains_seq(s, from),
    ensures
        replace_all_spec(s, from, to) == s,
    decreases s.len(),
{
    if s.len() >= from.len() {
        assert(s.take(from.len() as int) =~= s.subrange(0, from.len() as int));
        assert(!occurs_at(s, from, 0));
        let t = s.drop_first();
        assert forall|j: int| !occurs_at(t, from, j) by {
            if occurs_at(t, from, j) {
                assert(s.subrange(j + 1, j + 1 + from.len()) =~= t.subrange(j, j + from.len()));
                assert(occurs_at(s, from, j + 1));
            }
        }
        lemma_replace_absent(t, from, to);
        assert(seq![s[0]] + t =~= s);
    }
}

/// Replacing a snippet by itself leaves the text as it is.
pub proof fn lemma_replace_same(s: Seq<char>, p: Seq<char>)
    ensures
        replace_all_spec(s, p, p) == s,
    decreases s.len(),
{
    if p.len() == 0 {
        if s.len() > 0 {
            lemma_replace_same(s.drop_first(), p);
            assert(p + seq![s[0]] + s.drop_first() =~= s);
        }
    } else if s.len() >= p.len() {
        if s.take(p.len() as int) == p {
            lemma_replace_same(s.skip(p.len() as int), p);
            assert(p + s.skip(p.len() as int) =~= s);
        } else {
            lemma_replace_same(s.drop_first(), p);
            assert(seq![s[0]] + s.drop_first() =~= s);
        }
    }
}

/// The new contents of a file after an edit: every occurrence of `old`
/// replaced by `new`. An edit whose `old` snippet does not occur is refused,
/// and the file is left as it was.
pub fn edit_text(content: &str, old: &str, new: &str) -> (r: Result<String, &'static str>)
    ensures
        match r {
            Ok(t) => contains_seq(content@, old@) && t@ == replace_all_spec(content@, old@, new@),
            Err(e) => !contains_seq(content@, old@) && e@ == "file did not contain old string."@,
        },
{
    let c = to_chars(content);
    let o = to_chars(old);
    let n = to_chars(new);
    match find_seq(&c, &o) {
        None => Err("file did not contain old string."),
        Some(_) => {
            let r = replace_all(&c, &o, &n);
            Ok(from_chars(&r))
        },
    }
}

/// An edit that replaces a snippet by itself succeeds exactly when the
/// snippet occurs, and then leaves the contents as they were.
pub proof fn lemma_edit_same_snippet(content: Seq<char>, old: Seq<char>)
    ensures
        contains_seq(content, old) ==> replace_all_spec(content, old, old) == content,
{
    lemma_replace_same(content, old);
}

/// The bytes of a file that a read starting at `offset` (the start when
/// absent) and taking at most `length` bytes (all the rest when absent)
/// gives back; a start past the end gives nothing.
pub open spec fn byte_window_spec(bytes: Seq<u8>, offset: Option<u64>, length: Option<usize>) -> Seq<
    u8,
> {
    let start: int = match offset {
        Some(o) => if o < bytes.len() {
            o as int
        } else {
            bytes.len() as int
        },
        None => 0,
    };
    let rest = bytes.skip(start);
    match length {
        Some(n) => if n < rest.len() {
            rest.take(n as int)
        } else {
            rest
        },
        None => rest,
    }
}

/// A read with neither offset nor length, or from offset 0 without a
/// length, gives the whole file.
pub proof fn lemma_window_whole_file(bytes: Seq<u8>)
    ensures
        byte_window_spec(bytes, None, None) == bytes,
        byte_window_spec(bytes, Some(0), None) == bytes,
{
    assert(bytes.skip(0) =~= bytes);
}

/// A ranged read gives at most `length` bytes, and they are the file's
/// bytes from the offset on (or nothing, from past the end).
pub proof fn lemma_window_is_slice(bytes: Seq<u8>, offset: u64, length: usize)
    ensures
        byte_window_spec(bytes, Some(offset), Some(length)).len() <= length,
        offset < bytes.len() ==> byte_window_spec(bytes, Some(offset), Some(length)) == bytes.subrange(
            offset as int,
            offset + byte_window_spec(bytes, Some(offset), Some(length)).len(),
        ),
        offset >= bytes.len() ==> byte_window_spec(bytes, Some(offset), Some(length)).len() == 0,
{
    let w = byte_window_spec(bytes, Some(offset), Some(length));
    if offset < bytes.len() {
        assert(w =~= bytes.subrange(offset as int, offset + w.len()));
    }
}

/// A read gives the bytes of the file from its start position to its end
/// position: the start is the offset (the beginning of the file when there
/// is none, the end of the file when the offset lies past it), and the end
/// is `length` bytes further on, cut at the end of the file (the end of
/// the file when there is no length).
pub proof fn lemma_window_bounds(bytes: Seq<u8>, offset: Option<u64>, length: Option<usize>)
    ensures
        ({
            let start: int = match offset {
                Some(o) => if o <= bytes.len() {
                    o as int
                } else {
                    bytes.len() as int
                },
                None => 0,
            };
            let end: int = match length {
                Some(n) => if start + n <= bytes.len() {
                    start + n
                } else {
                    bytes.len() as int
                },
                None => bytes.len() as int,
            };
            byte_window_spec(bytes, offset, length) == bytes.subrange(start, end)
        }),
{
    let w = byte_window_spec(bytes, offset, length);
    let start: int = match offset {
        Some(o) => if o <= bytes.len() {
            o as int
        } else {
            bytes.len() as int
        },
        None => 0,
    };
    let end: int = match length {
        Some(n) => if start + n <= bytes.len() {
            start + n
        } else {
            bytes.len() as int
        },
        None => bytes.len() as int,
    };
    assert(w =~= bytes.subrange(start, end));
}

/// A read without an offset starts at the beginning of the file, as one
/// from offset 0 does: with a length `n` it gives the first `n` bytes (all
/// of them when the file is shorter).
pub proof fn lemma_window_without_offset(bytes: Seq<u8>, length: Option<usize>)
    ensures
        byte_window_spec(bytes, None, length) == byte_window_spec(bytes, Some(0), length),
        length matches Some(n) ==> byte_window_spec(bytes, None, length) == bytes.take(
            if n <= bytes.len() {
                n as int
            } else {
                bytes.len() as int
            },
        ),
{
    lemma_window_bounds(bytes, None, length);
    lemma_window_bounds(bytes, Some(0), length);
    if let Some(n) = length {
        let k: int = if n <= bytes.len() {
            n as int
        } else {
            bytes.len() as int
        };
        assert(bytes.subrange(0, k) =~= bytes.take(k));
    }
}

/// The largest offset a seek from the start of a file accepts.
pub open spec fn max_seek_offset() -> u64 {
    0x7fff_ffff_ffff_ffffu64
}

/// The bytes `offset..offset + length` of `bytes`, cut at its end.
pub fn byte_window(bytes: &[u8], offset: Option<u64>, length: Option<usize>) -> (r: Vec<u8>)
    ensures
        r@ == byte_window_spec(bytes@, offset, length),
{
    let len = bytes.len();
    let start: usize = match offset {
        Some(o) => if o < len as u64 {
            o as usize
        } else {
            len
        },
        None => 0,
    };
    let end: usize = match length {
        Some(n) => if n < len - start {
            start + n
        } else {
            len
        },
        None => len,
    };
    let mut r: Vec<u8> = Vec::new();
    let mut i = start;
    while i < end
        invariant
            start <= i <= end,
            end <= bytes@.len(),
            r@ == bytes@.subrange(start as int, i as int),
        decreases end - i,
    {
        r.push(bytes[i]);
        i += 1;
        proof {
            assert(bytes@.subrange(start as int, i as int) =~= bytes@.subrange(
                start as int,
                i - 1,
            ).push(bytes@[i - 1]));
        }
    }
    proof {
        assert(r@ =~= byte_window_spec(bytes@, offset, length));
    }
    r
}

/// `String::from_utf8`: the text that `bytes` encode, when they are valid
/// UTF-8, and nothing otherwise.
#[verifier::external_body]
fn utf8_to_string(bytes: Vec<u8>) -> (r: Option<String>)
    ensures
        r is Some <==> valid_utf8(bytes@),
        r matches Some(s) ==> s@ == decode_utf8(bytes@),
{
    String::from_utf8(bytes).ok()
}

/// The text of a ranged read from a file whose contents are `bytes`: the
/// window `offset..offset + length` (see `byte_window_spec`), decoded as
/// UTF-8. An offset a seek refuses, or a window that is not valid UTF-8,
/// is an error.
pub fn read_range_text(bytes: &[u8], offset: Option<u64>, length: Option<usize>) -> (r: Result<
    String,
    &'static str,
>)
    ensures
        match r {
            Ok(s) => !(offset matches Some(o) && o > max_seek_offset()) && valid_utf8(
                byte_window_spec(bytes@, offset, length),
            ) && s@ == decode_utf8(byte_window_spec(bytes@, offset, length)),
            Err(e) => if offset matches Some(o) && o > max_seek_offset() {
                e@ == "failed seeking in file."@
            } else {
                !valid_utf8(byte_window_spec(bytes@, offset, length)) && e@
                    == "failed reading file."@
            },
        },
{
    if let Some(o) = offset {
        if o > 0x7fff_ffff_ffff_ffffu64 {
            return Err("failed seeking in file.");
        }
    }
    let w = byte_window(bytes, offset, length);
    match utf8_to_string(w) {
        Some(s) => Ok(s),
        None => Err("failed reading file."),
    }
}

/// The line that a directory listing holds for one entry: its name, or a
/// fixed message when the entry or its name could not be read.
pub open spec fn listing_line(e: Option<String>) -> Seq<char> {
    match e {
        Some(n) => n@ + seq!['\n'],
        None => "unknown error reading this entry."@ + seq!['\n'],
    }
}

/// A directory listing: one line per entry, in order.
pub open spec fn listing_spec(entries: Seq<Option<String>>) -> Seq<char>
    decreases entries.len(),
{
    if entries.len() == 0 {
        Seq::empty()
    } else {
        listing_spec(entries.drop_last()) + listing_line(entries.last())
    }
}

/// The text of a directory listing, one line per entry; `None` stands for
/// an entry whose name could not be read as text.
pub fn format_listing(entries: &Vec<Option<String>>) -> (r: String)
    ensures
        r@ == listing_spec(entries@),
{
    let mut out = String::new();
    let mut i: usize = 0;
    while i < entries.len()
        invariant
            i <= entries@.len(),
            out@ == listing_spec(entries@.take(i as int)),
        decreases entries@.len() - i,
    {
        match &entries[i] {
            Some(name) => out.append(name.as_str()),
            None => out.append("unknown error reading this entry."),
        }
        out.append("\n");
        proof {
            reveal_strlit("\n");
            let t = entries@.take(i + 1);
            assert(t.drop_last() =~= entries@.take(i as int));
            assert(out@ =~= listing_spec(t));
        }
        i += 1;
    }
    proof {
        assert(entries@.take(entries@.len() as int) =~= entries@);
    }
    out
}

/// The line changes that `similar` finds from `old` to `new`
/// (`TextDiff::from_lines`, then every change of every operation in
/// order): each with its tag (0 for a line kept, 1 for a line removed, 2
/// for a line added) and its text as `similar` writes it (the line, with a
/// line break added where the text lacks one at its end).
pub uninterp spec fn line_changes(old: Seq<char>, new: Seq<char>) -> Seq<(u8, Seq<char>)>;

/// `similar::TextDiff::from_lines(old, new)` and its changes, in order.
#[verifier::external_body]
fn diff_lines(old: &str, new: &str) -> (r: Vec<(u8, String)>)
    ensures
        r@.len() == line_changes(old@, new@).len(),
        forall|i: int|
            0 <= i < r@.len() ==> #[trigger] r@[i].0 == line_changes(old@, new@)[i].0 && r@[i].1@
                == line_changes(old@, new@)[i].1,
{
    let diff = similar::TextDiff::from_lines(old, new);
    diff.iter_all_changes().map(|c| {
        let tag: u8 = match c.tag() {
            similar::ChangeTag::Equal => 0,
            similar::ChangeTag::Delete => 1,
            similar::ChangeTag::Insert => 2,
        };
        (tag, c.to_string())
    }).collect()
}

/// How a line fares in an edit.
#[derive(Debug, Clone, Copy, PartialEq, Eq)]
pub enum DiffKind {
    Kept,
    Removed,
    Added,
}

/// One line of an edit's preview.
#[derive(Debug, Clone)]
pub struct DiffLine {
    pub kind: DiffKind,
    pub text: String,
}

/// The kind a change tag stands for.
pub open spec fn diff_kind_spec(tag: u8) -> DiffKind {
    if tag == 1 {
        DiffKind::Removed
    } else if tag == 2 {
        DiffKind::Added
    } else {
        DiffKind::Kept
    }
}

/// The preview of an edit that replaces the snippet `old` by `new`: the
/// line changes between them (see `line_changes`), in order.
pub fn edit_preview(old: &str, new: &str) -> (r: Vec<DiffLine>)
    ensures
        r@.len() == line_changes(old@, new@).len(),
        forall|i: int|
            0 <= i < r@.len() ==> #[trigger] r@[i].kind == diff_kind_spec(line_changes(old@, new@)[i].0)
                && r@[i].text@ == line_changes(old@, new@)[i].1,
{
    let changes = diff_lines(old, new);
    let mut r: Vec<DiffLine> = Vec::new();
    let mut i: usize = 0;
    while i < changes.len()
        invariant
            i <= changes@.len(),
            r@.len() == i,
            changes@.len() == line_changes(old@, new@).len(),
            forall|k: int|
                0 <= k < changes@.len() ==> #[trigger] changes@[k].0 == line_changes(old@, new@)[k].0
                    && changes@[k].1@ == line_changes(old@, new@)[k].1,
            forall|k: int|
                0 <= k < i ==> #[trigger] r@[k].kind == diff_kind_spec(line_changes(old@, new@)[k].0)
                    && r@[k].text@ == line_changes(old@, new@)[k].1,
        decreases changes@.len() - i,
    {
        let tag = changes[i].0;
        let kind = if tag == 1 {
            DiffKind::Removed
        } else if tag == 2 {
            DiffKind::Added
        } else {
            DiffKind::Kept
        };
        r.push(DiffLine { kind, text: changes[i].1.clone() });
        i += 1;
    }
    r
}

} // verus!
