//! A builder for `text/gemini` documents.
//!
//! The format has no escape syntax, so safety is by prefix avoidance: every
//! string is normalized when it is inserted, never at serialization time. A
//! plain text line that would start like a link, heading, list item, quote or
//! preformat toggle is prefixed with a space; strings that must stay on one
//! line have their newlines removed; preformatted lines that would close the
//! block early are prefixed with a space.

use vstd::prelude::*;
use crate::bindings;
use crate::strutil::contains_char;

verus! {

// ---------------------------------------------------------------------------
// Line-level normalization: spec functions.
// ---------------------------------------------------------------------------
/// The prefix of `s` that comes before its first newline; all of `s` when it
/// has none.
pub open spec fn first_line(s: Seq<char>) -> Seq<char>
    decreases s.len(),
{
    if s.len() == 0 {
        s
    } else if s[0] == '\n' {
        Seq::empty()
    } else {
        seq![s[0]] + first_line(s.drop_first())
    }
}

/// Whether a line would be taken for a link, preformat toggle, heading, list
/// item or quote: it starts with `=>`, three backticks, `#`, `*` or `>`.
pub open spec fn starts_reserved(s: Seq<char>) -> bool {
    ||| (s.len() >= 1 && (s[0] == '#' || s[0] == '*' || s[0] == '>'))
    ||| (s.len() >= 2 && s[0] == '=' && s[1] == '>')
    ||| starts_pre_toggle(s)
}

/// Whether a line starts with three backticks, which would toggle a
/// preformatted block.
pub open spec fn starts_pre_toggle(s: Seq<char>) -> bool {
    s.len() >= 3 && s[0] == '`' && s[1] == '`' && s[2] == '`'
}

/// Whether a line starts with `>`.
pub open spec fn starts_quote(s: Seq<char>) -> bool {
    s.len() >= 1 && s[0] == '>'
}

/// What the lossy line escape keeps: the first line of `s`, prefixed with a
/// space when the caller found a prefix that must not appear.
pub open spec fn escaped_line(s: Seq<char>, special: bool) -> Seq<char> {
    if special {
        seq![' '] + first_line(s)
    } else {
        first_line(s)
    }
}

/// A piece of a line split, with the carriage return of a `\r\n` ending
/// removed.
pub open spec fn strip_cr(p: Seq<char>) -> Seq<char> {
    if p.len() > 0 && p.last() == '\r' {
        p.drop_last()
    } else {
        p
    }
}

/// The lines of `s`, as `str::lines` yields them: split at `'\n'`, with a
/// `'\r'` before the split removed, and without a final empty piece.
pub open spec fn split_lines(s: Seq<char>) -> Seq<Seq<char>>
    decreases s.len(),
    via split_lines_decreases
{
    if s.len() == 0 {
        Seq::empty()
    } else if first_line(s).len() == s.len() {
        seq![first_line(s)]
    } else {
        seq![strip_cr(first_line(s))] + split_lines(s.skip(first_line(s).len() + 1 as int))
    }
}

#[via_fn]
proof fn split_lines_decreases(s: Seq<char>) {
    if s.len() > 0 {
        lemma_first_line_props(s);
    }
}

/// The non-empty pieces of a line split.
pub open spec fn nonblank(ls: Seq<Seq<char>>) -> Seq<Seq<char>>
    decreases ls.len(),
{
    if ls.len() == 0 {
        Seq::empty()
    } else if ls[0].len() > 0 {
        seq![ls[0]] + nonblank(ls.drop_first())
    } else {
        nonblank(ls.drop_first())
    }
}

/// The pieces joined with a single space.
pub open spec fn join_space(ls: Seq<Seq<char>>) -> Seq<char>
    decreases ls.len(),
{
    if ls.len() == 0 {
        Seq::empty()
    } else if ls.len() == 1 {
        ls[0]
    } else {
        ls[0] + seq![' '] + join_space(ls.drop_first())
    }
}

/// What newline stripping returns: the string itself when it holds neither
/// `'\r'` nor `'\n'`, and otherwise its non-empty lines joined with single
/// spaces.
pub open spec fn stripped_newlines(s: Seq<char>) -> Seq<char> {
    if !s.contains('\r') && !s.contains('\n') {
        s
    } else {
        join_space(nonblank(split_lines(s)))
    }
}

// ---------------------------------------------------------------------------
// Line-level normalization: lemmas.
// ---------------------------------------------------------------------------
/// The first line is a prefix of `s`, holds no newline, and ends where `s`
/// ends or where the first newline stands.
pub proof fn lemma_first_line_props(s: Seq<char>)
    ensures
        first_line(s).len() <= s.len(),
        first_line(s) == s.subrange(0, first_line(s).len() as int),
        !first_line(s).contains('\n'),
        first_line(s).len() == s.len() || s[first_line(s).len() as int] == '\n',
    decreases s.len(),
{
    if s.len() == 0 || s[0] == '\n' {
        assert(first_line(s) =~= s.subrange(0, first_line(s).len() as int));
        assert(!first_line(s).contains('\n')) by {
            if first_line(s).contains('\n') {
                let i = choose|i: int|
                    0 <= i < first_line(s).len() && first_line(s)[i] == '\n';
            }
        }
    } else {
        lemma_first_line_props(s.drop_first());
        let f = first_line(s);
        let g = first_line(s.drop_first());
        assert(f =~= s.subrange(0, f.len() as int));
        assert(!f.contains('\n')) by {
            if f.contains('\n') {
                let i = choose|i: int| 0 <= i < f.len() && f[i] == '\n';
                if i == 0 {
                } else {
                    assert(g[i - 1] == '\n');
                    assert(g.contains(g[i - 1]));
                }
            }
        }
        if g.len() == s.drop_first().len() {
        } else {
            assert(s[f.len() as int] == s.drop_first()[g.len() as int]);
        }
    }
}

/// When the first `k` characters hold no newline and a newline or the end of
/// the string follows them, the first line is exactly those `k` characters.
pub proof fn lemma_first_line_at(s: Seq<char>, k: int)
    requires
        0 <= k <= s.len(),
        forall|j: int| 0 <= j < k ==> s[j] != '\n',
        k == s.len() || s[k] == '\n',
    ensures
        first_line(s) == s.subrange(0, k),
    decreases s.len(),
{
    if s.len() == 0 {
        assert(first_line(s) =~= s.subrange(0, 0));
    } else if k == 0 {
        assert(s[0] == '\n');
        assert(first_line(s) =~= s.subrange(0, 0));
    } else {
        lemma_first_line_at(s.drop_first(), k - 1);
        assert(seq![s[0]] + s.drop_first().subrange(0, k - 1) =~= s.subrange(0, k));
    }
}

/// Every piece of a line split is free of newlines.
pub proof fn lemma_split_lines_no_nl(s: Seq<char>)
    ensures
        forall|k: int|
            0 <= k < split_lines(s).len() ==> !(#[trigger] split_lines(s)[k]).contains('\n'),
    decreases s.len(),
{
    if s.len() == 0 {
    } else {
        lemma_first_line_props(s);
        let f = first_line(s);
        assert(!strip_cr(f).contains('\n')) by {
            if strip_cr(f).contains('\n') {
                let i = choose|i: int| 0 <= i < strip_cr(f).len() && strip_cr(f)[i] == '\n';
                assert(f[i] == '\n');
                assert(f.contains(f[i]));
            }
        }
        if f.len() == s.len() {
            assert(split_lines(s)[0] == f);
        } else {
            lemma_split_lines_no_nl(s.skip(f.len() + 1 as int));
            let rest = split_lines(s.skip(f.len() + 1 as int));
            assert forall|k: int|
                0 <= k < split_lines(s).len() implies !(#[trigger] split_lines(s)[k]).contains(
                '\n',
            ) by {
                if k == 0 {
                    assert(split_lines(s)[0] == strip_cr(f));
                } else {
                    assert(split_lines(s)[k] == rest[k - 1]);
                }
            }
        }
    }
}

/// Unfolds one step of `split_lines` at an interior newline.
pub proof fn lemma_split_lines_step(s: Seq<char>, start: int, i: int)
    requires
        0 <= start <= i < s.len(),
        forall|j: int| start <= j < i ==> s[j] != '\n',
        s[i] == '\n',
    ensures
        split_lines(s.skip(start)) == seq![strip_cr(s.subrange(start, i))] + split_lines(
            s.skip(i + 1),
        ),
{
    let t = s.skip(start);
    assert forall|j: int| 0 <= j < i - start implies t[j] != '\n' by {
        assert(t[j] == s[start + j]);
    }
    assert(t[i - start] == '\n');
    lemma_first_line_at(t, i - start);
    assert(t.subrange(0, i - start) =~= s.subrange(start, i));
    assert(first_line(t).len() == i - start);
    assert(i - start < t.len());
    assert(t.skip(i - start + 1) =~= s.skip(i + 1));
}

/// A suffix without newlines is a single piece of the split.
pub proof fn lemma_split_lines_last(s: Seq<char>, start: int)
    requires
        0 <= start < s.len(),
        forall|j: int| start <= j < s.len() ==> s[j] != '\n',
    ensures
        split_lines(s.skip(start)) == seq![s.subrange(start, s.len() as int)],
{
    let t = s.skip(start);
    assert forall|j: int| 0 <= j < t.len() implies t[j] != '\n' by {
        assert(t[j] == s[start + j]);
    }
    lemma_first_line_at(t, t.len() as int);
    assert(t.subrange(0, t.len() as int) =~= t);
    assert(t =~= s.subrange(start, s.len() as int));
}

/// Unfolds `join_space` at its head.
pub proof fn lemma_join_space_cons(l: Seq<char>, rest: Seq<Seq<char>>)
    ensures
        join_space(seq![l] + rest) == if rest.len() == 0 {
            l
        } else {
            l + seq![' '] + join_space(rest)
        },
{
    let ls = seq![l] + rest;
    assert(ls[0] == l);
    if rest.len() == 0 {
        assert(ls.len() == 1);
    } else {
        assert(ls.drop_first() =~= rest);
    }
}

/// Unfolds `nonblank` at its head.
pub proof fn lemma_nonblank_cons(ls: Seq<Seq<char>>)
    requires
        ls.len() > 0,
    ensures
        nonblank(ls) == if ls[0].len() > 0 {
            seq![ls[0]] + nonblank(ls.drop_first())
        } else {
            nonblank(ls.drop_first())
        },
{
}

/// Joining newline-free pieces yields a newline-free string.
pub proof fn lemma_join_space_no_nl(ls: Seq<Seq<char>>)
    requires
        forall|k: int| 0 <= k < ls.len() ==> !(#[trigger] ls[k]).contains('\n'),
    ensures
        !join_space(ls).contains('\n'),
    decreases ls.len(),
{
    if ls.len() == 0 {
        assert(!join_space(ls).contains('\n')) by {
            if join_space(ls).contains('\n') {
                let i = choose|i: int| 0 <= i < join_space(ls).len() && join_space(ls)[i] == '\n';
            }
        }
    } else if ls.len() == 1 {
    } else {
        assert(forall|k: int|
            0 <= k < ls.drop_first().len() ==> !(#[trigger] ls.drop_first()[k]).contains('\n'))
            by {
            assert forall|k: int|
                0 <= k < ls.drop_first().len() implies !(#[trigger] ls.drop_first()[k]).contains(
                '\n',
            ) by {
                assert(ls.drop_first()[k] == ls[k + 1]);
            }
        }
        lemma_join_space_no_nl(ls.drop_first());
        let whole = ls[0] + seq![' '] + join_space(ls.drop_first());
        assert(!whole.contains('\n')) by {
            if whole.contains('\n') {
                let i = choose|i: int| 0 <= i < whole.len() && whole[i] == '\n';
                if i < ls[0].len() {
                    assert(ls[0].contains(whole[i]));
                } else if i == ls[0].len() {
                } else {
                    let rest = join_space(ls.drop_first());
                    assert(rest[i - ls[0].len() - 1] == '\n');
                    assert(rest.contains('\n'));
                }
            }
        }
    }
}

/// The blank pieces removed, what remains is still newline-free.
pub proof fn lemma_nonblank_no_nl(ls: Seq<Seq<char>>)
    requires
        forall|k: int| 0 <= k < ls.len() ==> !(#[trigger] ls[k]).contains('\n'),
    ensures
        forall|k: int|
            0 <= k < nonblank(ls).len() ==> !(#[trigger] nonblank(ls)[k]).contains('\n'),
    decreases ls.len(),
{
    if ls.len() > 0 {
        assert forall|k: int|
            0 <= k < ls.drop_first().len() implies !(#[trigger] ls.drop_first()[k]).contains(
            '\n',
        ) by {
            assert(ls.drop_first()[k] == ls[k + 1]);
        }
        lemma_nonblank_no_nl(ls.drop_first());
        if ls[0].len() > 0 {
            assert forall|k: int|
                0 <= k < nonblank(ls).len() implies !(#[trigger] nonblank(ls)[k]).contains(
                '\n',
            ) by {
                if k == 0 {
                    assert(nonblank(ls)[0] == ls[0]);
                } else {
                    assert(nonblank(ls)[k] == nonblank(ls.drop_first())[k - 1]);
                }
            }
        } else {
            assert(nonblank(ls) == nonblank(ls.drop_first()));
        }
    }
}

/// Newline stripping leaves no newline behind.
pub proof fn lemma_stripped_newlines_no_nl(s: Seq<char>)
    ensures
        !stripped_newlines(s).contains('\n'),
{
    if !s.contains('\r') && !s.contains('\n') {
    } else {
        lemma_split_lines_no_nl(s);
        lemma_nonblank_no_nl(split_lines(s));
        lemma_join_space_no_nl(nonblank(split_lines(s)));
    }
}

/// An escaped line holds no newline and does not start with a reserved
/// prefix.
pub proof fn lemma_escaped_line_safe(s: Seq<char>)
    ensures
        !escaped_line(s, starts_reserved(s)).contains('\n'),
        !starts_reserved(escaped_line(s, starts_reserved(s))),
{
    lemma_first_line_props(s);
    let f = first_line(s);
    if starts_reserved(s) {
        let e = seq![' '] + f;
        assert(!e.contains('\n')) by {
            if e.contains('\n') {
                let i = choose|i: int| 0 <= i < e.len() && e[i] == '\n';
                if i > 0 {
                    assert(f.contains(f[i - 1]));
                }
            }
        }
        assert(e[0] == ' ');
    } else {
        assert(!starts_reserved(f)) by {
            assert(forall|i: int| 0 <= i < f.len() ==> f[i] == s[i]);
        }
    }
}

/// A line escaped against the preformat toggle holds no newline and cannot
/// close a preformatted block.
pub proof fn lemma_escaped_pre_line_safe(s: Seq<char>)
    ensures
        !escaped_line(s, starts_pre_toggle(s)).contains('\n'),
        !starts_pre_toggle(escaped_line(s, starts_pre_toggle(s))),
{
    lemma_first_line_props(s);
    let f = first_line(s);
    if starts_pre_toggle(s) {
        let e = seq![' '] + f;
        assert(!e.contains('\n')) by {
            if e.contains('\n') {
                let i = choose|i: int| 0 <= i < e.len() && e[i] == '\n';
                if i > 0 {
                    assert(f.contains(f[i - 1]));
                }
            }
        }
        assert(e[0] == ' ');
    } else {
        assert(!starts_pre_toggle(f)) by {
            assert(forall|i: int| 0 <= i < f.len() ==> f[i] == s[i]);
        }
    }
}

/// A line escaped against the quote prefix holds no newline.
pub proof fn lemma_escaped_quote_line_safe(s: Seq<char>)
    ensures
        !escaped_line(s, starts_quote(s)).contains('\n'),
{
    lemma_first_line_props(s);
    let f = first_line(s);
    if starts_quote(s) {
        let e = seq![' '] + f;
        assert(!e.contains('\n')) by {
            if e.contains('\n') {
                let i = choose|i: int| 0 <= i < e.len() && e[i] == '\n';
                if i > 0 {
                    assert(f.contains(f[i - 1]));
                }
            }
        }
    }
}

// ---------------------------------------------------------------------------
// Line-level normalization: executable functions.
// ---------------------------------------------------------------------------
/// The first line of `s`, as an owned string.
fn take_first_line(s: &str) -> (r: String)
    ensures
        r@ == first_line(s@),
{
    let n = s.unicode_len();
    let mut k: usize = 0;
    while k < n && s.get_char(k) != '\n'
        invariant
            n == s@.len(),
            k <= n,
            forall|j: int| 0 <= j < k ==> s@[j] != '\n',
        decreases n - k,
    {
        k += 1;
    }
    proof {
        lemma_first_line_at(s@, k as int);
    }
    s.substring_char(0, k).to_owned()
}

/// Whether the line starts with one of the reserved prefixes.
fn is_reserved_start(s: &str) -> (r: bool)
    ensures
        r == starts_reserved(s@),
{
    let n = s.unicode_len();
    if n == 0 {
        return false;
    }
    let c0 = s.get_char(0);
    if c0 == '#' || c0 == '*' || c0 == '>' {
        return true;
    }
    if c0 == '=' && n >= 2 && s.get_char(1) == '>' {
        return true;
    }
    c0 == '`' && n >= 3 && s.get_char(1) == '`' && s.get_char(2) == '`'
}

/// Whether the line starts with three backticks.
fn is_pre_toggle_start(s: &str) -> (r: bool)
    ensures
        r == starts_pre_toggle(s@),
{
    let n = s.unicode_len();
    n >= 3 && s.get_char(0) == '`' && s.get_char(1) == '`' && s.get_char(2) == '`'
}

/// Whether the line starts with the quote prefix.
fn is_quote_start(s: &str) -> (r: bool)
    ensures
        r == starts_quote(s@),
{
    s.unicode_len() >= 1 && s.get_char(0) == '>'
}

/// The first line of `line`, prefixed with a space when the caller found a
/// prefix that must not appear.
fn lossy_escaped_line(line: &str, special: bool) -> (r: String)
    ensures
        r@ == escaped_line(line@, special),
{
    let f = take_first_line(line);
    if special {
        proof {
            reveal_strlit(" ");
            assert(" "@ =~= seq![' ']);
        }
        let mut out = String::new();
        out.append(" ");
        out.append(f.as_str());
        out
    } else {
        f
    }
}

/// The lines of `s`, as `str::lines` yields them.
fn split_str_lines(s: &str) -> (r: Vec<String>)
    ensures
        r.deep_view() == split_lines(s@),
{
    let n = s.unicode_len();
    let mut out: Vec<String> = Vec::new();
    let mut start: usize = 0;
    let mut i: usize = 0;
    proof {
        assert(s@.skip(0) =~= s@);
        assert(out.deep_view() + split_lines(s@) =~= split_lines(s@));
    }
    while i < n
        invariant
            n == s@.len(),
            start <= i <= n,
            forall|j: int| start <= j < i ==> s@[j] != '\n',
            split_lines(s@) == out.deep_view() + split_lines(s@.skip(start as int)),
        decreases n - i,
    {
        if s.get_char(i) == '\n' {
            let ghost old_out = out;
            let piece = if i > start && s.get_char(i - 1) == '\r' {
                s.substring_char(start, i - 1)
            } else {
                s.substring_char(start, i)
            };
            proof {
                lemma_split_lines_step(s@, start as int, i as int);
                let f = s@.subrange(start as int, i as int);
                if i > start && s@[i - 1] == '\r' {
                    assert(strip_cr(f) =~= s@.subrange(start as int, i - 1));
                } else {
                    assert(strip_cr(f) =~= f);
                }
            }
            out.push(piece.to_owned());
            proof {
                assert(out.deep_view() =~= old_out.deep_view().push(piece@));
                assert(old_out.deep_view() + (seq![piece@] + split_lines(s@.skip(i + 1)))
                    =~= out.deep_view() + split_lines(s@.skip(i + 1)));
            }
            start = i + 1;
        }
        i += 1;
    }
    if start < n {
        let ghost old_out = out;
        proof {
            lemma_split_lines_last(s@, start as int);
        }
        let piece = s.substring_char(start, n);
        out.push(piece.to_owned());
        proof {
            assert(out.deep_view() =~= old_out.deep_view().push(piece@));
            assert(old_out.deep_view() + seq![piece@] =~= out.deep_view());
        }
    } else {
        proof {
            assert(s@.skip(start as int) =~= Seq::<char>::empty());
            assert(out.deep_view() + split_lines(s@.skip(start as int)) =~= out.deep_view());
        }
    }
    out
}

/// How the joining loop still owes the remaining pieces: nothing when none
/// remain, the pieces joined when nothing was written yet, and a space plus
/// the joined pieces otherwise.
spec fn join_rest(first: bool, ns: Seq<Seq<char>>) -> Seq<char> {
    if ns.len() == 0 {
        Seq::empty()
    } else if first {
        join_space(ns)
    } else {
        seq![' '] + join_space(ns)
    }
}

/// The string with its newlines removed: its non-empty lines joined with
/// single spaces. A string without `'\r'` and `'\n'` is returned unchanged.
fn strip_newlines(text: &str) -> (r: String)
    ensures
        r@ == stripped_newlines(text@),
{
    if !contains_char(text, '\r') && !contains_char(text, '\n') {
        return text.to_owned();
    }
    let lines = split_str_lines(text);
    let ghost all = lines.deep_view();
    let mut out = String::new();
    let mut first: bool = true;
    let mut i: usize = 0;
    proof {
        assert(all.skip(0) =~= all);
        assert(Seq::<char>::empty() + join_rest(true, nonblank(all)) =~= join_rest(
            true,
            nonblank(all),
        ));
    }
    while i < lines.len()
        invariant
            all == lines.deep_view(),
            i <= lines.len(),
            join_space(nonblank(all)) == out@ + join_rest(first, nonblank(all.skip(i as int))),
        decreases lines.len() - i,
    {
        let line = &lines[i];
        proof {
            assert(all.skip(i as int)[0] == all[i as int]);
            assert(all.skip(i as int).drop_first() =~= all.skip(i + 1));
            lemma_nonblank_cons(all.skip(i as int));
        }
        if !line.as_str().is_empty() {
            proof {
                lemma_join_space_cons(all[i as int], nonblank(all.skip(i + 1)));
                reveal_strlit(" ");
                assert(" "@ =~= seq![' ']);
            }
            if !first {
                out.append(" ");
            }
            out.append(line.as_str());
            first = false;
        }
        i += 1;
    }
    proof {
        assert(all.skip(lines.len() as int) =~= Seq::<Seq<char>>::empty());
    }
    out
}

// ---------------------------------------------------------------------------
// The items of a document.
// ---------------------------------------------------------------------------
/// The level of a heading.
#[derive(Debug, Clone, Copy, PartialEq, Eq, Structural)]
pub enum HeadingLevel {
    /// Heading level 1 (`#`).
    H1,
    /// Heading level 2 (`##`).
    H2,
    /// Heading level 3 (`###`).
    H3,
}

impl View for HeadingLevel {
    type V = int;

    open spec fn view(&self) -> int {
        match self {
            HeadingLevel::H1 => 1,
            HeadingLevel::H2 => 2,
            HeadingLevel::H3 => 3,
        }
    }
}

/// A plain text line, normalized so that it cannot be misread as another
/// line type.
pub struct Text(String);

/// The label of a link, with newlines removed.
pub struct LinkLabel(String);

/// A link line: a URI in display form and an optional label.
pub struct Link {
    uri: String,
    label: Option<LinkLabel>,
}

/// One line of a preformatted block, normalized so that it cannot close the
/// block.
pub struct PreformattedText(String);

/// The alt text of a preformatted block, with newlines removed.
pub struct AltText(String);

/// A preformatted block: alt text and its lines.
pub struct Preformatted {
    alt: AltText,
    lines: Vec<PreformattedText>,
}

/// The text of a heading, with newlines removed.
pub struct HeadingText(String);

/// A heading line: a level and its text.
pub struct Heading {
    level: HeadingLevel,
    text: HeadingText,
}

/// An unordered list item, with newlines removed.
pub struct UnorderedListItem(String);

/// One line of a quote.
pub struct Quote(String);

/// One item of a document; an item usually corresponds to a single line,
/// except for preformatted blocks.
pub enum Item {
    Text(Text),
    Link(Link),
    Preformatted(Preformatted),
    Heading(Heading),
    UnorderedListItem(UnorderedListItem),
    Quote(Quote),
}

/// The views of the lines of a preformatted block.
pub closed spec fn pre_line_views(lines: Seq<PreformattedText>) -> Seq<Seq<char>> {
    lines.map_values(|pt: PreformattedText| pt.0@)
}

/// The mathematical form of an item: every string as a character sequence.
pub enum ItemView {
    Text { line: Seq<char> },
    Link { uri: Seq<char>, label: Option<Seq<char>> },
    Preformatted { alt: Seq<char>, lines: Seq<Seq<char>> },
    Heading { level: int, text: Seq<char> },
    UnorderedListItem { text: Seq<char> },
    Quote { line: Seq<char> },
}

impl View for Item {
    type V = ItemView;

    closed spec fn view(&self) -> ItemView {
        match self {
            Item::Text(t) => ItemView::Text { line: t.0@ },
            Item::Link(l) => ItemView::Link {
                uri: l.uri@,
                label: match &l.label {
                    Some(lbl) => Some(lbl.0@),
                    None => None,
                },
            },
            Item::Preformatted(p) => ItemView::Preformatted {
                alt: p.alt.0@,
                lines: pre_line_views(p.lines@),
            },
            Item::Heading(h) => ItemView::Heading { level: h.level@, text: h.text.0@ },
            Item::UnorderedListItem(u) => ItemView::UnorderedListItem { text: u.0@ },
            Item::Quote(q) => ItemView::Quote { line: q.0@ },
        }
    }
}

impl Text {
    /// An empty text line.
    fn blank() -> (t: Text)
        ensures
            t.0@ == Seq::<char>::empty(),
    {
        Text(String::new())
    }

    /// The first line of `line`, space-prefixed when it starts with a
    /// reserved prefix.
    fn new_lossy(line: &str) -> (t: Text)
        ensures
            t.0@ == escaped_line(line@, starts_reserved(line@)),
    {
        let special = is_reserved_start(line);
        Text(lossy_escaped_line(line, special))
    }
}

impl LinkLabel {
    /// The label with newlines removed.
    fn from_lossy(line: &str) -> (l: LinkLabel)
        ensures
            l.0@ == stripped_newlines(line@),
    {
        LinkLabel(strip_newlines(line))
    }
}

impl PreformattedText {
    /// The first line of `line`, space-prefixed when it would close the
    /// block.
    fn new_lossy(line: &str) -> (p: PreformattedText)
        ensures
            p.0@ == escaped_line(line@, starts_pre_toggle(line@)),
    {
        let special = is_pre_toggle_start(line);
        PreformattedText(lossy_escaped_line(line, special))
    }
}

impl AltText {
    /// The alt text with newlines removed.
    fn new_lossy(alt: &str) -> (a: AltText)
        ensures
            a.0@ == stripped_newlines(alt@),
    {
        AltText(strip_newlines(alt))
    }
}

impl HeadingText {
    /// The heading text with newlines removed.
    fn new_lossy(line: &str) -> (h: HeadingText)
        ensures
            h.0@ == stripped_newlines(line@),
    {
        HeadingText(strip_newlines(line))
    }
}

impl UnorderedListItem {
    /// The item text with newlines removed.
    fn new_lossy(text: &str) -> (u: UnorderedListItem)
        ensures
            u.0@ == stripped_newlines(text@),
    {
        UnorderedListItem(strip_newlines(text))
    }
}

impl Quote {
    /// The first line of `text`, space-prefixed when it starts with the
    /// quote prefix.
    fn new_lossy(text: &str) -> (q: Quote)
        ensures
            q.0@ == escaped_line(text@, starts_quote(text@)),
    {
        let special = is_quote_start(text);
        Quote(lossy_escaped_line(text, special))
    }
}

// ---------------------------------------------------------------------------
// The document.
// ---------------------------------------------------------------------------
/// The views of a sequence of items.
pub open spec fn views_of(items: Seq<Item>) -> Seq<ItemView> {
    items.map_values(|item: Item| item@)
}

/// A Gemini document under construction: an ordered sequence of items, each
/// normalized at insertion.
pub struct Document {
    items: Vec<Item>,
}

impl View for Document {
    type V = Seq<ItemView>;

    closed spec fn view(&self) -> Seq<ItemView> {
        views_of(self.items@)
    }
}

impl Document {
    /// An empty document.
    pub fn new() -> (d: Document)
        ensures
            d@ == Seq::<ItemView>::empty(),
    {
        let d = Document { items: Vec::new() };
        proof {
            assert(d@ =~= Seq::<ItemView>::empty());
        }
        d
    }

    /// Appends one item.
    fn add_item(&mut self, item: Item)
        ensures
            final(self)@ == old(self)@.push(item@),
    {
        let ghost pre = self.items@;
        self.items.push(item);
        proof {
            assert(views_of(self.items@) =~= views_of(pre).push(self.items@.last()@));
        }
    }

    /// Appends several items in order.
    fn add_items(&mut self, items: Vec<Item>)
        ensures
            final(self)@ == old(self)@ + views_of(items@),
    {
        let ghost base = self@;
        let ghost all = views_of(items@);
        let mut rest = items;
        proof {
            assert(base + all =~= base + views_of(rest@));
        }
        while rest.len() > 0
            invariant
                self@ + views_of(rest@) == base + all,
            decreases rest.len(),
        {
            let ghost rest_pre = rest@;
            let item = rest.remove(0);
            self.add_item(item);
            proof {
                assert(rest@ =~= rest_pre.drop_first());
                assert(self@ + views_of(rest@) =~= base + all);
            }
        }
        proof {
            assert(self@ + views_of(rest@) =~= self@);
        }
    }
}

/// A normalized item: no stored string holds a newline, a text line starts
/// with no reserved prefix, no preformatted line starts with three backticks,
/// and a heading level is one of 1, 2 and 3.
pub open spec fn item_view_wf(item: ItemView) -> bool {
    match item {
        ItemView::Text { line } => !line.contains('\n') && !starts_reserved(line),
        ItemView::Link { uri, label } => !uri.contains('\n') && match label {
            Some(l) => !l.contains('\n'),
            None => true,
        },
        ItemView::Preformatted { alt, lines } => !alt.contains('\n') && forall|k: int|
            0 <= k < lines.len() ==> !(#[trigger] lines[k]).contains('\n') && !starts_pre_toggle(
                lines[k],
            ),
        ItemView::Heading { level, text } => 1 <= level <= 3 && !text.contains('\n'),
        ItemView::UnorderedListItem { text } => !text.contains('\n'),
        ItemView::Quote { line } => !line.contains('\n'),
    }
}

/// Well-formed items stay well formed under appending.
proof fn lemma_wf_append(base: Seq<ItemView>, added: Seq<ItemView>)
    requires
        forall|i: int| 0 <= i < base.len() ==> item_view_wf(#[trigger] base[i]),
        forall|i: int| 0 <= i < added.len() ==> item_view_wf(#[trigger] added[i]),
    ensures
        forall|i: int| 0 <= i < (base + added).len() ==> item_view_wf(#[trigger] (base + added)[i]),
{
    assert forall|i: int| 0 <= i < (base + added).len() implies item_view_wf(
        #[trigger] (base + added)[i],
    ) by {
        if i < base.len() {
            assert((base + added)[i] == base[i]);
        } else {
            assert((base + added)[i] == added[i - base.len()]);
        }
    }
}

/// The items that adding `s` as plain text appends: one normalized text line
/// per line of `s`.
pub open spec fn text_items(s: Seq<char>) -> Seq<ItemView> {
    split_lines(s).map_values(
        |l: Seq<char>| ItemView::Text { line: escaped_line(l, starts_reserved(l)) },
    )
}

/// The normalized lines of a preformatted block built from `s`.
pub open spec fn pre_lines(s: Seq<char>) -> Seq<Seq<char>> {
    split_lines(s).map_values(|l: Seq<char>| escaped_line(l, starts_pre_toggle(l)))
}

/// The items that adding `s` as a quote appends: one quote line per line of
/// `s`.
pub open spec fn quote_items(s: Seq<char>) -> Seq<ItemView> {
    split_lines(s).map_values(
        |l: Seq<char>| ItemView::Quote { line: escaped_line(l, starts_quote(l)) },
    )
}

/// The display form a link stores for `uri`: what `uriparse` prints for it,
/// or `.` when it does not parse.
pub open spec fn link_uri_view(s: Seq<char>) -> Seq<char> {
    match bindings::uri_display(s) {
        Some(u) => u,
        None => "."@,
    }
}

impl Document {
    /// Every item of the document is normalized. Every constructor
    /// establishes this and every builder operation preserves it.
    pub open spec fn wf(self) -> bool {
        forall|i: int| 0 <= i < self@.len() ==> item_view_wf(#[trigger] self@[i])
    }

    /// Appends a blank line.
    pub fn add_blank_line(&mut self)
        ensures
            final(self)@ == old(self)@.push(ItemView::Text { line: Seq::empty() }),
            old(self).wf() ==> final(self).wf(),
    {
        self.add_item(Item::Text(Text::blank()));
        proof {
            if old(self).wf() {
                lemma_wf_append(old(self)@, seq![ItemView::Text { line: Seq::empty() }]);
                assert(self@ =~= old(self)@ + seq![ItemView::Text { line: Seq::empty() }]);
            }
        }
    }

    /// Appends plain text, line by line. A line that starts with a reserved
    /// prefix is prefixed with a space so that it stays plain text.
    pub fn add_text(&mut self, text: &str)
        ensures
            final(self)@ == old(self)@ + text_items(text@),
            old(self).wf() ==> final(self).wf(),
    {
        let ghost base = self@;
        let ghost added = text_items(text@);
        let lines = split_str_lines(text);
        let ghost all = lines.deep_view();
        let mut i: usize = 0;
        proof {
            assert(self@ =~= base + added.take(0));
        }
        while i < lines.len()
            invariant
                all == lines.deep_view(),
                all == split_lines(text@),
                added == text_items(text@),
                i <= lines.len(),
                self@ == base + added.take(i as int),
            decreases lines.len() - i,
        {
            let t = Text::new_lossy(lines[i].as_str());
            self.add_item(Item::Text(t));
            proof {
                assert(added[i as int] == ItemView::Text {
                    line: escaped_line(all[i as int], starts_reserved(all[i as int])),
                });
                assert(self@ =~= base + added.take(i + 1));
            }
            i += 1;
        }
        proof {
            assert(added.take(lines.len() as int) =~= added);
            if old(self).wf() {
                assert forall|k: int| 0 <= k < added.len() implies item_view_wf(
                    #[trigger] added[k],
                ) by {
                    lemma_escaped_line_safe(all[k]);
                }
                lemma_wf_append(base, added);
            }
        }
    }

    /// Appends a link with a label; newlines in the label are replaced by
    /// joining its non-empty lines with spaces. A `uri` that does not parse
    /// is substituted with `.`.
    pub fn add_link(&mut self, uri: &str, label: &str)
        ensures
            final(self)@ == old(self)@.push(
                ItemView::Link {
                    uri: link_uri_view(uri@),
                    label: Some(stripped_newlines(label@)),
                },
            ),
            old(self).wf() ==> final(self).wf(),
    {
        let link_uri = Self::display_or_dot(uri);
        let lbl = LinkLabel::from_lossy(label);
        let ghost item = ItemView::Link {
            uri: link_uri_view(uri@),
            label: Some(stripped_newlines(label@)),
        };
        self.add_item(Item::Link(Link { uri: link_uri, label: Some(lbl) }));
        proof {
            if old(self).wf() {
                lemma_stripped_newlines_no_nl(label@);
                lemma_wf_append(old(self)@, seq![item]);
                assert(self@ =~= old(self)@ + seq![item]);
            }
        }
    }

    /// Appends a link without a label. A `uri` that does not parse is
    /// substituted with `.`.
    pub fn add_link_without_label(&mut self, uri: &str)
        ensures
            final(self)@ == old(self)@.push(
                ItemView::Link { uri: link_uri_view(uri@), label: None },
            ),
            old(self).wf() ==> final(self).wf(),
    {
        let link_uri = Self::display_or_dot(uri);
        let ghost item = ItemView::Link { uri: link_uri_view(uri@), label: None };
        self.add_item(Item::Link(Link { uri: link_uri, label: None }));
        proof {
            if old(self).wf() {
                lemma_wf_append(old(self)@, seq![item]);
                assert(self@ =~= old(self)@ + seq![item]);
            }
        }
    }

    /// The display form of the URI, or `.` when it does not parse. The
    /// result never holds a newline.
    fn display_or_dot(uri: &str) -> (r: String)
        ensures
            r@ == link_uri_view(uri@),
            !r@.contains('\n'),
    {
        match bindings::uri_display_string(uri) {
            Some(u) => u,
            None => {
                let dot = String::from_str(".");
                proof {
                    reveal_strlit(".");
                    assert(!dot@.contains('\n')) by {
                        if dot@.contains('\n') {
                            let i = choose|i: int| 0 <= i < dot@.len() && dot@[i] == '\n';
                        }
                    }
                }
                dot
            },
        }
    }

    /// Appends a preformatted block without alt text.
    pub fn add_preformatted(&mut self, preformatted_text: &str)
        ensures
            final(self)@ == old(self)@.push(
                ItemView::Preformatted {
                    alt: Seq::empty(),
                    lines: pre_lines(preformatted_text@),
                },
            ),
            old(self).wf() ==> final(self).wf(),
    {
        proof {
            reveal_strlit("");
            assert(""@ =~= Seq::<char>::empty());
        }
        self.add_preformatted_with_alt("", preformatted_text);
    }

    /// Appends a preformatted block with alt text. Newlines in `alt` are
    /// replaced by joining its non-empty lines with spaces; a line of the
    /// block that starts with three backticks is prefixed with a space so
    /// that it cannot close the block.
    pub fn add_preformatted_with_alt(&mut self, alt: &str, preformatted_text: &str)
        ensures
            final(self)@ == old(self)@.push(
                ItemView::Preformatted {
                    alt: stripped_newlines(alt@),
                    lines: pre_lines(preformatted_text@),
                },
            ),
            old(self).wf() ==> final(self).wf(),
    {
        let alt_text = AltText::new_lossy(alt);
        let raw = split_str_lines(preformatted_text);
        let ghost all = raw.deep_view();
        let ghost target = pre_lines(preformatted_text@);
        let mut lines: Vec<PreformattedText> = Vec::new();
        let mut i: usize = 0;
        proof {
            assert(pre_line_views(lines@) =~= target.take(0));
        }
        while i < raw.len()
            invariant
                all == raw.deep_view(),
                all == split_lines(preformatted_text@),
                target == pre_lines(preformatted_text@),
                i <= raw.len(),
                pre_line_views(lines@) == target.take(i as int),
            decreases raw.len() - i,
        {
            let ghost lines_pre = lines@;
            lines.push(PreformattedText::new_lossy(raw[i].as_str()));
            proof {
                assert(all.len() == raw@.len());
                assert(target.len() == all.len());
                assert(pre_line_views(lines_pre).len() == lines_pre.len());
                assert(lines_pre.len() == i);
                assert(all[i as int] == raw@[i as int]@);
                assert(target[i as int] == escaped_line(
                    all[i as int],
                    starts_pre_toggle(all[i as int]),
                ));
                assert(lines@ == lines_pre.push(lines@.last()));
                assert forall|k: int| 0 <= k < lines@.len() implies pre_line_views(lines@)[k]
                    == target.take(i + 1)[k] by {
                    if k < i {
                        assert(lines@[k] == lines_pre[k]);
                        assert(pre_line_views(lines_pre)[k] == target.take(i as int)[k]);
                    } else {
                        assert(lines@[k].0@ == escaped_line(
                            all[i as int],
                            starts_pre_toggle(all[i as int]),
                        ));
                    }
                }
                assert(pre_line_views(lines@) =~= target.take(i + 1));
            }
            i += 1;
        }
        proof {
            assert(target.take(raw.len() as int) =~= target);
        }
        let ghost item = ItemView::Preformatted {
            alt: stripped_newlines(alt@),
            lines: target,
        };
        self.add_item(Item::Preformatted(Preformatted { alt: alt_text, lines }));
        proof {
            if old(self).wf() {
                lemma_stripped_newlines_no_nl(alt@);
                assert forall|k: int| 0 <= k < target.len() implies !(
                #[trigger] target[k]).contains('\n') && !starts_pre_toggle(target[k]) by {
                    lemma_escaped_pre_line_safe(all[k]);
                }
                lemma_wf_append(old(self)@, seq![item]);
                assert(self@ =~= old(self)@ + seq![item]);
            }
        }
    }

    /// Appends a heading; newlines in the text are replaced by joining its
    /// non-empty lines with spaces.
    pub fn add_heading(&mut self, level: HeadingLevel, text: &str)
        ensures
            final(self)@ == old(self)@.push(
                ItemView::Heading { level: level@, text: stripped_newlines(text@) },
            ),
            old(self).wf() ==> final(self).wf(),
    {
        let heading_text = HeadingText::new_lossy(text);
        let ghost item = ItemView::Heading { level: level@, text: stripped_newlines(text@) };
        self.add_item(Item::Heading(Heading { level, text: heading_text }));
        proof {
            if old(self).wf() {
                lemma_stripped_newlines_no_nl(text@);
                lemma_wf_append(old(self)@, seq![item]);
                assert(self@ =~= old(self)@ + seq![item]);
            }
        }
    }

    /// Appends an unordered list item; newlines in the text are replaced by
    /// joining its non-empty lines with spaces.
    pub fn add_unordered_list_item(&mut self, text: &str)
        ensures
            final(self)@ == old(self)@.push(
                ItemView::UnorderedListItem { text: stripped_newlines(text@) },
            ),
            old(self).wf() ==> final(self).wf(),
    {
        let item_text = UnorderedListItem::new_lossy(text);
        let ghost item = ItemView::UnorderedListItem { text: stripped_newlines(text@) };
        self.add_item(Item::UnorderedListItem(item_text));
        proof {
            if old(self).wf() {
                lemma_stripped_newlines_no_nl(text@);
                lemma_wf_append(old(self)@, seq![item]);
                assert(self@ =~= old(self)@ + seq![item]);
            }
        }
    }

    /// Appends a quote, line by line. A line that starts with `>` is
    /// prefixed with a space.
    pub fn add_quote(&mut self, text: &str)
        ensures
            final(self)@ == old(self)@ + quote_items(text@),
            old(self).wf() ==> final(self).wf(),
    {
        let ghost base = self@;
        let ghost added = quote_items(text@);
        let lines = split_str_lines(text);
        let ghost all = lines.deep_view();
        let mut i: usize = 0;
        proof {
            assert(self@ =~= base + added.take(0));
        }
        while i < lines.len()
            invariant
                all == lines.deep_view(),
                all == split_lines(text@),
                added == quote_items(text@),
                i <= lines.len(),
                self@ == base + added.take(i as int),
            decreases lines.len() - i,
        {
            let q = Quote::new_lossy(lines[i].as_str());
            self.add_item(Item::Quote(q));
            proof {
                assert(added[i as int] == ItemView::Quote {
                    line: escaped_line(all[i as int], starts_quote(all[i as int])),
                });
                assert(self@ =~= base + added.take(i + 1));
            }
            i += 1;
        }
        proof {
            assert(added.take(lines.len() as int) =~= added);
            if old(self).wf() {
                assert forall|k: int| 0 <= k < added.len() implies item_view_wf(
                    #[trigger] added[k],
                ) by {
                    lemma_escaped_quote_line_safe(all[k]);
                }
                lemma_wf_append(base, added);
            }
        }
    }
}

impl Default for Document {
    /// An empty document.
    fn default() -> (d: Document)
        ensures
            d@ == Seq::<ItemView>::empty(),
    {
        Document::new()
    }
}

// ---------------------------------------------------------------------------
// Serialization.
// ---------------------------------------------------------------------------
/// The hash prefix of a heading of the given level.
pub open spec fn hash_prefix(level: int) -> Seq<char> {
    if level == 1 {
        seq!['#']
    } else if level == 2 {
        seq!['#', '#']
    } else {
        seq!['#', '#', '#']
    }
}

/// The serialized form of the inner lines of a preformatted block.
pub open spec fn render_pre_lines(lines: Seq<Seq<char>>) -> Seq<char>
    decreases lines.len(),
{
    if lines.len() == 0 {
        Seq::empty()
    } else {
        lines[0] + seq!['\n'] + render_pre_lines(lines.drop_first())
    }
}

/// The serialized form of one item.
pub open spec fn render_item(item: ItemView) -> Seq<char> {
    match item {
        ItemView::Text { line } => line + seq!['\n'],
        ItemView::Link { uri, label } => match label {
            Some(l) => seq!['=', '>', ' '] + uri + seq![' '] + l + seq!['\n'],
            None => seq!['=', '>', ' '] + uri + seq!['\n'],
        },
        ItemView::Preformatted { alt, lines } => seq!['`', '`', '`'] + alt + seq!['\n']
            + render_pre_lines(lines) + seq!['`', '`', '`', '\n'],
        ItemView::Heading { level, text } => hash_prefix(level) + seq![' '] + text + seq!['\n'],
        ItemView::UnorderedListItem { text } => seq!['*', ' '] + text + seq!['\n'],
        ItemView::Quote { line } => seq!['>', ' '] + line + seq!['\n'],
    }
}

/// The serialized form of a document with these items.
pub open spec fn render(items: Seq<ItemView>) -> Seq<char>
    decreases items.len(),
{
    if items.len() == 0 {
        Seq::empty()
    } else {
        render_item(items[0]) + render(items.drop_first())
    }
}

impl Document {
    /// Serializes the document to its textual form.
    pub fn to_string(&self) -> (r: String)
        ensures
            r@ == render(self@),
    {
        let ghost all = self@;
        let mut out = String::new();
        let mut i: usize = 0;
        proof {
            assert(all.skip(0) =~= all);
            assert(Seq::<char>::empty() + render(all) =~= render(all));
            assert(all.len() == self.items@.len());
        }
        while i < self.items.len()
            invariant
                all == self@,
                all.len() == self.items@.len(),
                i <= self.items.len(),
                render(all) == out@ + render(all.skip(i as int)),
            decreases self.items.len() - i,
        {
            proof {
                assert(all.skip(i as int)[0] == all[i as int]);
                assert(all.skip(i as int).drop_first() =~= all.skip(i + 1));
                assert(all[i as int] == self.items@[i as int]@);
            }
            let ghost out_pre = out@;
            match &self.items[i] {
                Item::Text(t) => {
                    out.append(t.0.as_str());
                    out.append("\n");
                    proof {
                        reveal_strlit("\n");
                        assert("\n"@ =~= seq!['\n']);
                        assert(out@ =~= out_pre + render_item(all[i as int]));
                    }
                },
                Item::Link(l) => {
                    out.append("=> ");
                    out.append(l.uri.as_str());
                    match &l.label {
                        Some(lbl) => {
                            out.append(" ");
                            out.append(lbl.0.as_str());
                        },
                        None => {},
                    }
                    out.append("\n");
                    proof {
                        reveal_strlit("\n");
                        reveal_strlit("=> ");
                        reveal_strlit(" ");
                        assert("\n"@ =~= seq!['\n']);
                        assert("=> "@ =~= seq!['=', '>', ' ']);
                        assert(" "@ =~= seq![' ']);
                        assert(out@ =~= out_pre + render_item(all[i as int]));
                    }
                },
                Item::Preformatted(p) => {
                    out.append("```");
                    out.append(p.alt.0.as_str());
                    out.append("\n");
                    proof {
                        reveal_strlit("```");
                        reveal_strlit("\n");
                        assert("```"@ =~= seq!['`', '`', '`']);
                        assert("\n"@ =~= seq!['\n']);
                    }
                    let ghost lv = pre_line_views(p.lines@);
                    let ghost block_pre = out@;
                    let ghost mut done: Seq<char> = Seq::empty();
                    let mut j: usize = 0;
                    proof {
                        assert(lv.skip(0) =~= lv);
                        assert(done + render_pre_lines(lv) =~= render_pre_lines(lv));
                    }
                    while j < p.lines.len()
                        invariant
                            lv == pre_line_views(p.lines@),
                            lv.len() == p.lines@.len(),
                            j <= p.lines.len(),
                            out@ == block_pre + done,
                            done + render_pre_lines(lv.skip(j as int)) == render_pre_lines(lv),
                        decreases p.lines.len() - j,
                    {
                        proof {
                            assert(lv.skip(j as int)[0] == lv[j as int]);
                            assert(lv.skip(j as int).drop_first() =~= lv.skip(j + 1));
                            assert(lv[j as int] == p.lines@[j as int].0@);
                        }
                        out.append(p.lines[j].0.as_str());
                        out.append("\n");
                        proof {
                            reveal_strlit("\n");
                            assert("\n"@ =~= seq!['\n']);
                            done = done + lv[j as int] + seq!['\n'];
                            assert(out@ =~= block_pre + done);
                            assert(done + render_pre_lines(lv.skip(j + 1)) =~= render_pre_lines(
                                lv,
                            ));
                        }
                        j += 1;
                    }
                    out.append("```\n");
                    proof {
                        reveal_strlit("```\n");
                        reveal_strlit("```");
                        reveal_strlit("\n");
                        assert("```\n"@ =~= seq!['`', '`', '`', '\n']);
                        assert("```"@ =~= seq!['`', '`', '`']);
                        assert("\n"@ =~= seq!['\n']);
                        assert(lv.skip(p.lines@.len() as int) =~= Seq::<Seq<char>>::empty());
                        assert(done =~= render_pre_lines(lv));
                        assert(out@ =~= out_pre + render_item(all[i as int]));
                    }
                },
                Item::Heading(h) => {
                    match h.level {
                        HeadingLevel::H1 => out.append("# "),
                        HeadingLevel::H2 => out.append("## "),
                        HeadingLevel::H3 => out.append("### "),
                    }
                    out.append(h.text.0.as_str());
                    out.append("\n");
                    proof {
                        reveal_strlit("# ");
                        reveal_strlit("## ");
                        reveal_strlit("### ");
                        reveal_strlit("\n");
                        assert("# "@ =~= seq!['#', ' ']);
                        assert("## "@ =~= seq!['#', '#', ' ']);
                        assert("### "@ =~= seq!['#', '#', '#', ' ']);
                        assert("\n"@ =~= seq!['\n']);
                        assert(out@ =~= out_pre + render_item(all[i as int]));
                    }
                },
                Item::UnorderedListItem(u) => {
                    out.append("* ");
                    out.append(u.0.as_str());
                    out.append("\n");
                    proof {
                        reveal_strlit("* ");
                        reveal_strlit("\n");
                        assert("* "@ =~= seq!['*', ' ']);
                        assert("\n"@ =~= seq!['\n']);
                        assert(out@ =~= out_pre + render_item(all[i as int]));
                    }
                },
                Item::Quote(q) => {
                    out.append("> ");
                    out.append(q.0.as_str());
                    out.append("\n");
                    proof {
                        reveal_strlit("> ");
                        reveal_strlit("\n");
                        assert("> "@ =~= seq!['>', ' ']);
                        assert("\n"@ =~= seq!['\n']);
                        assert(out@ =~= out_pre + render_item(all[i as int]));
                    }
                },
            }
            proof {
                assert(out_pre + (render_item(all[i as int]) + render(all.skip(i + 1))) =~= out@
                    + render(all.skip(i + 1)));
            }
            i += 1;
        }
        proof {
            assert(all.skip(all.len() as int) =~= Seq::<ItemView>::empty());
        }
        out
    }
}

// ---------------------------------------------------------------------------
// Laws: serialization safety and determinism.
// ---------------------------------------------------------------------------
/// The raw newline decomposition of a serialized document: split at `'\n'`,
/// with nothing removed and without a final empty piece.
pub open spec fn split_nl(s: Seq<char>) -> Seq<Seq<char>>
    decreases s.len(),
    via split_nl_decreases
{
    if s.len() == 0 {
        Seq::empty()
    } else if first_line(s).len() == s.len() {
        seq![first_line(s)]
    } else {
        seq![first_line(s)] + split_nl(s.skip(first_line(s).len() + 1 as int))
    }
}

#[via_fn]
proof fn split_nl_decreases(s: Seq<char>) {
    if s.len() > 0 {
        lemma_first_line_props(s);
    }
}

/// The lines an item contributes to the serialized output, in order: one per
/// text, link, heading, list and quote item, and the delimiter lines around
/// the inner lines of each preformatted block.
pub open spec fn item_lines(item: ItemView) -> Seq<Seq<char>> {
    match item {
        ItemView::Text { line } => seq![line],
        ItemView::Link { uri, label } => match label {
            Some(l) => seq![seq!['=', '>', ' '] + uri + seq![' '] + l],
            None => seq![seq!['=', '>', ' '] + uri],
        },
        ItemView::Preformatted { alt, lines } => seq![seq!['`', '`', '`'] + alt] + lines + seq![
            seq!['`', '`', '`'],
        ],
        ItemView::Heading { level, text } => seq![hash_prefix(level) + seq![' '] + text],
        ItemView::UnorderedListItem { text } => seq![seq!['*', ' '] + text],
        ItemView::Quote { line } => seq![seq!['>', ' '] + line],
    }
}

/// The lines of the whole document: the lines of its items, in order.
pub open spec fn document_lines(items: Seq<ItemView>) -> Seq<Seq<char>>
    decreases items.len(),
{
    if items.len() == 0 {
        Seq::empty()
    } else {
        item_lines(items[0]) + document_lines(items.drop_first())
    }
}

/// A concatenation of newline-free strings is newline-free.
proof fn lemma_no_nl_concat(a: Seq<char>, b: Seq<char>)
    requires
        !a.contains('\n'),
        !b.contains('\n'),
    ensures
        !(a + b).contains('\n'),
{
    if (a + b).contains('\n') {
        let i = choose|i: int| 0 <= i < (a + b).len() && (a + b)[i] == '\n';
        if i < a.len() {
            assert(a.contains(a[i]));
        } else {
            assert(b.contains(b[i - a.len()]));
        }
    }
}

/// Splitting at newlines takes one newline-free line off the front.
proof fn lemma_split_nl_prefix(l: Seq<char>, rest: Seq<char>)
    requires
        !l.contains('\n'),
    ensures
        split_nl(l + seq!['\n'] + rest) == seq![l] + split_nl(rest),
{
    let s = l + seq!['\n'] + rest;
    assert forall|j: int| 0 <= j < l.len() implies s[j] != '\n' by {
        assert(s[j] == l[j]);
        assert(l.contains(l[j]) == true);
    }
    assert(s[l.len() as int] == '\n');
    lemma_first_line_at(s, l.len() as int);
    assert(s.subrange(0, l.len() as int) =~= l);
    assert(first_line(s).len() < s.len());
    assert(s.skip(l.len() + 1 as int) =~= rest);
    if rest.len() == 0 {
        assert(seq![l] + split_nl(rest) =~= seq![l]);
    }
}

/// The inner lines of a preformatted block split at newlines into exactly
/// those lines.
proof fn lemma_pre_render_lines(lines: Seq<Seq<char>>, tail: Seq<char>)
    requires
        forall|k: int| 0 <= k < lines.len() ==> !(#[trigger] lines[k]).contains('\n'),
    ensures
        split_nl(render_pre_lines(lines) + tail) == lines + split_nl(tail),
    decreases lines.len(),
{
    if lines.len() == 0 {
        assert(render_pre_lines(lines) + tail =~= tail);
        assert(lines + split_nl(tail) =~= split_nl(tail));
    } else {
        assert forall|k: int|
            0 <= k < lines.drop_first().len() implies !(#[trigger] lines.drop_first()[k]).contains(
            '\n',
        ) by {
            assert(lines.drop_first()[k] == lines[k + 1]);
        }
        lemma_pre_render_lines(lines.drop_first(), tail);
        assert(render_pre_lines(lines) + tail =~= lines[0] + seq!['\n'] + (render_pre_lines(
            lines.drop_first(),
        ) + tail));
        lemma_split_nl_prefix(lines[0], render_pre_lines(lines.drop_first()) + tail);
        assert(seq![lines[0]] + (lines.drop_first() + split_nl(tail)) =~= lines + split_nl(tail));
    }
}

/// One well-formed item's serialization splits at newlines into exactly the
/// item's lines, whatever follows it.
proof fn lemma_item_render_lines(item: ItemView, rest: Seq<char>)
    requires
        item_view_wf(item),
    ensures
        split_nl(render_item(item) + rest) == item_lines(item) + split_nl(rest),
{
    match item {
        ItemView::Text { line } => {
            assert(render_item(item) + rest =~= line + seq!['\n'] + rest);
            lemma_split_nl_prefix(line, rest);
        },
        ItemView::Link { uri, label } => {
            match label {
                Some(l) => {
                    let full = seq!['=', '>', ' '] + uri + seq![' '] + l;
                    assert(!seq!['=', '>', ' '].contains('\n'));
                    assert(!seq![' '].contains('\n'));
                    lemma_no_nl_concat(seq!['=', '>', ' '], uri);
                    lemma_no_nl_concat(seq!['=', '>', ' '] + uri, seq![' ']);
                    lemma_no_nl_concat(seq!['=', '>', ' '] + uri + seq![' '], l);
                    assert(render_item(item) + rest =~= full + seq!['\n'] + rest);
                    lemma_split_nl_prefix(full, rest);
                },
                None => {
                    let full = seq!['=', '>', ' '] + uri;
                    assert(!seq!['=', '>', ' '].contains('\n'));
                    lemma_no_nl_concat(seq!['=', '>', ' '], uri);
                    assert(render_item(item) + rest =~= full + seq!['\n'] + rest);
                    lemma_split_nl_prefix(full, rest);
                },
            }
        },
        ItemView::Preformatted { alt, lines } => {
            let opener = seq!['`', '`', '`'] + alt;
            let closer = seq!['`', '`', '`'];
            assert(!closer.contains('\n'));
            lemma_no_nl_concat(closer, alt);
            let after_open = render_pre_lines(lines) + (closer + seq!['\n'] + rest);
            assert(render_item(item) + rest =~= opener + seq!['\n'] + after_open);
            lemma_split_nl_prefix(opener, after_open);
            lemma_pre_render_lines(lines, closer + seq!['\n'] + rest);
            lemma_split_nl_prefix(closer, rest);
            assert(seq![opener] + (lines + (seq![closer] + split_nl(rest))) =~= item_lines(item)
                + split_nl(rest));
        },
        ItemView::Heading { level, text } => {
            let full = hash_prefix(level) + seq![' '] + text;
            assert(!hash_prefix(level).contains('\n'));
            assert(!seq![' '].contains('\n'));
            lemma_no_nl_concat(hash_prefix(level), seq![' ']);
            lemma_no_nl_concat(hash_prefix(level) + seq![' '], text);
            assert(render_item(item) + rest =~= full + seq!['\n'] + rest);
            lemma_split_nl_prefix(full, rest);
        },
        ItemView::UnorderedListItem { text } => {
            let full = seq!['*', ' '] + text;
            assert(!seq!['*', ' '].contains('\n'));
            lemma_no_nl_concat(seq!['*', ' '], text);
            assert(render_item(item) + rest =~= full + seq!['\n'] + rest);
            lemma_split_nl_prefix(full, rest);
        },
        ItemView::Quote { line } => {
            let full = seq!['>', ' '] + line;
            assert(!seq!['>', ' '].contains('\n'));
            lemma_no_nl_concat(seq!['>', ' '], line);
            assert(render_item(item) + rest =~= full + seq!['\n'] + rest);
            lemma_split_nl_prefix(full, rest);
        },
    }
}

/// Serialization safety: the output of a well-formed document splits at its
/// newlines into exactly the lines of its items, so no inserted string can
/// produce a line that its constructor did not intend. In particular a plain
/// text line never begins with a reserved prefix, and the inner lines of a
/// preformatted block never begin with the three backticks that would close
/// the block.
pub proof fn lemma_document_safety(items: Seq<ItemView>)
    requires
        forall|i: int| 0 <= i < items.len() ==> item_view_wf(#[trigger] items[i]),
    ensures
        split_nl(render(items)) == document_lines(items),
        forall|i: int|
            0 <= i < items.len() ==> ((#[trigger] items[i]) matches ItemView::Text { line }
                ==> !starts_reserved(line)),
        forall|i: int|
            0 <= i < items.len() ==> ((#[trigger] items[i]) matches ItemView::Preformatted {
                alt,
                lines,
            } ==> forall|k: int| 0 <= k < lines.len() ==> !starts_pre_toggle(#[trigger] lines[k])),
    decreases items.len(),
{
    if items.len() == 0 {
    } else {
        assert forall|i: int| 0 <= i < items.drop_first().len() implies item_view_wf(
            #[trigger] items.drop_first()[i],
        ) by {
            assert(items.drop_first()[i] == items[i + 1]);
        }
        lemma_document_safety(items.drop_first());
        lemma_item_render_lines(items[0], render(items.drop_first()));
    }
}

/// Serialization determinism: two documents holding the same items
/// serialize to byte-identical output. Each builder operation appends items
/// that are a function of its arguments alone, so building two documents by
/// the same sequence of operations yields the same items and hence the same
/// bytes.
pub proof fn lemma_document_determinism(a: &Document, b: &Document)
    requires
        a@ == b@,
    ensures
        render(a@) == render(b@),
{
}

} // verus!
