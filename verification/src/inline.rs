//! Inline markdown: code spans, bold, italic and links inside one line.
//!
//! The line is scanned once from left to right. At each position the
//! constructs are tried in a fixed order: a code span, a bold span, an italic
//! span, a link. One that has no closing delimiter is no construct, and its
//! opening character is plain text. The text of a bold span is itself scanned
//! for constructs; after each of them bold is switched on again.

use vstd::prelude::*;
use crate::codes::{sgr, push_sgr, RESET, BOLD, DIM, ITALIC, BLUE, CYAN};
use crate::scan::{as_index, index_of, index_of_pair, find_closing, find_double_closing};
use crate::text::{append_range, chars_of, string_of};

verus! {

/// What is written after a reset to bring back the style of the enclosing
/// span.
pub open spec fn restore(in_bold: bool) -> Seq<char> {
    if in_bold {
        sgr(1)
    } else {
        Seq::empty()
    }
}

/// Where the code span that opens at `at` closes, if one opens there.
pub open spec fn code_span(s: Seq<char>, at: int) -> Option<int> {
    if 0 <= at < s.len() && s[at] == '`' {
        index_of(s, at + 1, '`')
    } else {
        None
    }
}

/// Where the bold span that opens at `at` closes, if one opens there.
pub open spec fn bold_span(s: Seq<char>, at: int) -> Option<int> {
    if 0 <= at && at + 1 < s.len() && s[at] == '*' && s[at + 1] == '*' {
        index_of_pair(s, at + 2, '*')
    } else {
        None
    }
}

/// Where the italic span that opens at `at` closes, if one opens there.
pub open spec fn italic_span(s: Seq<char>, at: int) -> Option<int> {
    if 0 <= at && at + 1 < s.len() && s[at] == '*' && s[at + 1] != '*' {
        index_of(s, at + 1, '*')
    } else {
        None
    }
}

/// Where the text and the address of the link that opens at `at` close, if
/// one opens there.
pub open spec fn link_span(s: Seq<char>, at: int) -> Option<(int, int)> {
    if 0 <= at < s.len() && s[at] == '[' {
        match index_of(s, at + 1, ']') {
            Some(bracket) => {
                if bracket + 1 < s.len() && s[bracket + 1] == '(' {
                    match index_of(s, bracket + 2, ')') {
                        Some(paren) => Some((bracket, paren)),
                        None => None,
                    }
                } else {
                    None
                }
            },
            None => None,
        }
    } else {
        None
    }
}

/// A span as it is written: what switches its style on, its text, a reset,
/// and what brings the enclosing style back.
pub open spec fn span_text(open: Seq<char>, body: Seq<char>, in_bold: bool) -> Seq<char> {
    open + body + sgr(0) + restore(in_bold)
}

/// The rendering of `s` from `at` on, inside a bold span or not.
pub open spec fn inline_from(s: Seq<char>, at: int, in_bold: bool) -> Seq<char>
    decreases s.len(), s.len() - at,
{
    if at < 0 || at >= s.len() {
        Seq::empty()
    } else if let Some(end) = code_span(s, at) {
        span_text(sgr(2) + sgr(36), s.subrange(at + 1, end), in_bold) + inline_from(
            s,
            end + 1,
            in_bold,
        )
    } else if let Some(end) = bold_span(s, at) {
        span_text(sgr(1), inline_from(s.subrange(at + 2, end), 0, true), in_bold) + inline_from(
            s,
            end + 2,
            in_bold,
        )
    } else if let Some(end) = italic_span(s, at) {
        span_text(sgr(3), s.subrange(at + 1, end), in_bold) + inline_from(s, end + 1, in_bold)
    } else if let Some((bracket, paren)) = link_span(s, at) {
        span_text(sgr(34), s.subrange(at + 1, bracket), in_bold) + inline_from(
            s,
            paren + 1,
            in_bold,
        )
    } else {
        seq![s[at]] + inline_from(s, at + 1, in_bold)
    }
}

/// The rendering of a line of inline markdown.
pub open spec fn inline_text(s: Seq<char>) -> Seq<char> {
    inline_from(s, 0, false)
}

/// Appends a span whose text is `chars[from..to]`: `first` and, where there
/// is one, `second` switch its style on.
fn push_span(
    out: &mut Vec<char>,
    first: u8,
    second: Option<u8>,
    chars: &Vec<char>,
    from: usize,
    to: usize,
    in_bold: bool,
)
    requires
        from <= to <= chars.len(),
    ensures
        final(out)@ == old(out)@ + span_text(
            match second {
                Some(code) => sgr(first as nat) + sgr(code as nat),
                None => sgr(first as nat),
            },
            chars@.subrange(from as int, to as int),
            in_bold,
        ),
{
    push_sgr(out, first);
    if let Some(code) = second {
        push_sgr(out, code);
    }
    append_range(out, chars, from, to);
    push_sgr(out, RESET);
    if in_bold {
        push_sgr(out, BOLD);
    }
    assert(out@ =~= old(out)@ + span_text(
        match second {
            Some(code) => sgr(first as nat) + sgr(code as nat),
            None => sgr(first as nat),
        },
        chars@.subrange(from as int, to as int),
        in_bold,
    ));
}

/// Finds the link that opens at `at`.
fn find_link(chars: &Vec<char>, at: usize) -> (found: Option<(usize, usize)>)
    requires
        at < chars.len(),
    ensures
        match found {
            Some((bracket, paren)) => link_span(chars@, at as int) == Some(
                (bracket as int, paren as int),
            ),
            None => link_span(chars@, at as int) is None,
        },
{
    if chars[at] != '[' {
        return None;
    }
    match find_closing(chars, at + 1, ']') {
        Some(bracket) => {
            if chars.len() - bracket > 1 && chars[bracket + 1] == '(' {
                match find_closing(chars, bracket + 2, ')') {
                    Some(paren) => Some((bracket, paren)),
                    None => None,
                }
            } else {
                None
            }
        },
        None => None,
    }
}

/// Finds the code span that opens at `at`.
fn find_code(chars: &Vec<char>, at: usize) -> (found: Option<usize>)
    requires
        at < chars.len(),
    ensures
        as_index(found) == code_span(chars@, at as int),
{
    if chars[at] == '`' {
        find_closing(chars, at + 1, '`')
    } else {
        None
    }
}

/// Finds the bold span that opens at `at`.
fn find_bold(chars: &Vec<char>, at: usize) -> (found: Option<usize>)
    requires
        at < chars.len(),
    ensures
        as_index(found) == bold_span(chars@, at as int),
{
    if chars[at] == '*' && chars.len() - at > 1 && chars[at + 1] == '*' {
        find_double_closing(chars, at + 2, '*')
    } else {
        None
    }
}

/// Finds the italic span that opens at `at`.
fn find_italic(chars: &Vec<char>, at: usize) -> (found: Option<usize>)
    requires
        at < chars.len(),
    ensures
        as_index(found) == italic_span(chars@, at as int),
{
    if chars[at] == '*' && chars.len() - at > 1 && chars[at + 1] != '*' {
        find_closing(chars, at + 1, '*')
    } else {
        None
    }
}

/// Concatenation may be bracketed either way.
proof fn lemma_regroup(before: Seq<char>, piece: Seq<char>, rest: Seq<char>)
    ensures
        (before + piece) + rest == before + (piece + rest),
{
    assert((before + piece) + rest =~= before + (piece + rest));
}

/// Appends the rendering of `chars` to `out`.
pub fn append_inline(out: &mut Vec<char>, chars: &Vec<char>, in_bold: bool)
    ensures
        final(out)@ == old(out)@ + inline_from(chars@, 0, in_bold),
    decreases chars.len(),
{
    let len = chars.len();
    let mut i: usize = 0;
    while i < len
        invariant
            len == chars.len(),
            i <= len,
            out@ + inline_from(chars@, i as int, in_bold) == old(out)@ + inline_from(
                chars@,
                0,
                in_bold,
            ),
        decreases len - i,
    {
        let ghost before = out@;
        let ghost s = chars@;
        let ghost all = inline_from(s, i as int, in_bold);
        let next: usize;
        if let Some(end) = find_code(chars, i) {
            push_span(out, DIM, Some(CYAN), chars, i + 1, end, in_bold);
            next = end + 1;
            proof {
                let piece = span_text(sgr(2) + sgr(36), s.subrange(i + 1, end as int), in_bold);
                assert(all == piece + inline_from(s, next as int, in_bold));
                lemma_regroup(before, piece, inline_from(s, next as int, in_bold));
            }
        } else if let Some(end) = find_bold(chars, i) {
            let mut inner: Vec<char> = Vec::new();
            append_range(&mut inner, chars, i + 2, end);
            assert(inner@ =~= s.subrange(i + 2, end as int));
            push_sgr(out, BOLD);
            append_inline(out, &inner, true);
            push_sgr(out, RESET);
            if in_bold {
                push_sgr(out, BOLD);
            }
            next = end + 2;
            proof {
                let piece = span_text(sgr(1), inline_from(inner@, 0, true), in_bold);
                assert(out@ =~= before + piece);
                assert(all == piece + inline_from(s, next as int, in_bold));
                lemma_regroup(before, piece, inline_from(s, next as int, in_bold));
            }
        } else if let Some(end) = find_italic(chars, i) {
            push_span(out, ITALIC, None, chars, i + 1, end, in_bold);
            next = end + 1;
            proof {
                let piece = span_text(sgr(3), s.subrange(i + 1, end as int), in_bold);
                assert(all == piece + inline_from(s, next as int, in_bold));
                lemma_regroup(before, piece, inline_from(s, next as int, in_bold));
            }
        } else if let Some((bracket, paren)) = find_link(chars, i) {
            push_span(out, BLUE, None, chars, i + 1, bracket, in_bold);
            next = paren + 1;
            proof {
                let piece = span_text(sgr(34), s.subrange(i + 1, bracket as int), in_bold);
                assert(all == piece + inline_from(s, next as int, in_bold));
                lemma_regroup(before, piece, inline_from(s, next as int, in_bold));
            }
        } else {
            out.push(chars[i]);
            next = i + 1;
            proof {
                let piece = seq![s[i as int]];
                assert(out@ =~= before + piece);
                assert(all == piece + inline_from(s, next as int, in_bold));
                lemma_regroup(before, piece, inline_from(s, next as int, in_bold));
            }
        }
        i = next;
    }
    assert(out@ + inline_from(chars@, i as int, in_bold) =~= out@);
}

/// Renders the inline markdown of `text` as terminal text.
pub fn render_inline(text: &str) -> (rendered: String)
    ensures
        rendered@ == inline_text(text@),
{
    let chars = chars_of(text);
    let mut out: Vec<char> = Vec::new();
    append_inline(&mut out, &chars, false);
    assert(out@ =~= inline_text(text@));
    string_of(&out)
}

/// True of the characters that can open an inline construct.
pub open spec fn opens_construct(c: char) -> bool {
    c == '`' || c == '*' || c == '['
}

/// A line in which nothing can open a construct is rendered as it is.
pub proof fn lemma_plain_text_unchanged(s: Seq<char>, at: int, in_bold: bool)
    requires
        0 <= at <= s.len(),
        forall|k: int| at <= k < s.len() ==> !opens_construct(#[trigger] s[k]),
    ensures
        inline_from(s, at, in_bold) == s.subrange(at, s.len() as int),
    decreases s.len() - at,
{
    if at < s.len() {
        lemma_plain_text_unchanged(s, at + 1, in_bold);
        assert(seq![s[at]] + s.subrange(at + 1, s.len() as int) =~= s.subrange(
            at,
            s.len() as int,
        ));
    } else {
        assert(s.subrange(at, s.len() as int) =~= Seq::<char>::empty());
    }
}

} // verus!
