//! Text as lines: splitting at line ends and joining again.

use vstd::prelude::*;
use crate::scan::distance_to;
use crate::text::append_all;

verus! {

/// The texts that a vector of lines holds.
pub open spec fn texts(lines: Seq<Vec<char>>) -> Seq<Seq<char>> {
    lines.map_values(|line: Vec<char>| line@)
}

/// The line that starts at `from` and is ended by the newline at `newline`: a
/// carriage return just before the newline belongs to the line end.
pub open spec fn line_between(s: Seq<char>, from: int, newline: int) -> Seq<char> {
    if from < newline && s[newline - 1] == '\r' {
        s.subrange(from, newline - 1)
    } else {
        s.subrange(from, newline)
    }
}

/// The lines of `s` from `from` on, without their line ends. A line end is a
/// newline, alone or after a carriage return; the last line needs none.
pub open spec fn lines_from(s: Seq<char>, from: int) -> Seq<Seq<char>>
    decreases s.len() - from,
{
    if from < 0 || from >= s.len() {
        Seq::empty()
    } else {
        let newline = from + distance_to(s, from, '\n');
        if newline < s.len() {
            seq![line_between(s, from, newline)] + lines_from(s, newline + 1)
        } else {
            seq![s.subrange(from, s.len() as int)]
        }
    }
}

/// The lines of `s`, without their line ends.
pub open spec fn lines_of(s: Seq<char>) -> Seq<Seq<char>> {
    lines_from(s, 0)
}

/// The lines of `s` from `from` on, each with the newline that ends it.
pub open spec fn pieces_from(s: Seq<char>, from: int) -> Seq<Seq<char>>
    decreases s.len() - from,
{
    if from < 0 || from >= s.len() {
        Seq::empty()
    } else {
        let newline = from + distance_to(s, from, '\n');
        if newline < s.len() {
            seq![s.subrange(from, newline + 1)] + pieces_from(s, newline + 1)
        } else {
            seq![s.subrange(from, s.len() as int)]
        }
    }
}

/// The lines of `s`, each with the newline that ends it.
pub open spec fn pieces_of(s: Seq<char>) -> Seq<Seq<char>> {
    pieces_from(s, 0)
}

/// Copies `chars[from..to]` into a vector of its own.
pub fn copy_range(chars: &Vec<char>, from: usize, to: usize) -> (copy: Vec<char>)
    requires
        from <= to <= chars.len(),
    ensures
        copy@ == chars@.subrange(from as int, to as int),
{
    let mut copy: Vec<char> = Vec::new();
    let mut i: usize = from;
    while i < to
        invariant
            from <= i <= to <= chars.len(),
            copy@ == chars@.subrange(from as int, i as int),
        decreases to - i,
    {
        copy.push(chars[i]);
        i += 1;
    }
    copy
}

/// Finds the newline that ends the line starting at `from`, or the end of
/// the text.
fn line_end(chars: &Vec<char>, from: usize) -> (newline: usize)
    requires
        from <= chars.len(),
    ensures
        newline == from + distance_to(chars@, from as int, '\n'),
        from <= newline <= chars.len(),
{
    let mut i: usize = from;
    while i < chars.len() && chars[i] != '\n'
        invariant
            from <= i <= chars.len(),
            distance_to(chars@, from as int, '\n') == (i - from) + distance_to(
                chars@,
                i as int,
                '\n',
            ),
        decreases chars.len() - i,
    {
        i += 1;
    }
    i
}

/// Splits `chars` into its lines, without their line ends.
pub fn split_lines(chars: &Vec<char>) -> (lines: Vec<Vec<char>>)
    ensures
        texts(lines@) == lines_of(chars@),
{
    let len = chars.len();
    let mut lines: Vec<Vec<char>> = Vec::new();
    let mut from: usize = 0;
    assert(texts(lines@) + lines_from(chars@, 0) =~= lines_of(chars@));
    while from < len
        invariant
            len == chars.len(),
            from <= len,
            texts(lines@) + lines_from(chars@, from as int) == lines_of(chars@),
        decreases len - from,
    {
        let ghost before = texts(lines@);
        let newline = line_end(chars, from);
        if newline < len {
            let to: usize = if newline > from && chars[newline - 1] == '\r' {
                newline - 1
            } else {
                newline
            };
            let line = copy_range(chars, from, to);
            lines.push(line);
            proof {
                let rest = lines_from(chars@, newline + 1);
                let piece = seq![line_between(chars@, from as int, newline as int)];
                assert(texts(lines@) =~= before + piece);
                assert((before + piece) + rest =~= before + (piece + rest));
            }
            from = newline + 1;
        } else {
            let line = copy_range(chars, from, len);
            lines.push(line);
            proof {
                let piece = seq![chars@.subrange(from as int, len as int)];
                assert(texts(lines@) =~= before + piece);
                assert(lines_from(chars@, len as int) =~= Seq::<Seq<char>>::empty());
                assert((before + piece) + lines_from(chars@, len as int) =~= before + piece);
            }
            from = len;
        }
    }
    assert(texts(lines@) + lines_from(chars@, from as int) =~= texts(lines@));
    lines
}

/// Splits `chars` into its lines, each with the newline that ends it.
pub fn split_with_endings(chars: &Vec<char>) -> (pieces: Vec<Vec<char>>)
    ensures
        texts(pieces@) == pieces_of(chars@),
{
    let len = chars.len();
    let mut pieces: Vec<Vec<char>> = Vec::new();
    let mut from: usize = 0;
    assert(texts(pieces@) + pieces_from(chars@, 0) =~= pieces_of(chars@));
    while from < len
        invariant
            len == chars.len(),
            from <= len,
            texts(pieces@) + pieces_from(chars@, from as int) == pieces_of(chars@),
        decreases len - from,
    {
        let ghost before = texts(pieces@);
        let newline = line_end(chars, from);
        let to: usize = if newline < len { newline + 1 } else { len };
        let piece = copy_range(chars, from, to);
        pieces.push(piece);
        proof {
            let rest = pieces_from(chars@, to as int);
            let one = seq![chars@.subrange(from as int, to as int)];
            assert(texts(pieces@) =~= before + one);
            assert(pieces_from(chars@, from as int) =~= one + rest);
            assert((before + one) + rest =~= before + (one + rest));
        }
        from = to;
    }
    assert(texts(pieces@) + pieces_from(chars@, from as int) =~= texts(pieces@));
    pieces
}

/// `lines` with a newline between each two.
pub open spec fn joined(lines: Seq<Seq<char>>) -> Seq<char>
    decreases lines.len(),
{
    if lines.len() == 0 {
        Seq::empty()
    } else if lines.len() == 1 {
        lines[0]
    } else {
        joined(lines.drop_last()) + seq!['\n'] + lines.last()
    }
}

/// Joins `lines[from..to]` with a newline between each two.
pub fn join_lines(lines: &Vec<Vec<char>>, from: usize, to: usize) -> (text: Vec<char>)
    requires
        from <= to <= lines.len(),
    ensures
        text@ == joined(texts(lines@).subrange(from as int, to as int)),
{
    let ghost all = texts(lines@);
    let mut text: Vec<char> = Vec::new();
    let mut i: usize = from;
    while i < to
        invariant
            from <= i <= to <= lines.len(),
            all == texts(lines@),
            text@ == joined(all.subrange(from as int, i as int)),
        decreases to - i,
    {
        if i > from {
            text.push('\n');
        }
        append_all(&mut text, &lines[i]);
        proof {
            let longer = all.subrange(from as int, i + 1);
            assert(longer.drop_last() =~= all.subrange(from as int, i as int));
            assert(longer.last() == lines[i as int]@);
            assert(text@ =~= joined(longer));
        }
        i += 1;
    }
    text
}

} // verus!
