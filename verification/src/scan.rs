//! Searching and measuring inside a line of characters.

use vstd::prelude::*;

verus! {

/// An index found by a search, as a mathematical integer.
pub open spec fn as_index(found: Option<usize>) -> Option<int> {
    match found {
        Some(at) => Some(at as int),
        None => None,
    }
}

/// How many characters stand in `s` from `from` on before the first `target`,
/// or before the end where there is none.
pub open spec fn distance_to(s: Seq<char>, from: int, target: char) -> nat
    decreases s.len() - from,
{
    if 0 <= from < s.len() && s[from] != target {
        1 + distance_to(s, from + 1, target)
    } else {
        0
    }
}

/// The index of the first `target` at or after `from`.
pub open spec fn index_of(s: Seq<char>, from: int, target: char) -> Option<int> {
    let at = from + distance_to(s, from, target);
    if 0 <= from && at < s.len() {
        Some(at)
    } else {
        None
    }
}

/// `index_of` finds the first occurrence, and finds none only where there is
/// none.
pub proof fn lemma_index_of(s: Seq<char>, from: int, target: char)
    requires
        0 <= from,
    ensures
        match index_of(s, from, target) {
            Some(at) => from <= at < s.len() && s[at] == target && forall|k: int|
                from <= k < at ==> s[k] != target,
            None => forall|k: int| from <= k < s.len() ==> s[k] != target,
        },
    decreases s.len() - from,
{
    if from < s.len() && s[from] != target {
        lemma_index_of(s, from + 1, target);
    }
}

/// Finds the first `target` in `chars` at or after `start`.
pub fn find_closing(chars: &Vec<char>, start: usize, target: char) -> (found: Option<usize>)
    ensures
        as_index(found) == index_of(chars@, start as int, target),
{
    let mut i: usize = start;
    while i < chars.len()
        invariant
            start <= i,
            distance_to(chars@, start as int, target) == (i - start) + distance_to(
                chars@,
                i as int,
                target,
            ),
        decreases chars.len() - i,
    {
        if chars[i] == target {
            return Some(i);
        }
        i += 1;
    }
    None
}

/// How many positions stand in `s` from `from` on before the first one at
/// which `target` stands twice in a row.
pub open spec fn distance_to_pair(s: Seq<char>, from: int, target: char) -> nat
    decreases s.len() - from,
{
    if 0 <= from && from + 1 < s.len() && !(s[from] == target && s[from + 1] == target) {
        1 + distance_to_pair(s, from + 1, target)
    } else {
        0
    }
}

/// The index of the first doubled `target` at or after `from`.
pub open spec fn index_of_pair(s: Seq<char>, from: int, target: char) -> Option<int> {
    let at = from + distance_to_pair(s, from, target);
    if 0 <= from && at + 1 < s.len() {
        Some(at)
    } else {
        None
    }
}

/// `index_of_pair` finds the first doubled occurrence, and finds none only
/// where there is none.
pub proof fn lemma_index_of_pair(s: Seq<char>, from: int, target: char)
    requires
        0 <= from,
    ensures
        match index_of_pair(s, from, target) {
            Some(at) => from <= at && at + 1 < s.len() && s[at] == target && s[at + 1] == target
                && forall|k: int|
                    from <= k < at ==> !(#[trigger] s[k] == target && s[k + 1] == target),
            None => forall|k: int|
                from <= k && k + 1 < s.len() ==> !(#[trigger] s[k] == target && s[k + 1]
                    == target),
        },
    decreases s.len() - from,
{
    if from + 1 < s.len() && !(s[from] == target && s[from + 1] == target) {
        lemma_index_of_pair(s, from + 1, target);
    }
}

/// Finds the first place in `chars` at or after `start` where `target` stands
/// twice in a row.
pub fn find_double_closing(chars: &Vec<char>, start: usize, target: char) -> (found: Option<
    usize,
>)
    ensures
        as_index(found) == index_of_pair(chars@, start as int, target),
{
    let len = chars.len();
    let mut i: usize = start;
    while i < len && len - i > 1
        invariant
            len == chars.len(),
            start <= i,
            distance_to_pair(chars@, start as int, target) == (i - start) + distance_to_pair(
                chars@,
                i as int,
                target,
            ),
        decreases len - i,
    {
        if chars[i] == target && chars[i + 1] == target {
            return Some(i);
        }
        i += 1;
    }
    None
}

/// How many times in a row `c` stands in `s` from `from` on.
pub open spec fn run_of(s: Seq<char>, from: int, c: char) -> nat
    decreases s.len() - from,
{
    if 0 <= from < s.len() && s[from] == c {
        1 + run_of(s, from + 1, c)
    } else {
        0
    }
}

/// Counts how many times in a row `c` stands in `chars` from `from` on.
pub fn count_run(chars: &Vec<char>, from: usize, c: char) -> (n: usize)
    requires
        from <= chars.len(),
    ensures
        n == run_of(chars@, from as int, c),
        from + n <= chars.len(),
{
    let mut i: usize = from;
    while i < chars.len() && chars[i] == c
        invariant
            from <= i <= chars.len(),
            run_of(chars@, from as int, c) == (i - from) + run_of(chars@, i as int, c),
        decreases chars.len() - i,
    {
        i += 1;
    }
    i - from
}

/// How many decimal digits stand in a row in `s` from `from` on.
pub open spec fn digits_at(s: Seq<char>, from: int) -> nat
    decreases s.len() - from,
{
    if 0 <= from < s.len() && '0' <= s[from] <= '9' {
        1 + digits_at(s, from + 1)
    } else {
        0
    }
}

/// Counts the decimal digits in a row in `chars` from `from` on.
pub fn count_digits(chars: &Vec<char>, from: usize) -> (n: usize)
    requires
        from <= chars.len(),
    ensures
        n == digits_at(chars@, from as int),
        from + n <= chars.len(),
{
    let mut i: usize = from;
    while i < chars.len() && chars[i] >= '0' && chars[i] <= '9'
        invariant
            from <= i <= chars.len(),
            digits_at(chars@, from as int) == (i - from) + digits_at(chars@, i as int),
        decreases chars.len() - i,
    {
        i += 1;
    }
    i - from
}

/// True of the characters that Unicode counts as white space.
pub open spec fn is_space(c: char) -> bool {
    let u = c as u32;
    (0x09 <= u <= 0x0D) || u == 0x20 || u == 0x85 || u == 0xA0 || u == 0x1680 || (0x2000 <= u
        <= 0x200A) || u == 0x2028 || u == 0x2029 || u == 0x202F || u == 0x205F || u == 0x3000
}

/// Tells whether `c` is white space.
pub fn is_whitespace(c: char) -> (b: bool)
    ensures
        b == is_space(c),
{
    let u: u32 = c as u32;
    (0x09 <= u && u <= 0x0D) || u == 0x20 || u == 0x85 || u == 0xA0 || u == 0x1680 || (0x2000 <= u
        && u <= 0x200A) || u == 0x2028 || u == 0x2029 || u == 0x202F || u == 0x205F || u == 0x3000
}

/// How many white-space characters stand in a row in `s` from `from` on.
pub open spec fn spaces_at(s: Seq<char>, from: int) -> nat
    decreases s.len() - from,
{
    if 0 <= from < s.len() && is_space(s[from]) {
        1 + spaces_at(s, from + 1)
    } else {
        0
    }
}

/// Counts the white-space characters in a row in `chars` from `from` on.
pub fn count_spaces(chars: &Vec<char>, from: usize) -> (n: usize)
    requires
        from <= chars.len(),
    ensures
        n == spaces_at(chars@, from as int),
        from + n <= chars.len(),
{
    let mut i: usize = from;
    while i < chars.len() && is_whitespace(chars[i])
        invariant
            from <= i <= chars.len(),
            spaces_at(chars@, from as int) == (i - from) + spaces_at(chars@, i as int),
        decreases chars.len() - i,
    {
        i += 1;
    }
    i - from
}

/// How many white-space characters stand in a row at the end of
/// `s[from..to]`.
pub open spec fn spaces_before(s: Seq<char>, from: int, to: int) -> nat
    decreases to - from,
{
    if 0 <= from < to <= s.len() && is_space(s[to - 1]) {
        1 + spaces_before(s, from, to - 1)
    } else {
        0
    }
}

/// Counts the white-space characters in a row at the end of `chars[from..to]`.
pub fn count_spaces_before(chars: &Vec<char>, from: usize, to: usize) -> (n: usize)
    requires
        from <= to <= chars.len(),
    ensures
        n == spaces_before(chars@, from as int, to as int),
        from + n <= to,
{
    let mut i: usize = to;
    while i > from && is_whitespace(chars[i - 1])
        invariant
            from <= i <= to <= chars.len(),
            spaces_before(chars@, from as int, to as int) == (to - i) + spaces_before(
                chars@,
                from as int,
                i as int,
            ),
        decreases i - from,
    {
        i -= 1;
    }
    to - i
}

} // verus!
