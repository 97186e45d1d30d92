//! Markdown as terminal text, one block at a time.
//!
//! A line that starts with three backticks opens a fenced code block, which
//! runs to the next such line; its lines are highlighted as the language that
//! the opening line names, or dimmed where that names no syntax. Every other
//! line is a block by itself: a heading, a horizontal rule, a bulleted or
//! numbered item, a quotation or plain text, tried in this order. So three
//! dashes with spaces between are a rule, not an item.

use vstd::prelude::*;
use syntect::highlighting::ThemeSet;
use syntect::parsing::{SyntaxReference, SyntaxSet};
use crate::codes::{sgr, push_sgr, RESET, BOLD, DIM, BLUE, CYAN, GREEN, MAGENTA, YELLOW};
use crate::highlight::{
    find_by_extension,
    find_by_token,
    find_theme,
    found,
    found_in,
    highlight_text,
    highlighted_text,
    syntax_by_extension,
    syntax_by_token,
    theme_by_name,
};
use crate::preview::Previewer;
use crate::inline::{append_inline, inline_text};
use crate::lines::{copy_range, join_lines, joined, lines_of, split_lines, texts};
use crate::scan::{
    count_digits,
    count_run,
    count_spaces,
    count_spaces_before,
    digits_at,
    run_of,
    spaces_at,
    spaces_before,
};
use crate::text::{append_all, append_padding, append_range, chars_of, padding, string_of};

verus! {

/// The characters of an optional text.
pub open spec fn chars_in(text: Option<Vec<char>>) -> Option<Seq<char>> {
    match text {
        Some(chars) => Some(chars@),
        None => None,
    }
}

/// True of a line that opens or closes a fenced code block.
pub open spec fn opens_fence(line: Seq<char>) -> bool {
    run_of(line, 0, '`') >= 3
}

/// Where the language token of a fence line starts: after the backticks and
/// the white space that follows them.
pub open spec fn language_start(line: Seq<char>) -> int {
    (run_of(line, 0, '`') + spaces_at(line, run_of(line, 0, '`') as int)) as int
}

/// The language token of a fence line: what follows the backticks, without
/// the white space around it.
pub open spec fn fence_language(line: Seq<char>) -> Seq<char> {
    let from = language_start(line);
    line.subrange(from, line.len() - spaces_before(line, from, line.len() as int))
}

/// The level of the heading that `line` is, from 1 to 6, or 0 where it is
/// none: as many `#` as the level, then a space.
pub open spec fn heading_level(line: Seq<char>) -> nat {
    let hashes = run_of(line, 0, '#');
    if 1 <= hashes <= 6 && hashes < line.len() && line[hashes as int] == ' ' {
        hashes
    } else {
        0
    }
}

/// Where the text of a heading starts: after the one space for the levels 1
/// to 3, after all white space for the levels 4 to 6.
pub open spec fn heading_start(line: Seq<char>) -> int {
    let hashes = run_of(line, 0, '#');
    if hashes <= 3 {
        (hashes + 1) as int
    } else {
        (hashes + spaces_at(line, hashes as int)) as int
    }
}

/// The colour code of a heading: one for each of the levels 1 to 3, a fourth
/// for the others.
pub open spec fn heading_color(level: nat) -> nat {
    if level == 1 {
        36
    } else if level == 2 {
        32
    } else if level == 3 {
        33
    } else {
        35
    }
}

/// A heading as it is written: bold, in the colour of its level.
pub open spec fn heading_line(line: Seq<char>) -> Seq<char> {
    sgr(1) + sgr(heading_color(heading_level(line))) + line.subrange(
        heading_start(line),
        line.len() as int,
    ) + sgr(0) + seq!['\n']
}

/// True of the three characters a horizontal rule is drawn with.
pub open spec fn is_rule_char(c: char) -> bool {
    c == '-' || c == '*' || c == '_'
}

/// How many of the first `count` characters of `line` are `mark`.
pub open spec fn marks_in(line: Seq<char>, mark: char, count: int) -> nat
    decreases count,
{
    if count <= 0 {
        0
    } else {
        marks_in(line, mark, count - 1) + if line[count - 1] == mark {
            1nat
        } else {
            0nat
        }
    }
}

/// True of a horizontal rule: a line that starts with a rule character, holds
/// that character three times or more, and nothing else but spaces.
pub open spec fn is_rule(line: Seq<char>) -> bool {
    &&& line.len() > 0
    &&& is_rule_char(line[0])
    &&& forall|k: int| 0 <= k < line.len() ==> #[trigger] line[k] == line[0] || line[k] == ' '
    &&& marks_in(line, line[0], line.len() as int) >= 3
}

/// The divider that stands for a horizontal rule: 32 box-drawing dashes.
pub open spec fn divider() -> Seq<char> {
    Seq::new(32, |i: int| '\u{2500}')
}

/// A horizontal rule as it is written: a dimmed divider.
pub open spec fn rule_line() -> Seq<char> {
    sgr(2) + divider() + sgr(0) + seq!['\n']
}

/// The indent level of a list item: half the number of white-space characters
/// it starts with.
pub open spec fn indent_level(line: Seq<char>) -> nat {
    spaces_at(line, 0) / 2
}

/// Where the text of a bulleted item starts, if `line` is one: after its
/// leading white space stand `-` or `*` and a space.
pub open spec fn bullet_start(line: Seq<char>) -> Option<int> {
    let lead = spaces_at(line, 0) as int;
    if lead + 1 < line.len() && (line[lead] == '-' || line[lead] == '*') && line[lead + 1]
        == ' ' {
        Some(lead + 2)
    } else {
        None
    }
}

/// Where the text of a numbered item starts, if `line` is one: after its
/// leading white space stand digits, `.` or `)`, and a space; the text starts
/// after all white space behind the mark.
pub open spec fn numbered_start(line: Seq<char>) -> Option<int> {
    let lead = spaces_at(line, 0) as int;
    let digits = digits_at(line, lead);
    let mark = lead + digits;
    if digits > 0 && mark + 1 < line.len() && (line[mark] == '.' || line[mark] == ')')
        && line[mark + 1] == ' ' {
        Some(mark + 1 + spaces_at(line, mark + 1))
    } else {
        None
    }
}

/// True of a quotation: a line that starts with `>` and a space.
pub open spec fn is_quote(line: Seq<char>) -> bool {
    line.len() >= 2 && line[0] == '>' && line[1] == ' '
}

/// A bulleted item as it is written: indented, after a blue bullet.
pub open spec fn bullet_line(line: Seq<char>, start: int) -> Seq<char> {
    padding(indent_level(line) + 1) + sgr(34) + seq!['\u{2022}'] + sgr(0) + seq![' ']
        + inline_text(line.subrange(start, line.len() as int)) + seq!['\n']
}

/// A numbered item as it is written: indented, without its number.
pub open spec fn numbered_line(line: Seq<char>, start: int) -> Seq<char> {
    padding(indent_level(line) + 1) + inline_text(line.subrange(start, line.len() as int))
        + seq!['\n']
}

/// A quotation as it is written: after a dimmed vertical bar.
pub open spec fn quote_line(line: Seq<char>) -> Seq<char> {
    seq![' ', ' '] + sgr(2) + seq!['\u{2502}'] + sgr(0) + seq![' '] + inline_text(
        line.subrange(2, line.len() as int),
    ) + seq!['\n']
}

/// A line of plain text as it is written.
pub open spec fn plain_line(line: Seq<char>) -> Seq<char> {
    inline_text(line) + seq!['\n']
}

/// A line outside a fenced code block as it is written.
pub open spec fn line_text(line: Seq<char>) -> Seq<char> {
    if heading_level(line) > 0 {
        heading_line(line)
    } else if is_rule(line) {
        rule_line()
    } else if let Some(start) = bullet_start(line) {
        bullet_line(line, start)
    } else if let Some(start) = numbered_start(line) {
        numbered_line(line, start)
    } else if is_quote(line) {
        quote_line(line)
    } else {
        plain_line(line)
    }
}

/// How many of `lines` from `from` on stand before the next fence line.
pub open spec fn fence_len(lines: Seq<Seq<char>>, from: int) -> nat
    decreases lines.len() - from,
{
    if 0 <= from < lines.len() && !opens_fence(lines[from]) {
        1 + fence_len(lines, from + 1)
    } else {
        0
    }
}

/// The first `count` lines of a code block, each indented and dimmed.
pub open spec fn dimmed_lines(body: Seq<Seq<char>>, count: int) -> Seq<char>
    decreases count,
{
    if count <= 0 {
        Seq::empty()
    } else {
        dimmed_lines(body, count - 1) + seq![' ', ' '] + sgr(2) + body[count - 1] + sgr(0)
            + seq!['\n']
    }
}

/// A fenced code block as it is written: its highlighted text where there is
/// one, else its lines dimmed; then an empty line.
pub open spec fn fence_text(body: Seq<Seq<char>>, highlighted: Option<Seq<char>>) -> Seq<char> {
    (match highlighted {
        Some(text) => text,
        None => dimmed_lines(body, body.len() as int),
    }) + seq!['\n']
}

/// The syntax that a language token names: none for the empty token, else
/// what the set finds for it as a token or, failing that, as an extension.
pub open spec fn fence_syntax(set: SyntaxSet, language: Seq<char>) -> Option<SyntaxReference> {
    if language.len() == 0 {
        None
    } else {
        match syntax_by_token(set, language) {
            Some(syntax) => Some(syntax),
            None => syntax_by_extension(set, language),
        }
    }
}

/// The highlighted text of a code block, where its language names a syntax
/// and the set of themes holds the theme: the lines of the block, joined and
/// ended by a newline, highlighted behind an indent of two spaces.
pub open spec fn fence_highlight(
    set: SyntaxSet,
    themes: ThemeSet,
    language: Seq<char>,
    body: Seq<Seq<char>>,
) -> Option<Seq<char>> {
    match (fence_syntax(set, language), theme_by_name(themes, "base16-ocean.dark"@)) {
        (Some(syntax), Some(theme)) => Some(
            highlighted_text(
                set,
                syntax,
                theme,
                joined(body) + seq!['\n'],
                "  "@,
            ),
        ),
        _ => None,
    }
}

/// The lines `lines[at..]` of a markdown text as they are written.
pub open spec fn markdown_from(set: SyntaxSet, themes: ThemeSet, lines: Seq<Seq<char>>, at: int)
    -> Seq<char>
    decreases lines.len() - at,
{
    if at < 0 || at >= lines.len() {
        Seq::empty()
    } else if opens_fence(lines[at]) {
        let close = at + 1 + fence_len(lines, at + 1);
        let body = lines.subrange(at + 1, close);
        let next = if close < lines.len() {
            close + 1
        } else {
            lines.len() as int
        };
        fence_text(body, fence_highlight(set, themes, fence_language(lines[at]), body))
            + markdown_from(set, themes, lines, next)
    } else {
        line_text(lines[at]) + markdown_from(set, themes, lines, at + 1)
    }
}

/// A markdown text as terminal text.
pub open spec fn markdown_text(set: SyntaxSet, themes: ThemeSet, input: Seq<char>) -> Seq<char> {
    markdown_from(set, themes, lines_of(input), 0)
}

/// Tells whether `line` opens or closes a fenced code block.
pub fn is_fence(line: &Vec<char>) -> (b: bool)
    ensures
        b == opens_fence(line@),
{
    count_run(line, 0, '`') >= 3
}

/// The language token of a fence line.
pub fn language_of(line: &Vec<char>) -> (language: Vec<char>)
    ensures
        language@ == fence_language(line@),
{
    let ticks = count_run(line, 0, '`');
    let from = ticks + count_spaces(line, ticks);
    let to = line.len() - count_spaces_before(line, from, line.len());
    copy_range(line, from, to)
}

/// The level of the heading that `line` is, or 0.
pub fn heading_level_of(line: &Vec<char>) -> (level: usize)
    ensures
        level == heading_level(line@),
{
    let hashes = count_run(line, 0, '#');
    if 1 <= hashes && hashes <= 6 && hashes < line.len() && line[hashes] == ' ' {
        hashes
    } else {
        0
    }
}

/// Appends a heading.
fn append_heading(out: &mut Vec<char>, line: &Vec<char>, level: usize)
    requires
        level == heading_level(line@),
        level > 0,
    ensures
        final(out)@ == old(out)@ + heading_line(line@),
{
    let color: u8 = if level == 1 {
        CYAN
    } else if level == 2 {
        GREEN
    } else if level == 3 {
        YELLOW
    } else {
        MAGENTA
    };
    let start: usize = if level <= 3 {
        level + 1
    } else {
        level + count_spaces(line, level)
    };
    push_sgr(out, BOLD);
    push_sgr(out, color);
    append_range(out, line, start, line.len());
    push_sgr(out, RESET);
    out.push('\n');
    assert(out@ =~= old(out)@ + heading_line(line@));
}

/// Tells whether `line` is a horizontal rule.
pub fn is_rule_line(line: &Vec<char>) -> (b: bool)
    ensures
        b == is_rule(line@),
{
    let len = line.len();
    if len == 0 {
        return false;
    }
    let mark = line[0];
    if !(mark == '-' || mark == '*' || mark == '_') {
        return false;
    }
    let mut marks: usize = 0;
    let mut i: usize = 0;
    while i < len
        invariant
            len == line.len(),
            i <= len,
            mark == line@[0],
            marks <= i,
            marks == marks_in(line@, mark, i as int),
            forall|k: int| 0 <= k < i ==> #[trigger] line@[k] == mark || line@[k] == ' ',
        decreases len - i,
    {
        let c = line[i];
        if c == mark {
            marks += 1;
        } else if c != ' ' {
            return false;
        }
        i += 1;
    }
    marks >= 3
}

/// Appends a horizontal rule.
fn append_rule(out: &mut Vec<char>)
    ensures
        final(out)@ == old(out)@ + rule_line(),
{
    push_sgr(out, DIM);
    let ghost start = out@;
    let mut i: usize = 0;
    while i < 32
        invariant
            i <= 32,
            out@ == start + Seq::new(i as nat, |k: int| '\u{2500}'),
        decreases 32 - i,
    {
        out.push('\u{2500}');
        i += 1;
        assert(out@ =~= start + Seq::new(i as nat, |k: int| '\u{2500}'));
    }
    push_sgr(out, RESET);
    out.push('\n');
    assert(out@ =~= old(out)@ + rule_line());
}

/// The indent level of the bulleted item `line` and where its text starts,
/// if it is one.
pub fn strip_bullet_prefix(line: &Vec<char>) -> (item: Option<(usize, usize)>)
    ensures
        match item {
            Some((level, start)) => level == indent_level(line@) && bullet_start(line@) == Some(
                start as int,
            ) && start <= line.len(),
            None => bullet_start(line@) is None,
        },
{
    let lead = count_spaces(line, 0);
    if line.len() - lead > 1 && (line[lead] == '-' || line[lead] == '*') && line[lead + 1]
        == ' ' {
        Some((lead / 2, lead + 2))
    } else {
        None
    }
}

/// The indent level of the numbered item `line` and where its text starts,
/// if it is one.
pub fn strip_numbered_prefix(line: &Vec<char>) -> (item: Option<(usize, usize)>)
    ensures
        match item {
            Some((level, start)) => level == indent_level(line@) && numbered_start(line@)
                == Some(start as int) && start <= line.len(),
            None => numbered_start(line@) is None,
        },
{
    let lead = count_spaces(line, 0);
    let digits = count_digits(line, lead);
    let mark = lead + digits;
    if digits > 0 && line.len() - mark > 1 && (line[mark] == '.' || line[mark] == ')')
        && line[mark + 1] == ' ' {
        Some((lead / 2, mark + 1 + count_spaces(line, mark + 1)))
    } else {
        None
    }
}

/// Appends the inline rendering of `line[start..]`.
fn append_inline_from(out: &mut Vec<char>, line: &Vec<char>, start: usize)
    requires
        start <= line.len(),
    ensures
        final(out)@ == old(out)@ + inline_text(line@.subrange(start as int, line.len() as int)),
{
    let text = copy_range(line, start, line.len());
    append_inline(out, &text, false);
}

/// Appends a bulleted item.
fn append_bullet(out: &mut Vec<char>, line: &Vec<char>, level: usize, start: usize)
    requires
        bullet_start(line@) == Some(start as int),
        level == indent_level(line@),
        start <= line.len(),
    ensures
        final(out)@ == old(out)@ + bullet_line(line@, start as int),
{
    append_padding(out, level + 1);
    push_sgr(out, BLUE);
    out.push('\u{2022}');
    push_sgr(out, RESET);
    out.push(' ');
    append_inline_from(out, line, start);
    out.push('\n');
    assert(out@ =~= old(out)@ + bullet_line(line@, start as int));
}

/// Appends a numbered item.
fn append_numbered(out: &mut Vec<char>, line: &Vec<char>, level: usize, start: usize)
    requires
        numbered_start(line@) == Some(start as int),
        level == indent_level(line@),
        start <= line.len(),
    ensures
        final(out)@ == old(out)@ + numbered_line(line@, start as int),
{
    append_padding(out, level + 1);
    append_inline_from(out, line, start);
    out.push('\n');
    assert(out@ =~= old(out)@ + numbered_line(line@, start as int));
}

/// Appends a quotation.
fn append_quote(out: &mut Vec<char>, line: &Vec<char>)
    requires
        is_quote(line@),
    ensures
        final(out)@ == old(out)@ + quote_line(line@),
{
    out.push(' ');
    out.push(' ');
    push_sgr(out, DIM);
    out.push('\u{2502}');
    push_sgr(out, RESET);
    out.push(' ');
    append_inline_from(out, line, 2);
    out.push('\n');
    assert(out@ =~= old(out)@ + quote_line(line@));
}

/// Appends a line that stands outside a fenced code block.
pub fn append_line(out: &mut Vec<char>, line: &Vec<char>)
    ensures
        final(out)@ == old(out)@ + line_text(line@),
{
    let level = heading_level_of(line);
    if level > 0 {
        append_heading(out, line, level);
        return;
    }
    if is_rule_line(line) {
        append_rule(out);
        return;
    }
    if let Some((level, start)) = strip_bullet_prefix(line) {
        append_bullet(out, line, level, start);
        return;
    }
    if let Some((level, start)) = strip_numbered_prefix(line) {
        append_numbered(out, line, level, start);
        return;
    }
    if line.len() >= 2 && line[0] == '>' && line[1] == ' ' {
        append_quote(out, line);
        return;
    }
    append_inline(out, line, false);
    out.push('\n');
    assert(out@ =~= old(out)@ + plain_line(line@));
}

/// Appends a fenced code block whose lines are `lines[from..to]`:
/// `highlighted` where it is there, else the lines dimmed.
pub fn append_fence(
    out: &mut Vec<char>,
    lines: &Vec<Vec<char>>,
    from: usize,
    to: usize,
    highlighted: &Option<Vec<char>>,
)
    requires
        from <= to <= lines.len(),
    ensures
        final(out)@ == old(out)@ + fence_text(
            texts(lines@).subrange(from as int, to as int),
            chars_in(*highlighted),
        ),
{
    let ghost body = texts(lines@).subrange(from as int, to as int);
    match highlighted {
        Some(text) => {
            append_all(out, text);
        },
        None => {
            let mut i: usize = from;
            while i < to
                invariant
                    from <= i <= to <= lines.len(),
                    body == texts(lines@).subrange(from as int, to as int),
                    out@ == old(out)@ + dimmed_lines(body, i - from),
                decreases to - i,
            {
                out.push(' ');
                out.push(' ');
                push_sgr(out, DIM);
                append_all(out, &lines[i]);
                push_sgr(out, RESET);
                out.push('\n');
                proof {
                    assert(body[i - from] == lines[i as int]@);
                    assert(out@ =~= old(out)@ + dimmed_lines(body, i + 1 - from));
                }
                i += 1;
            }
        },
    }
    out.push('\n');
    assert(out@ =~= old(out)@ + fence_text(body, chars_in(*highlighted)));
}

/// Finds the syntax that a language token names.
pub(crate) fn find_fence_syntax<'a>(previewer: &'a Previewer, language: &Vec<char>) -> (syntax:
    Option<&'a SyntaxReference>)
    ensures
        found(syntax) == fence_syntax(previewer.syntaxes(), language@),
        syntax matches Some(s) ==> found_in(previewer.syntaxes(), *s),
{
    if language.len() == 0 {
        return None;
    }
    let token = string_of(language);
    match find_by_token(previewer, token.as_str()) {
        Some(syntax) => Some(syntax),
        None => find_by_extension(previewer, token.as_str()),
    }
}

/// Highlights the code block `lines[from..to]` as `language`, where that
/// names a syntax.
pub fn highlight_fence(
    previewer: &Previewer,
    language: &Vec<char>,
    lines: &Vec<Vec<char>>,
    from: usize,
    to: usize,
) -> (highlighted: Option<Vec<char>>)
    requires
        from <= to <= lines.len(),
    ensures
        chars_in(highlighted) == fence_highlight(
            previewer.syntaxes(),
            previewer.themes(),
            language@,
            texts(lines@).subrange(from as int, to as int),
        ),
{
    let ghost body = texts(lines@).subrange(from as int, to as int);
    let syntax = find_fence_syntax(previewer, language);
    let theme = find_theme(previewer, "base16-ocean.dark");
    match (syntax, theme) {
        (Some(syntax), Some(theme)) => {
            let mut code = join_lines(lines, from, to);
            code.push('\n');
            assert(code@ =~= joined(body) + seq!['\n']);
            Some(highlight_text(previewer, syntax, theme, &code, "  "))
        },
        _ => None,
    }
}

/// Counts the lines from `from` on that stand before the next fence line.
fn count_fence(lines: &Vec<Vec<char>>, from: usize) -> (n: usize)
    requires
        from <= lines.len(),
    ensures
        n == fence_len(texts(lines@), from as int),
        from + n <= lines.len(),
{
    let mut i: usize = from;
    while i < lines.len() && !is_fence(&lines[i])
        invariant
            from <= i <= lines.len(),
            fence_len(texts(lines@), from as int) == (i - from) + fence_len(
                texts(lines@),
                i as int,
            ),
        decreases lines.len() - i,
    {
        i += 1;
    }
    i - from
}

/// Renders markdown as terminal text: `previewer` highlights its fenced code
/// blocks.
pub fn render_markdown(previewer: &Previewer, input: &str) -> (rendered: String)
    ensures
        rendered@ == markdown_text(previewer.syntaxes(), previewer.themes(), input@),
{
    let chars = chars_of(input);
    let out = render_markdown_chars(previewer, &chars);
    string_of(&out)
}

/// Renders the markdown `input` as terminal text.
pub fn render_markdown_chars(previewer: &Previewer, input: &Vec<char>) -> (rendered: Vec<char>)
    ensures
        rendered@ == markdown_text(previewer.syntaxes(), previewer.themes(), input@),
{
    let ghost set = previewer.syntaxes();
    let ghost themes = previewer.themes();
    let lines = split_lines(input);
    let ghost all = texts(lines@);
    let mut out: Vec<char> = Vec::new();
    let mut i: usize = 0;
    assert(out@ + markdown_from(set, themes, all, 0) =~= markdown_text(set, themes, input@));
    while i < lines.len()
        invariant
            i <= lines.len(),
            all == texts(lines@),
            set == previewer.syntaxes(),
            themes == previewer.themes(),
            out@ + markdown_from(set, themes, all, i as int) == markdown_text(set, themes, input@),
        decreases lines.len() - i,
    {
        let ghost before = out@;
        let ghost here = markdown_from(set, themes, all, i as int);
        assert(all[i as int] == lines[i as int]@);
        if is_fence(&lines[i]) {
            let close = i + 1 + count_fence(&lines, i + 1);
            let language = language_of(&lines[i]);
            let highlighted = highlight_fence(previewer, &language, &lines, i + 1, close);
            append_fence(&mut out, &lines, i + 1, close, &highlighted);
            let next: usize = if close < lines.len() { close + 1 } else { lines.len() };
            proof {
                let body = all.subrange(i + 1, close as int);
                let piece = fence_text(body, chars_in(highlighted));
                let rest = markdown_from(set, themes, all, next as int);
                assert(here == piece + rest);
                assert((before + piece) + rest =~= before + (piece + rest));
            }
            i = next;
        } else {
            append_line(&mut out, &lines[i]);
            proof {
                let piece = line_text(all[i as int]);
                let rest = markdown_from(set, themes, all, i + 1);
                assert(here == piece + rest);
                assert((before + piece) + rest =~= before + (piece + rest));
            }
            i += 1;
        }
    }
    assert(out@ + markdown_from(set, themes, all, i as int) =~= out@);
    out
}

} // verus!
