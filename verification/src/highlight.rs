//! Syntax highlighting, which the syntect crate does.
//!
//! What syntect computes is not stated here: each of its answers has a name,
//! and the contracts of this module say which answers the output is made of
//! and how.
//!
//! syntect asks that a syntax is used with the set that holds it, and may
//! panic otherwise. So every call is made on a `Previewer`, whose set is the
//! one that came with syntect and cannot be changed, with a syntax that was
//! found in that set and a highlighter that was made for such a syntax.

use vstd::prelude::*;
use syntect::easy::HighlightLines;
use syntect::highlighting::{Theme, ThemeSet};
use syntect::parsing::{SyntaxReference, SyntaxSet};
use crate::codes::{sgr, push_sgr, RESET};
use crate::lines::{pieces_of, split_with_endings, texts};
use crate::preview::Previewer;
use crate::text::{append_str, string_of};

verus! {

/// syntect's set of syntax definitions.
#[verifier::external_type_specification]
#[verifier::external_body]
pub struct ExSyntaxSet(syntect::parsing::SyntaxSet);

/// syntect's handle on one syntax definition of a set.
#[verifier::external_type_specification]
#[verifier::external_body]
pub struct ExSyntaxReference(syntect::parsing::SyntaxReference);

/// syntect's set of colour themes.
#[verifier::external_type_specification]
#[verifier::external_body]
pub struct ExThemeSet(syntect::highlighting::ThemeSet);

/// One of syntect's colour themes.
#[verifier::external_type_specification]
#[verifier::external_body]
pub struct ExTheme(syntect::highlighting::Theme);

/// syntect's line-by-line highlighter: it remembers the lines it was given.
#[verifier::external_type_specification]
#[verifier::external_body]
pub struct ExHighlightLines<'a>(syntect::easy::HighlightLines<'a>);

/// The syntax that `SyntaxSet::find_syntax_by_extension` finds in `set` for
/// `extension`.
pub uninterp spec fn syntax_by_extension(set: SyntaxSet, extension: Seq<char>) -> Option<
    SyntaxReference,
>;

/// The syntax that `SyntaxSet::find_syntax_by_token` finds in `set` for
/// `token`.
pub uninterp spec fn syntax_by_token(set: SyntaxSet, token: Seq<char>) -> Option<SyntaxReference>;

/// The syntax that `SyntaxSet::find_syntax_by_first_line` finds in `set` for
/// a file that starts with `line`.
pub uninterp spec fn syntax_by_first_line(set: SyntaxSet, line: Seq<char>) -> Option<
    SyntaxReference,
>;

/// The theme that `themes` holds under `name`.
pub uninterp spec fn theme_by_name(themes: ThemeSet, name: Seq<char>) -> Option<Theme>;

/// The highlighter that `HighlightLines::new` makes for `syntax` and `theme`.
pub uninterp spec fn fresh_highlighter(syntax: SyntaxReference, theme: Theme) -> HighlightLines<
    'static,
>;

/// What becomes of `highlighter` when it is given `line`, and the line as
/// terminal text in 24-bit colours, or `None` where syntect fails on it.
pub uninterp spec fn line_outcome(
    highlighter: HighlightLines<'static>,
    line: Seq<char>,
    set: SyntaxSet,
) -> (HighlightLines<'static>, Option<Seq<char>>);

/// What a reference found by a search stands for.
pub open spec fn found<T>(reference: Option<&T>) -> Option<T> {
    match reference {
        Some(value) => Some(*value),
        None => None,
    }
}

/// The characters of a text that may be missing.
pub open spec fn text_of(text: Option<String>) -> Option<Seq<char>> {
    match text {
        Some(s) => Some(s@),
        None => None,
    }
}

/// `SyntaxSet::load_defaults_newlines` of syntect: the syntax definitions
/// that come with the crate. Nothing is claimed of them.
#[verifier::external_body]
pub(crate) fn load_syntaxes() -> SyntaxSet {
    SyntaxSet::load_defaults_newlines()
}

/// `ThemeSet::load_defaults` of syntect: the themes that come with the crate.
/// Its documentation lists the keys of the map it returns; the contract
/// claims the one key that this library looks up, `base16-ocean.dark`, and
/// nothing of the theme under it.
#[verifier::external_body]
pub(crate) fn load_themes() -> (themes: ThemeSet)
    ensures
        theme_by_name(themes, "base16-ocean.dark"@) is Some,
{
    ThemeSet::load_defaults()
}

/// True of a syntax that a search in `set` has found.
pub open spec fn found_in(set: SyntaxSet, syntax: SyntaxReference) -> bool {
    ||| exists|extension: Seq<char>| #[trigger] syntax_by_extension(set, extension) == Some(syntax)
    ||| exists|token: Seq<char>| #[trigger] syntax_by_token(set, token) == Some(syntax)
    ||| exists|line: Seq<char>| #[trigger] syntax_by_first_line(set, line) == Some(syntax)
}

/// What becomes of `highlighter` when it is given the first `count` of
/// `lines`, one after the other.
pub open spec fn fed(
    highlighter: HighlightLines<'static>,
    lines: Seq<Seq<char>>,
    count: int,
    set: SyntaxSet,
) -> HighlightLines<'static>
    decreases count,
{
    if count <= 0 {
        highlighter
    } else {
        line_outcome(fed(highlighter, lines, count - 1, set), lines[count - 1], set).0
    }
}

/// True of a highlighter that was made for a syntax found in `set` and has
/// been given lines with that set only.
pub open spec fn made_in(highlighter: HighlightLines<'static>, set: SyntaxSet) -> bool {
    exists|syntax: SyntaxReference, theme: Theme, lines: Seq<Seq<char>>|
        found_in(set, syntax) && highlighter == #[trigger] fed(
            fresh_highlighter(syntax, theme),
            lines,
            lines.len() as int,
            set,
        )
}

/// `SyntaxSet::find_syntax_by_extension` of syntect, on the set of a
/// previewer. The contract only names the answer: the same set and extension
/// give the same syntax.
#[verifier::external_body]
pub(crate) fn find_by_extension<'a>(previewer: &'a Previewer, extension: &str) -> (syntax:
    Option<&'a SyntaxReference>)
    ensures
        found(syntax) == syntax_by_extension(previewer.syntaxes(), extension@),
{
    previewer.syntax_set.find_syntax_by_extension(extension)
}

/// `SyntaxSet::find_syntax_by_token` of syntect, on the set of a previewer.
/// The contract only names the answer: the same set and token give the same
/// syntax.
#[verifier::external_body]
pub(crate) fn find_by_token<'a>(previewer: &'a Previewer, token: &str) -> (syntax: Option<
    &'a SyntaxReference,
>)
    ensures
        found(syntax) == syntax_by_token(previewer.syntaxes(), token@),
{
    previewer.syntax_set.find_syntax_by_token(token)
}

/// `SyntaxSet::find_syntax_by_first_line` of syntect, on the set of a
/// previewer: the first-line patterns of that set are those that came with
/// syntect. The contract only names the answer: the same set and line give
/// the same syntax.
#[verifier::external_body]
pub(crate) fn find_by_first_line<'a>(previewer: &'a Previewer, line: &str) -> (syntax: Option<
    &'a SyntaxReference,
>)
    ensures
        found(syntax) == syntax_by_first_line(previewer.syntaxes(), line@),
{
    previewer.syntax_set.find_syntax_by_first_line(line)
}

/// Looks `name` up in the public map `themes` of syntect's `ThemeSet`, on the
/// themes of a previewer. The contract only names the answer.
#[verifier::external_body]
pub(crate) fn find_theme<'a>(previewer: &'a Previewer, name: &str) -> (theme: Option<&'a Theme>)
    ensures
        found(theme) == theme_by_name(previewer.themes(), name@),
{
    previewer.theme_set.themes.get(name)
}

/// `HighlightLines::new` of syntect, for a syntax that was found in the set
/// of `previewer`. The contract only names the answer.
#[verifier::external_body]
#[allow(unused_variables)]
pub(crate) fn new_highlighter<'a>(
    previewer: &Previewer,
    syntax: &SyntaxReference,
    theme: &'a Theme,
) -> (highlighter: HighlightLines<'a>)
    requires
        found_in(previewer.syntaxes(), *syntax),
    ensures
        highlighter == fresh_highlighter(*syntax, *theme),
{
    HighlightLines::new(syntax, theme)
}

/// `HighlightLines::highlight_line` of syntect, its coloured ranges written
/// out by syntect's `as_24_bit_terminal_escaped` (foreground only), for a
/// highlighter that was made in the set of `previewer`. The contract only
/// names the two answers, the highlighter afterwards and the text: they
/// depend on the highlighter before, the line and the set alone.
#[verifier::external_body]
pub(crate) fn highlight_line<'a>(
    highlighter: &mut HighlightLines<'a>,
    line: &str,
    previewer: &Previewer,
) -> (escaped: Option<String>)
    requires
        made_in(*old(highlighter), previewer.syntaxes()),
    ensures
        *final(highlighter) == line_outcome(*old(highlighter), line@, previewer.syntaxes()).0,
        text_of(escaped) == line_outcome(*old(highlighter), line@, previewer.syntaxes()).1,
{
    match highlighter.highlight_line(line, &previewer.syntax_set) {
        Ok(ranges) => Some(syntect::util::as_24_bit_terminal_escaped(&ranges, false)),
        Err(_) => None,
    }
}

/// A highlighted line as it is written: after `indent`; a line on which the
/// highlighter failed is left out.
pub open spec fn shown_line(indent: Seq<char>, escaped: Option<Seq<char>>) -> Seq<char> {
    match escaped {
        Some(text) => indent + text,
        None => Seq::empty(),
    }
}

/// Appends a highlighted line to `out`.
pub fn append_shown_line(out: &mut Vec<char>, indent: &str, escaped: &Option<String>)
    ensures
        final(out)@ == old(out)@ + shown_line(indent@, text_of(*escaped)),
{
    match escaped {
        Some(text) => {
            append_str(out, indent);
            append_str(out, text.as_str());
            assert(out@ =~= old(out)@ + shown_line(indent@, text_of(*escaped)));
        },
        None => {
            assert(out@ =~= old(out)@ + shown_line(indent@, text_of(*escaped)));
        },
    }
}

/// The lines `pieces[at..]`, highlighted one after the other by a highlighter
/// that has seen the lines before them.
pub open spec fn highlighted_from(
    highlighter: HighlightLines<'static>,
    pieces: Seq<Seq<char>>,
    at: int,
    set: SyntaxSet,
    indent: Seq<char>,
) -> Seq<char>
    decreases pieces.len() - at,
{
    if at < 0 || at >= pieces.len() {
        Seq::empty()
    } else {
        let outcome = line_outcome(highlighter, pieces[at], set);
        shown_line(indent, outcome.1) + highlighted_from(outcome.0, pieces, at + 1, set, indent)
    }
}

/// `text` highlighted line by line as `syntax` under `theme`, each line after
/// `indent`, with a reset at the end.
pub open spec fn highlighted_text(
    set: SyntaxSet,
    syntax: SyntaxReference,
    theme: Theme,
    text: Seq<char>,
    indent: Seq<char>,
) -> Seq<char> {
    highlighted_from(fresh_highlighter(syntax, theme), pieces_of(text), 0, set, indent) + sgr(0)
}

/// What a highlighter becomes does not depend on the lines it has not been
/// given.
proof fn lemma_fed_prefix(
    highlighter: HighlightLines<'static>,
    lines: Seq<Seq<char>>,
    count: int,
    set: SyntaxSet,
)
    requires
        0 <= count <= lines.len(),
    ensures
        fed(highlighter, lines.take(count), count, set) == fed(highlighter, lines, count, set),
    decreases count,
{
    if count > 0 {
        lemma_fed_prefix(highlighter, lines, count - 1, set);
        lemma_fed_prefix(highlighter, lines.take(count), count - 1, set);
        assert(lines.take(count).take(count - 1) =~= lines.take(count - 1));
    }
}

/// Highlights `text` line by line as `syntax` under `theme`.
pub(crate) fn highlight_text(
    previewer: &Previewer,
    syntax: &SyntaxReference,
    theme: &Theme,
    text: &Vec<char>,
    indent: &str,
) -> (out: Vec<char>)
    requires
        found_in(previewer.syntaxes(), *syntax),
    ensures
        out@ == highlighted_text(previewer.syntaxes(), *syntax, *theme, text@, indent@),
{
    let ghost set = previewer.syntaxes();
    let pieces = split_with_endings(text);
    let mut highlighter = new_highlighter(previewer, syntax, theme);
    let ghost first = highlighter;
    let mut out: Vec<char> = Vec::new();
    let mut i: usize = 0;
    assert(out@ + highlighted_from(highlighter, texts(pieces@), 0, set, indent@)
        =~= highlighted_from(first, texts(pieces@), 0, set, indent@));
    while i < pieces.len()
        invariant
            i <= pieces.len(),
            set == previewer.syntaxes(),
            found_in(set, *syntax),
            first == fresh_highlighter(*syntax, *theme),
            highlighter == fed(first, texts(pieces@), i as int, set),
            out@ + highlighted_from(highlighter, texts(pieces@), i as int, set, indent@)
                == highlighted_from(first, texts(pieces@), 0, set, indent@),
        decreases pieces.len() - i,
    {
        let ghost before = out@;
        let ghost seen = highlighter;
        let line = string_of(&pieces[i]);
        proof {
            lemma_fed_prefix(first, texts(pieces@), i as int, set);
            let given = texts(pieces@).take(i as int);
            assert(seen == fed(fresh_highlighter(*syntax, *theme), given, given.len() as int, set));
            assert(made_in(seen, set));
        }
        let escaped = highlight_line(&mut highlighter, line.as_str(), previewer);
        append_shown_line(&mut out, indent, &escaped);
        proof {
            assert(texts(pieces@)[i as int] == line@);
            let piece = shown_line(indent@, text_of(escaped));
            let rest = highlighted_from(highlighter, texts(pieces@), i + 1, set, indent@);
            assert(highlighted_from(seen, texts(pieces@), i as int, set, indent@) == piece
                + rest);
            assert((before + piece) + rest =~= before + (piece + rest));
        }
        i += 1;
    }
    assert(out@ + highlighted_from(highlighter, texts(pieces@), i as int, set, indent@)
        =~= out@);
    push_sgr(&mut out, RESET);
    out
}

} // verus!
