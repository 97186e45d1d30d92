//! An interpreter for the SGR escape sequences embedded in terminal text.
//!
//! A line is scanned once from left to right. `ESC [` opens a control
//! sequence; its body is made of digits and `;`; the character after the body
//! closes it. A sequence closed by `m` changes the current style, any other
//! sequence is dropped. Everything outside sequences is text, handed out in
//! runs together with the style that was current when the run ended.

use vstd::prelude::*;
use crate::style::{Color, Run, Style, StyledSpan, runs_of};
use crate::codes::sgr;
use crate::text::{chars_of, decimal, digit_char, digit_value, is_digit, string_of};

verus! {

/// The eight basic colours, by their offset from 30 or 40: black, red, green,
/// yellow, blue, magenta, cyan and white, which goes by the name `Gray`.
pub open spec fn basic_color_of(n: int) -> Color {
    if n == 0 {
        Color::Black
    } else if n == 1 {
        Color::Red
    } else if n == 2 {
        Color::Green
    } else if n == 3 {
        Color::Yellow
    } else if n == 4 {
        Color::Blue
    } else if n == 5 {
        Color::Magenta
    } else if n == 6 {
        Color::Cyan
    } else if n == 7 {
        Color::Gray
    } else {
        Color::Reset
    }
}

/// The eight bright colours, by their offset from 90 or 100; the bright white
/// goes by the name `White`.
pub open spec fn bright_color_of(n: int) -> Color {
    if n == 0 {
        Color::DarkGray
    } else if n == 1 {
        Color::LightRed
    } else if n == 2 {
        Color::LightGreen
    } else if n == 3 {
        Color::LightYellow
    } else if n == 4 {
        Color::LightBlue
    } else if n == 5 {
        Color::LightMagenta
    } else if n == 6 {
        Color::LightCyan
    } else if n == 7 {
        Color::White
    } else {
        Color::Reset
    }
}

/// The basic colour at the offset `n`.
pub fn basic_color(n: u16) -> (color: Color)
    ensures
        color == basic_color_of(n as int),
{
    match n {
        0 => Color::Black,
        1 => Color::Red,
        2 => Color::Green,
        3 => Color::Yellow,
        4 => Color::Blue,
        5 => Color::Magenta,
        6 => Color::Cyan,
        7 => Color::Gray,
        _ => Color::Reset,
    }
}

/// The bright colour at the offset `n`.
pub fn bright_color(n: u16) -> (color: Color)
    ensures
        color == bright_color_of(n as int),
{
    match n {
        0 => Color::DarkGray,
        1 => Color::LightRed,
        2 => Color::LightGreen,
        3 => Color::LightYellow,
        4 => Color::LightBlue,
        5 => Color::LightMagenta,
        6 => Color::LightCyan,
        7 => Color::White,
        _ => Color::Reset,
    }
}

/// True of the characters a sequence body is made of.
pub open spec fn is_body_char(c: char) -> bool {
    is_digit(c) || c == ';'
}

/// How many body characters stand in `s` from `from` on, before the first
/// character that is none.
pub open spec fn body_len(s: Seq<char>, from: int) -> nat
    decreases s.len() - from,
{
    if 0 <= from < s.len() && is_body_char(s[from]) {
        1 + body_len(s, from + 1)
    } else {
        0
    }
}

/// A parameter that has grown to `n`: one too large for 16 bits stays at the
/// largest value, which is no code and no colour.
pub open spec fn saturated(n: int) -> u16 {
    if n > 0xFFFF {
        0xFFFFu16
    } else {
        n as u16
    }
}

/// The parameters that a sequence body writes: `;` separates them, and a
/// parameter without digits is 0.
pub open spec fn params_of(body: Seq<char>) -> Seq<u16>
    decreases body.len(),
{
    if body.len() == 0 {
        seq![0u16]
    } else if body.last() == ';' {
        params_of(body.drop_last()).push(0u16)
    } else {
        let before = params_of(body.drop_last());
        before.update(
            before.len() - 1,
            saturated(before.last() * 10 + digit_value(body.last())),
        )
    }
}

/// How many parameters the code at `at` takes up: an extended colour (38 or
/// 48) takes its selector and its one or three values with it, where they are
/// all there, whether or not the values are colours.
pub open spec fn sgr_width(params: Seq<u16>, at: int) -> int {
    let code = params[at];
    if (code == 38 || code == 48) && at + 1 < params.len() {
        if params[at + 1] == 5 && at + 2 < params.len() {
            3
        } else if params[at + 1] == 2 && at + 4 < params.len() {
            5
        } else {
            1
        }
    } else {
        1
    }
}

/// The colour that the extended code at `at` selects, if it is complete and
/// each of its values is one that eight bits hold.
pub open spec fn extended_color(params: Seq<u16>, at: int) -> Option<Color> {
    if sgr_width(params, at) == 3 && params[at + 2] <= 255 {
        Some(Color::Indexed(params[at + 2] as u8))
    } else if sgr_width(params, at) == 5 && params[at + 2] <= 255 && params[at + 3] <= 255
        && params[at + 4] <= 255 {
        Some(Color::Rgb(params[at + 2] as u8, params[at + 3] as u8, params[at + 4] as u8))
    } else {
        None
    }
}

/// The style after the code at `at` has been applied to `style`.
pub open spec fn sgr_style(style: Style, params: Seq<u16>, at: int) -> Style {
    let code = params[at];
    if code == 0 {
        Style::plain()
    } else if code == 1 {
        Style { bold: true, ..style }
    } else if code == 2 {
        Style { dim: true, ..style }
    } else if code == 3 {
        Style { italic: true, ..style }
    } else if code == 4 {
        Style { underlined: true, ..style }
    } else if code == 7 {
        Style { reversed: true, ..style }
    } else if code == 9 {
        Style { crossed_out: true, ..style }
    } else if code == 22 {
        Style { bold: false, dim: false, ..style }
    } else if code == 23 {
        Style { italic: false, ..style }
    } else if code == 24 {
        Style { underlined: false, ..style }
    } else if code == 27 {
        Style { reversed: false, ..style }
    } else if 30 <= code <= 37 {
        Style { fg: Some(basic_color_of(code - 30)), ..style }
    } else if 40 <= code <= 47 {
        Style { bg: Some(basic_color_of(code - 40)), ..style }
    } else if 90 <= code <= 97 {
        Style { fg: Some(bright_color_of(code - 90)), ..style }
    } else if 100 <= code <= 107 {
        Style { bg: Some(bright_color_of(code - 100)), ..style }
    } else if code == 38 {
        match extended_color(params, at) {
            Some(color) => Style { fg: Some(color), ..style },
            None => style,
        }
    } else if code == 48 {
        match extended_color(params, at) {
            Some(color) => Style { bg: Some(color), ..style },
            None => style,
        }
    } else if code == 39 {
        Style { fg: Some(Color::Reset), ..style }
    } else if code == 49 {
        Style { bg: Some(Color::Reset), ..style }
    } else {
        style
    }
}

/// The style after the codes of `params` from `at` on have been applied to
/// `style`, one after the other.
pub open spec fn apply_sgr(style: Style, params: Seq<u16>, at: int) -> Style
    decreases params.len() - at,
{
    if 0 <= at < params.len() {
        apply_sgr(sgr_style(style, params, at), params, at + sgr_width(params, at))
    } else {
        style
    }
}

/// True where `ESC [` stands at `at`.
pub open spec fn opens_sequence(s: Seq<char>, at: int) -> bool {
    0 <= at && at + 1 < s.len() && s[at] == '\x1b' && s[at + 1] == '['
}

/// The run that pending text becomes when it is handed out: none where there
/// is no text.
pub open spec fn flushed(pending: Seq<char>, style: Style) -> Seq<Run> {
    if pending.len() > 0 {
        seq![Run { text: pending, style }]
    } else {
        Seq::empty()
    }
}

/// The runs of `s` from `at` on, where `style` is current and `pending` is the
/// text read since the last run was handed out.
pub open spec fn runs_from(s: Seq<char>, at: int, style: Style, pending: Seq<char>) -> Seq<Run>
    decreases s.len() - at,
    via runs_from_terminates
{
    if at < 0 || at >= s.len() {
        flushed(pending, style)
    } else if opens_sequence(s, at) {
        let end = at + 2 + body_len(s, at + 2);
        let closed = end < s.len();
        let next_style = if closed && s[end] == 'm' {
            apply_sgr(style, params_of(s.subrange(at + 2, end)), 0)
        } else {
            style
        };
        let next = if closed { end + 1 } else { end };
        flushed(pending, style) + runs_from(s, next, next_style, Seq::empty())
    } else {
        runs_from(s, at + 1, style, pending.push(s[at]))
    }
}

/// Each step of `runs_from` goes on behind where it started, inside the text.
#[via_fn]
proof fn runs_from_terminates(s: Seq<char>, at: int, style: Style, pending: Seq<char>) {
    if 0 <= at && at + 1 < s.len() {
        lemma_body_in_bounds(s, at + 2);
    }
}

/// A sequence body ends inside the text.
pub proof fn lemma_body_in_bounds(s: Seq<char>, from: int)
    requires
        0 <= from <= s.len(),
    ensures
        from + body_len(s, from) <= s.len(),
    decreases s.len() - from,
{
    if from < s.len() && is_body_char(s[from]) {
        lemma_body_in_bounds(s, from + 1);
    }
}

/// The styled runs that a line of terminal text stands for.
pub open spec fn styled_runs(s: Seq<char>) -> Seq<Run> {
    runs_from(s, 0, Style::plain(), Seq::empty())
}

/// Reads the body of a control sequence that starts at `from`: returns where
/// it ends and the parameters it writes.
fn scan_params(s: &Vec<char>, from: usize) -> (found: (usize, Vec<u16>))
    requires
        from <= s.len(),
    ensures
        found.0 == from + body_len(s@, from as int),
        found.0 <= s.len(),
        found.1@ == params_of(s@.subrange(from as int, found.0 as int)),
{
    let mut params: Vec<u16> = Vec::new();
    let mut current: u16 = 0;
    let mut i: usize = from;
    proof {
        assert(s@.subrange(from as int, from as int) =~= Seq::<char>::empty());
        assert(params@.push(current) =~= seq![0u16]);
    }
    while i < s.len()
        invariant_except_break
            from <= i <= s.len(),
            body_len(s@, from as int) == (i - from) + body_len(s@, i as int),
            params@.push(current) == params_of(s@.subrange(from as int, i as int)),
        ensures
            from <= i <= s.len(),
            body_len(s@, from as int) == i - from,
            params@.push(current) == params_of(s@.subrange(from as int, i as int)),
        decreases s.len() - i,
    {
        let c = s[i];
        let ghost prefix = s@.subrange(from as int, i as int);
        let ghost longer = s@.subrange(from as int, i + 1);
        proof {
            assert(longer.drop_last() =~= prefix);
            assert(longer.last() == c);
        }
        if c >= '0' && c <= '9' {
            let d: u32 = c as u32 - 48;
            let grown: u32 = current as u32 * 10 + d;
            current = if grown > 0xFFFF { 0xFFFF } else { grown as u16 };
            proof {
                assert(params@.push(current) =~= params_of(longer));
            }
            i += 1;
        } else if c == ';' {
            params.push(current);
            current = 0;
            proof {
                assert(params@.push(current) =~= params_of(longer));
            }
            i += 1;
        } else {
            break;
        }
    }
    params.push(current);
    (i, params)
}

/// Applies the SGR parameters `params` to `style`.
fn apply_params(style: Style, params: &Vec<u16>) -> (out: Style)
    ensures
        out == apply_sgr(style, params@, 0),
{
    let mut current = style;
    let mut at: usize = 0;
    let n = params.len();
    while at < n
        invariant
            n == params.len(),
            at <= n,
            apply_sgr(style, params@, 0) == apply_sgr(current, params@, at as int),
        decreases n - at,
    {
        let code = params[at];
        let mut width: usize = 1;
        if code == 0 {
            current = Style::new();
        } else if code == 1 {
            current.bold = true;
        } else if code == 2 {
            current.dim = true;
        } else if code == 3 {
            current.italic = true;
        } else if code == 4 {
            current.underlined = true;
        } else if code == 7 {
            current.reversed = true;
        } else if code == 9 {
            current.crossed_out = true;
        } else if code == 22 {
            current.bold = false;
            current.dim = false;
        } else if code == 23 {
            current.italic = false;
        } else if code == 24 {
            current.underlined = false;
        } else if code == 27 {
            current.reversed = false;
        } else if 30 <= code && code <= 37 {
            current.fg = Some(basic_color(code - 30));
        } else if 40 <= code && code <= 47 {
            current.bg = Some(basic_color(code - 40));
        } else if 90 <= code && code <= 97 {
            current.fg = Some(bright_color(code - 90));
        } else if 100 <= code && code <= 107 {
            current.bg = Some(bright_color(code - 100));
        } else if code == 38 || code == 48 {
            let mut color: Option<Color> = None;
            if n - at > 1 {
                if params[at + 1] == 5 && n - at > 2 {
                    if params[at + 2] <= 255 {
                        color = Some(Color::Indexed(params[at + 2] as u8));
                    }
                    width = 3;
                } else if params[at + 1] == 2 && n - at > 4 {
                    if params[at + 2] <= 255 && params[at + 3] <= 255 && params[at + 4] <= 255 {
                        color = Some(
                            Color::Rgb(
                                params[at + 2] as u8,
                                params[at + 3] as u8,
                                params[at + 4] as u8,
                            ),
                        );
                    }
                    width = 5;
                }
            }
            if color.is_some() {
                if code == 38 {
                    current.fg = color;
                } else {
                    current.bg = color;
                }
            }
        } else if code == 39 {
            current.fg = Some(Color::Reset);
        } else if code == 49 {
            current.bg = Some(Color::Reset);
        }
        at += width;
    }
    current
}

/// Hands out the pending text, if there is any, as one more span.
fn flush(spans: &mut Vec<StyledSpan>, pending: &mut Vec<char>, style: Style)
    ensures
        runs_of(final(spans)@) == runs_of(old(spans)@) + flushed(old(pending)@, style),
        final(pending)@ == Seq::<char>::empty(),
{
    if pending.len() > 0 {
        let text = string_of(pending);
        let span = StyledSpan { text, style };
        spans.push(span);
        pending.clear();
        assert(runs_of(spans@) =~= runs_of(old(spans)@) + flushed(old(pending)@, style));
    } else {
        assert(runs_of(spans@) =~= runs_of(old(spans)@) + flushed(old(pending)@, style));
        assert(pending@ =~= Seq::<char>::empty());
    }
}

/// Splits a line of terminal text into its styled runs.
pub fn parse_ansi_line(input: &str) -> (line: Vec<StyledSpan>)
    ensures
        runs_of(line@) == styled_runs(input@),
{
    let s = chars_of(input);
    parse_ansi_chars(&s)
}

/// Splits a line of terminal text, given by its characters, into its styled
/// runs.
pub fn parse_ansi_chars(s: &Vec<char>) -> (line: Vec<StyledSpan>)
    ensures
        runs_of(line@) == styled_runs(s@),
{
    let len = s.len();
    let mut spans: Vec<StyledSpan> = Vec::new();
    let mut style = Style::new();
    let mut pending: Vec<char> = Vec::new();
    let mut i: usize = 0;
    assert(runs_of(spans@) =~= Seq::<Run>::empty());
    while i < len
        invariant
            len == s.len(),
            i <= len,
            styled_runs(s@) == runs_of(spans@) + runs_from(s@, i as int, style, pending@),
        decreases len - i,
    {
        if s[i] == '\x1b' && len - i > 1 && s[i + 1] == '[' {
            let ghost before = runs_of(spans@);
            let ghost held = pending@;
            flush(&mut spans, &mut pending, style);
            let (end, params) = scan_params(s, i + 2);
            let old_style = style;
            if end < len && s[end] == 'm' {
                style = apply_params(style, &params);
            }
            let next: usize = if end < len { end + 1 } else { end };
            proof {
                assert(runs_from(s@, i as int, old_style, held) == flushed(held, old_style)
                    + runs_from(s@, next as int, style, Seq::empty()));
                assert(runs_of(spans@) + runs_from(s@, next as int, style, pending@) =~= before
                    + runs_from(s@, i as int, old_style, held));
            }
            i = next;
        } else {
            pending.push(s[i]);
            i += 1;
        }
    }
    let ghost before = runs_of(spans@);
    let ghost held = pending@;
    flush(&mut spans, &mut pending, style);
    assert(runs_of(spans@) =~= before + runs_from(s@, i as int, style, held));
    spans
}

/// The text of `s` from `at` on: its characters without the control
/// sequences.
pub open spec fn text_from(s: Seq<char>, at: int) -> Seq<char>
    decreases s.len() - at,
    via text_from_terminates
{
    if at < 0 || at >= s.len() {
        Seq::empty()
    } else if opens_sequence(s, at) {
        let end = at + 2 + body_len(s, at + 2);
        text_from(
            s,
            if end < s.len() {
                end + 1
            } else {
                end
            },
        )
    } else {
        seq![s[at]] + text_from(s, at + 1)
    }
}

/// Each step of `text_from` goes on behind where it started, inside the text.
#[via_fn]
proof fn text_from_terminates(s: Seq<char>, at: int) {
    if 0 <= at && at + 1 < s.len() {
        lemma_body_in_bounds(s, at + 2);
    }
}

/// The texts of `runs`, one after the other.
pub open spec fn run_texts(runs: Seq<Run>) -> Seq<char>
    decreases runs.len(),
{
    if runs.len() == 0 {
        Seq::empty()
    } else {
        runs[0].text + run_texts(runs.drop_first())
    }
}

/// No text is lost: the runs hold, in order, every character that stands
/// outside the control sequences, and nothing else.
pub proof fn lemma_runs_keep_text(s: Seq<char>, at: int, style: Style, pending: Seq<char>)
    requires
        0 <= at <= s.len(),
    ensures
        run_texts(runs_from(s, at, style, pending)) == pending + text_from(s, at),
    decreases s.len() - at,
{
    let runs = runs_from(s, at, style, pending);
    if at >= s.len() {
        if pending.len() > 0 {
            assert(runs.drop_first() =~= Seq::<Run>::empty());
            assert(run_texts(runs.drop_first()) =~= Seq::<char>::empty());
            assert(run_texts(runs) =~= pending);
        }
        assert(pending + text_from(s, at) =~= pending);
    } else if opens_sequence(s, at) {
        lemma_body_in_bounds(s, at + 2);
        let end = at + 2 + body_len(s, at + 2);
        let next = if end < s.len() {
            end + 1
        } else {
            end
        };
        let next_style = if end < s.len() && s[end] == 'm' {
            apply_sgr(style, params_of(s.subrange(at + 2, end)), 0)
        } else {
            style
        };
        let rest = runs_from(s, next, next_style, Seq::empty());
        lemma_runs_keep_text(s, next, next_style, Seq::empty());
        assert(Seq::<char>::empty() + text_from(s, next) =~= text_from(s, next));
        if pending.len() > 0 {
            assert(runs =~= seq![Run { text: pending, style }] + rest);
            assert(runs.drop_first() =~= rest);
        } else {
            assert(runs =~= rest);
            assert(pending + text_from(s, at) =~= text_from(s, at));
        }
    } else {
        lemma_runs_keep_text(s, at + 1, style, pending.push(s[at]));
        assert(pending.push(s[at]) + text_from(s, at + 1) =~= pending + text_from(s, at));
    }
}

/// A numeral is made of digits, and read as a sequence body it gives back its
/// number.
pub proof fn lemma_numeral_read_back(n: nat)
    requires
        n < 0x10000,
    ensures
        decimal(n).len() >= 1,
        forall|i: int| 0 <= i < decimal(n).len() ==> is_digit(#[trigger] decimal(n)[i]),
        params_of(decimal(n)) == seq![n as u16],
    decreases n,
{
    let d = digit_char(n % 10);
    assert(is_digit(d) && digit_value(d) == n % 10);
    if n < 10 {
        assert(decimal(n).drop_last() =~= Seq::<char>::empty());
        assert(params_of(Seq::<char>::empty()) == seq![0u16]);
        assert(params_of(decimal(n)) =~= seq![n as u16]);
    } else {
        lemma_numeral_read_back(n / 10);
        assert(decimal(n).drop_last() =~= decimal(n / 10));
        assert(decimal(n).last() == d);
        assert(params_of(decimal(n)) =~= seq![n as u16]);
    }
}

/// A run of body characters that is followed by another character, or by the
/// end, is a whole body.
proof fn lemma_body_len_is(s: Seq<char>, from: int, to: int)
    requires
        0 <= from <= to <= s.len(),
        forall|i: int| from <= i < to ==> is_body_char(#[trigger] s[i]),
        to == s.len() || !is_body_char(s[to]),
    ensures
        body_len(s, from) == to - from,
    decreases to - from,
{
    if from < to {
        lemma_body_len_is(s, from + 1, to);
    }
}

/// What the renderers write, the interpreter reads back: text without an
/// escape character that follows the escape sequence for `code` is one run,
/// in the style that `code` makes of the current one.
pub proof fn lemma_written_code_is_read(code: nat, text: Seq<char>, style: Style)
    requires
        code < 0x10000,
        forall|k: int| 0 <= k < text.len() ==> text[k] != '\x1b',
    ensures
        runs_from(sgr(code) + text, 0, style, Seq::empty()) == flushed(
            text,
            apply_sgr(style, seq![code as u16], 0),
        ),
{
    let s = sgr(code) + text;
    let digits = decimal(code);
    let end: int = 2 + digits.len() as int;
    lemma_numeral_read_back(code);
    assert(s[0] == '\x1b' && s[1] == '[');
    assert forall|i: int| 2 <= i < end implies is_body_char(#[trigger] s[i]) by {
        assert(s[i] == digits[i - 2]);
    }
    assert(s[end] == 'm');
    lemma_body_len_is(s, 2, end);
    assert(s.subrange(2, end) =~= digits);
    let next_style = apply_sgr(style, seq![code as u16], 0);
    assert forall|k: int| end + 1 <= k < s.len() implies s[k] != '\x1b' by {
        assert(s[k] == text[k - end - 1]);
    }
    lemma_text_without_escape(s, end + 1, next_style, Seq::empty());
    assert(Seq::<char>::empty() + s.subrange(end + 1, s.len() as int) =~= text);
    assert(flushed(Seq::<char>::empty(), style) + flushed(text, next_style) =~= flushed(
        text,
        next_style,
    ));
}

/// The sixteen named colours are sixteen: no basic colour is a bright one, and
/// no two of a kind are the same.
pub proof fn lemma_named_colours_differ()
    ensures
        forall|m: int, n: int|
            0 <= m < 8 && 0 <= n < 8 ==> #[trigger] basic_color_of(m) != #[trigger] bright_color_of(
                n,
            ),
        forall|m: int, n: int|
            0 <= m < n < 8 ==> #[trigger] basic_color_of(m) != #[trigger] basic_color_of(n),
        forall|m: int, n: int|
            0 <= m < n < 8 ==> #[trigger] bright_color_of(m) != #[trigger] bright_color_of(n),
{
}

/// A code that is too large for 16 bits changes nothing: it is read as the
/// largest value, which the table does not hold.
pub proof fn lemma_large_code_changes_nothing(style: Style)
    ensures
        apply_sgr(style, seq![0xFFFFu16], 0) == style,
{
    let params = seq![0xFFFFu16];
    assert(sgr_width(params, 0) == 1);
    assert(apply_sgr(style, params, 1) == style);
}

/// A full reset clears every flag and both colours, whatever the style was.
pub proof fn lemma_reset_clears(style: Style)
    ensures
        apply_sgr(style, seq![0u16], 0) == Style::plain(),
{
    let params = seq![0u16];
    assert(sgr_width(params, 0) == 1);
    assert(apply_sgr(Style::plain(), params, 1) == Style::plain());
}

/// Text without an escape character is one run in the style that was current.
pub proof fn lemma_text_without_escape(s: Seq<char>, at: int, style: Style, pending: Seq<char>)
    requires
        0 <= at <= s.len(),
        forall|k: int| at <= k < s.len() ==> s[k] != '\x1b',
    ensures
        runs_from(s, at, style, pending) == flushed(
            pending + s.subrange(at, s.len() as int),
            style,
        ),
    decreases s.len() - at,
{
    if at >= s.len() {
        assert(pending + s.subrange(at, s.len() as int) =~= pending);
    } else {
        lemma_text_without_escape(s, at + 1, style, pending.push(s[at]));
        assert(pending.push(s[at]) + s.subrange(at + 1, s.len() as int) =~= pending + s.subrange(
            at,
            s.len() as int,
        ));
    }
}

} // verus!
