use treeview::ansi::parse_ansi_line;
use treeview::inline::render_inline;
use treeview::scan::{find_closing, find_double_closing};
use treeview::style::{Color, Style};

fn letters(s: &str) -> Vec<char> {
    s.chars().collect()
}

#[test]
fn italic_inside_bold_keeps_bold() {
    let rendered = render_inline("**a *b* c**");
    assert_eq!(rendered, "\x1b[1ma \x1b[3mb\x1b[0m\x1b[1m c\x1b[0m");
    let runs = parse_ansi_line(&rendered);
    assert_eq!(runs.len(), 3);
    let mut bold = Style::new();
    bold.bold = true;
    let mut both = bold;
    both.italic = true;
    assert_eq!(runs[0].text, "a ");
    assert_eq!(runs[0].style, bold);
    assert_eq!(runs[1].text, "b");
    assert_eq!(runs[1].style, both);
    assert_eq!(runs[2].text, " c");
    assert_eq!(runs[2].style, bold);
}

#[test]
fn dangling_asterisk_is_text() {
    let rendered = render_inline("*dangling");
    assert_eq!(rendered, "*dangling");
    let runs = parse_ansi_line(&rendered);
    assert_eq!(runs.len(), 1);
    assert_eq!(runs[0].text, "*dangling");
    assert_eq!(runs[0].style, Style::new());
}

#[test]
fn single_spans() {
    assert_eq!(render_inline("`code`"), "\x1b[2m\x1b[36mcode\x1b[0m");
    assert_eq!(render_inline("**bold**"), "\x1b[1mbold\x1b[0m");
    assert_eq!(render_inline("*it*"), "\x1b[3mit\x1b[0m");
    assert_eq!(render_inline("[text](http://x.y)"), "\x1b[34mtext\x1b[0m");
    assert_eq!(render_inline("a `b` c"), "a \x1b[2m\x1b[36mb\x1b[0m c");
}

#[test]
fn code_span_is_not_scanned() {
    assert_eq!(render_inline("`**a** [b](c)`"), "\x1b[2m\x1b[36m**a** [b](c)\x1b[0m");
    let runs = parse_ansi_line(&render_inline("`x`"));
    assert!(runs[0].style.dim);
    assert_eq!(runs[0].style.fg, Some(Color::Cyan));
}

#[test]
fn constructs_inside_bold() {
    assert_eq!(
        render_inline("**a `b` c**"),
        "\x1b[1ma \x1b[2m\x1b[36mb\x1b[0m\x1b[1m c\x1b[0m"
    );
    assert_eq!(
        render_inline("**see [here](u)**"),
        "\x1b[1msee \x1b[34mhere\x1b[0m\x1b[1m\x1b[0m"
    );
}

#[test]
fn text_of_italic_and_link_is_kept_as_it_is() {
    assert_eq!(render_inline("*a `b`*"), "\x1b[3ma `b`\x1b[0m");
    assert_eq!(render_inline("[a *b*](u)"), "\x1b[34ma *b*\x1b[0m");
}

#[test]
fn unmatched_delimiters_are_text() {
    assert_eq!(render_inline("**bold"), "**bold");
    assert_eq!(render_inline("a ** b"), "a ** b");
    assert_eq!(render_inline("`code"), "`code");
    assert_eq!(render_inline("[text](url"), "[text](url");
    assert_eq!(render_inline("[text] (url)"), "[text] (url)");
    assert_eq!(render_inline("[text"), "[text");
    assert_eq!(render_inline("a * b"), "a * b");
    assert_eq!(render_inline("*"), "*");
    assert_eq!(render_inline(""), "");
}

#[test]
fn first_doubled_asterisk_closes_bold() {
    assert_eq!(render_inline("***x***"), "\x1b[1m*x\x1b[0m*");
    assert_eq!(render_inline("**a**b**"), "\x1b[1ma\x1b[0mb**");
    assert_eq!(render_inline("****"), "\x1b[1m\x1b[0m");
}

#[test]
fn text_without_constructs_is_unchanged() {
    let text = "plain text, with ünïcödé and (parens) and ] and )";
    assert_eq!(render_inline(text), text);
}

#[test]
fn find_closing_finds_the_first() {
    let s = letters("a*b*c");
    assert_eq!(find_closing(&s, 0, '*'), Some(1));
    assert_eq!(find_closing(&s, 1, '*'), Some(1));
    assert_eq!(find_closing(&s, 2, '*'), Some(3));
    assert_eq!(find_closing(&s, 4, '*'), None);
    assert_eq!(find_closing(&s, 5, '*'), None);
    assert_eq!(find_closing(&s, 99, '*'), None);
    assert_eq!(find_closing(&letters(""), 0, '*'), None);
}

#[test]
fn find_double_closing_finds_the_first_pair() {
    let s = letters("a*b**c**");
    assert_eq!(find_double_closing(&s, 0, '*'), Some(3));
    assert_eq!(find_double_closing(&s, 4, '*'), Some(6));
    assert_eq!(find_double_closing(&s, 7, '*'), None);
    assert_eq!(find_double_closing(&s, 8, '*'), None);
    assert_eq!(find_double_closing(&s, 99, '*'), None);
    assert_eq!(find_double_closing(&letters("*"), 0, '*'), None);
    assert_eq!(find_double_closing(&letters(""), 0, '*'), None);
}
