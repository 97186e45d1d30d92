use syntect::easy::HighlightLines;
use syntect::highlighting::ThemeSet;
use syntect::parsing::SyntaxSet;
use syntect::util::{as_24_bit_terminal_escaped, LinesWithEndings};
use treeview::highlight::append_shown_line;
use treeview::markdown::{
    append_fence, append_line, heading_level_of, highlight_fence, is_fence, is_rule_line,
    language_of, render_markdown, render_markdown_chars, strip_bullet_prefix,
    strip_numbered_prefix,
};
use treeview::preview::Previewer;

fn md_chars(s: &str) -> Vec<char> {
    s.chars().collect()
}

fn md_line(line: &str) -> String {
    let mut out: Vec<char> = Vec::new();
    append_line(&mut out, &md_chars(line));
    out.into_iter().collect()
}

fn by_syntect(token: &str, code: &str, indent: &str) -> String {
    let ss = SyntaxSet::load_defaults_newlines();
    let ts = ThemeSet::load_defaults();
    let syntax = ss.find_syntax_by_token(token).unwrap();
    let mut h = HighlightLines::new(syntax, &ts.themes["base16-ocean.dark"]);
    let mut out = String::new();
    for line in LinesWithEndings::from(code) {
        let ranges = h.highlight_line(line, &ss).unwrap();
        out.push_str(indent);
        out.push_str(&as_24_bit_terminal_escaped(&ranges, false));
    }
    out.push_str("\x1b[0m");
    out
}

#[test]
fn headings() {
    assert_eq!(md_line("# Title"), "\x1b[1m\x1b[36mTitle\x1b[0m\n");
    assert_eq!(md_line("## Two"), "\x1b[1m\x1b[32mTwo\x1b[0m\n");
    assert_eq!(md_line("### Three"), "\x1b[1m\x1b[33mThree\x1b[0m\n");
    assert_eq!(md_line("#### Four"), "\x1b[1m\x1b[35mFour\x1b[0m\n");
    assert_eq!(md_line("##### Five"), "\x1b[1m\x1b[35mFive\x1b[0m\n");
    assert_eq!(md_line("###### Six"), "\x1b[1m\x1b[35mSix\x1b[0m\n");
    // Further spaces belong to the text of the levels 1 to 3, not to that of the others.
    assert_eq!(md_line("#  Title"), "\x1b[1m\x1b[36m Title\x1b[0m\n");
    assert_eq!(md_line("####   Four"), "\x1b[1m\x1b[35mFour\x1b[0m\n");
    // The text of a heading is not scanned.
    assert_eq!(md_line("# **x**"), "\x1b[1m\x1b[36m**x**\x1b[0m\n");
}

#[test]
fn what_is_no_heading() {
    assert_eq!(md_line("#Title"), "#Title\n");
    assert_eq!(md_line("####### Seven"), "####### Seven\n");
    assert_eq!(md_line("#"), "#\n");
    assert_eq!(md_line(" # Title"), " # Title\n");
    assert_eq!(heading_level_of(&md_chars("### x")), 3);
    assert_eq!(heading_level_of(&md_chars("###x")), 0);
    assert_eq!(heading_level_of(&md_chars("")), 0);
}

#[test]
fn horizontal_rules() {
    let rule = format!("\x1b[2m{}\x1b[0m\n", "─".repeat(32));
    for line in [
        "---", "***", "___", "----------", "--- ---", "- - -", "* * *", "_  _  _", "-- -", "***  ",
        "- - - - -",
    ] {
        assert_eq!(md_line(line), rule, "{:?}", line);
        assert!(is_rule_line(&md_chars(line)));
    }
    for line in [
        "--", "- -", "--x", "-*-", "---*_ ", "---***", " ---", "---a", "-\t-\t-", "   ", "",
    ] {
        assert!(!is_rule_line(&md_chars(line)), "{:?}", line);
    }
}

#[test]
fn rule_with_spaces_is_no_bulleted_item() {
    let p = Previewer::new();
    let rule = format!("\x1b[2m{}\x1b[0m\n", "─".repeat(32));
    assert_eq!(p.render_markdown("- - -"), rule);
    assert_eq!(p.render_markdown("* * *"), rule);
    // Two marks are an item whose text is a dash.
    assert_eq!(md_line("- -"), "  \x1b[34m•\x1b[0m -\n");
}

#[test]
fn bulleted_items() {
    assert_eq!(md_line("- item"), "  \x1b[34m•\x1b[0m item\n");
    assert_eq!(md_line("* item"), "  \x1b[34m•\x1b[0m item\n");
    assert_eq!(md_line("  - nested"), "    \x1b[34m•\x1b[0m nested\n");
    assert_eq!(md_line("   - three"), "    \x1b[34m•\x1b[0m three\n");
    assert_eq!(md_line("    * four"), "      \x1b[34m•\x1b[0m four\n");
    assert_eq!(md_line("- **b** and `c`"), "  \x1b[34m•\x1b[0m \x1b[1mb\x1b[0m and \x1b[2m\x1b[36mc\x1b[0m\n");
    assert_eq!(md_line("-item"), "-item\n");
    assert_eq!(strip_bullet_prefix(&md_chars("- item")), Some((0, 2)));
    assert_eq!(strip_bullet_prefix(&md_chars("    * four")), Some((2, 6)));
    assert_eq!(strip_bullet_prefix(&md_chars("\t- tab")), Some((0, 3)));
    assert_eq!(strip_bullet_prefix(&md_chars("-")), None);
    assert_eq!(strip_bullet_prefix(&md_chars("+ item")), None);
    assert_eq!(strip_bullet_prefix(&md_chars("")), None);
}

#[test]
fn numbered_items() {
    assert_eq!(md_line("1. first"), "  first\n");
    assert_eq!(md_line("12) twelfth"), "  twelfth\n");
    assert_eq!(md_line("  3.   third"), "    third\n");
    assert_eq!(md_line("1. *it*"), "  \x1b[3mit\x1b[0m\n");
    assert_eq!(md_line("1.first"), "1.first\n");
    assert_eq!(md_line(". first"), ". first\n");
    assert_eq!(strip_numbered_prefix(&md_chars("1. first")), Some((0, 3)));
    assert_eq!(strip_numbered_prefix(&md_chars("  3.   third")), Some((1, 7)));
    assert_eq!(strip_numbered_prefix(&md_chars("10) x")), Some((0, 4)));
    assert_eq!(strip_numbered_prefix(&md_chars("1.")), None);
    assert_eq!(strip_numbered_prefix(&md_chars("a. x")), None);
    assert_eq!(strip_numbered_prefix(&md_chars("1: x")), None);
}

#[test]
fn quotations_and_plain_text() {
    assert_eq!(md_line("> quoted"), "  \x1b[2m│\x1b[0m quoted\n");
    assert_eq!(md_line("> **b**"), "  \x1b[2m│\x1b[0m \x1b[1mb\x1b[0m\n");
    assert_eq!(md_line(">quoted"), ">quoted\n");
    assert_eq!(md_line("plain"), "plain\n");
    assert_eq!(md_line(""), "\n");
    assert_eq!(md_line("a *b* c"), "a \x1b[3mb\x1b[0m c\n");
}

#[test]
fn fence_lines() {
    assert!(is_fence(&md_chars("```")));
    assert!(is_fence(&md_chars("```rust")));
    assert!(is_fence(&md_chars("````")));
    assert!(!is_fence(&md_chars("``")));
    assert!(!is_fence(&md_chars(" ```")));
    assert_eq!(language_of(&md_chars("```rust")), md_chars("rust"));
    assert_eq!(language_of(&md_chars("```  rust  ")), md_chars("rust"));
    assert_eq!(language_of(&md_chars("````py")), md_chars("py"));
    assert_eq!(language_of(&md_chars("```")), md_chars(""));
    assert_eq!(language_of(&md_chars("```   ")), md_chars(""));
    assert_eq!(language_of(&md_chars("```a b")), md_chars("a b"));
}

#[test]
fn fence_without_syntax_is_dimmed() {
    let p = Previewer::new();
    assert_eq!(p.render_markdown("```\ncode\n```"), "  \x1b[2mcode\x1b[0m\n\n");
    assert_eq!(
        p.render_markdown("```no-such-language\na\n# b\n```\nafter"),
        "  \x1b[2ma\x1b[0m\n  \x1b[2m# b\x1b[0m\n\nafter\n"
    );
    assert_eq!(p.render_markdown("```\n```"), "\n");
}

#[test]
fn fence_that_is_not_closed_runs_to_the_end() {
    let p = Previewer::new();
    assert_eq!(p.render_markdown("x\n```\na\nb"), "x\n  \x1b[2ma\x1b[0m\n  \x1b[2mb\x1b[0m\n\n");
}

#[test]
fn fence_with_syntax_is_highlighted() {
    let p = Previewer::new();
    let rendered = p.render_markdown("```rust\nlet x = 1;\n```\ndone");
    let expected = format!("{}\n{}", by_syntect("rust", "let x = 1;\n", "  "), "done\n");
    assert_eq!(rendered, expected);
    assert!(rendered.starts_with("  \x1b[38;2;"));
    assert!(rendered.contains("let"));
    assert_ne!(rendered, "  \x1b[2mlet x = 1;\x1b[0m\n\ndone\n");
}

#[test]
fn empty_highlighted_fence_is_one_line() {
    let p = Previewer::new();
    let rendered = p.render_markdown("```rust\n```");
    assert_eq!(rendered, format!("{}\n", by_syntect("rust", "\n", "  ")));
}

#[test]
fn fence_language_is_a_token_or_an_extension() {
    let p = Previewer::new();
    let lines = vec![md_chars("let x = 1;")];
    let coloured = |language: &str| {
        highlight_fence(&p, &md_chars(language), &lines, 0, 1)
            .map(|text| text.into_iter().collect::<String>())
    };
    for language in ["rs", "Rust", "RS", "rust"] {
        assert_eq!(coloured(language), Some(by_syntect("rs", "let x = 1;\n", "  ")), "{}", language);
    }
    assert_eq!(coloured("python"), Some(by_syntect("python", "let x = 1;\n", "  ")));
    assert_eq!(coloured("no-such-language"), None);
    assert_eq!(coloured(""), None);
}

#[test]
fn highlighting_goes_line_by_line() {
    let p = Previewer::new();
    // The second and the third line are one comment: the highlighter keeps
    // what it has seen from line to line.
    let code = "fn f() {\n    /* a\n b */\n}\n";
    let rendered = p.render_markdown(&format!("```rs\n{}```", code));
    assert_eq!(rendered, format!("{}\n", by_syntect("rs", code, "  ")));
    let (shown, total) = p.preview_text("f.rs", Some("rs"), code);
    assert_eq!(shown, by_syntect("rs", code, ""));
    assert_eq!(total, 4);
}

#[test]
fn fence_block_from_given_highlighting() {
    let lines = vec![md_chars("```"), md_chars("a"), md_chars("b"), md_chars("```")];
    let mut out: Vec<char> = md_chars("x");
    append_fence(&mut out, &lines, 1, 3, &Some(md_chars("<coloured>")));
    assert_eq!(out.iter().collect::<String>(), "x<coloured>\n");
    let mut out: Vec<char> = Vec::new();
    append_fence(&mut out, &lines, 1, 3, &None);
    assert_eq!(out.iter().collect::<String>(), "  \x1b[2ma\x1b[0m\n  \x1b[2mb\x1b[0m\n\n");
    let mut out: Vec<char> = Vec::new();
    append_fence(&mut out, &lines, 1, 1, &None);
    assert_eq!(out.iter().collect::<String>(), "\n");
}

#[test]
fn shown_line_from_given_text() {
    let mut out: Vec<char> = md_chars("a");
    append_shown_line(&mut out, "  ", &Some("text".to_string()));
    append_shown_line(&mut out, "  ", &None);
    append_shown_line(&mut out, "", &Some("z".to_string()));
    assert_eq!(out.iter().collect::<String>(), "a  textz");
}

#[test]
fn highlighted_fence_needs_a_language() {
    let p = Previewer::new();
    let lines = vec![md_chars("x"), md_chars("let x = 1;"), md_chars("y")];
    assert!(highlight_fence(&p, &md_chars(""), &lines, 1, 2).is_none());
    assert!(highlight_fence(&p, &md_chars("zzz"), &lines, 1, 2).is_none());
    let got: String = highlight_fence(&p, &md_chars("rust"), &lines, 1, 2).unwrap().into_iter().collect();
    assert_eq!(got, by_syntect("rust", "let x = 1;\n", "  "));
    let got: String = highlight_fence(&p, &md_chars("rust"), &lines, 1, 1).unwrap().into_iter().collect();
    assert_eq!(got, by_syntect("rust", "\n", "  "));
}

#[test]
fn whole_document() {
    let p = Previewer::new();
    let input = "# Title\r\n\r\nSome *text*.\n\n- one\n- two\n\n---\n> q\n1. n\n";
    let expected = "\x1b[1m\x1b[36mTitle\x1b[0m\n\nSome \x1b[3mtext\x1b[0m.\n\n  \x1b[34m•\x1b[0m one\n  \x1b[34m•\x1b[0m two\n\n\x1b[2m────────────────────────────────\x1b[0m\n  \x1b[2m│\x1b[0m q\n  n\n";
    assert_eq!(render_markdown(&p, input), expected);
    assert_eq!(render_markdown(&p, ""), "");
    let chars: String = render_markdown_chars(&p, &md_chars(input)).into_iter().collect();
    assert_eq!(chars, expected);
}
