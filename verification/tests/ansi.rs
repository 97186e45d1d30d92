use treeview::ansi::{basic_color, bright_color, parse_ansi_chars, parse_ansi_line};
use treeview::style::{Color, Style};

fn styled(change: fn(&mut Style)) -> Style {
    let mut style = Style::new();
    change(&mut style);
    style
}

#[test]
fn bold_red_run_is_one_span() {
    let line = parse_ansi_line("\x1b[1;31mERR\x1b[0m");
    assert_eq!(line.len(), 1);
    assert_eq!(line[0].text, "ERR");
    assert_eq!(
        line[0].style,
        styled(|s| {
            s.bold = true;
            s.fg = Some(Color::Red);
        })
    );
}

#[test]
fn reset_clears_the_style_of_later_runs() {
    let line = parse_ansi_line("\x1b[1;4;31;42mERR\x1b[0m ok");
    assert_eq!(line.len(), 2);
    assert_eq!(line[0].text, "ERR");
    assert!(line[0].style.bold && line[0].style.underlined);
    assert_eq!(line[0].style.bg, Some(Color::Green));
    assert_eq!(line[1].text, " ok");
    assert_eq!(line[1].style, Style::new());
}

#[test]
fn indexed_foreground() {
    let line = parse_ansi_line("\x1b[38;5;200mX\x1b[0m");
    assert_eq!(line.len(), 1);
    assert_eq!(line[0].text, "X");
    assert_eq!(line[0].style, styled(|s| s.fg = Some(Color::Indexed(200))));
}

#[test]
fn rgb_foreground() {
    let line = parse_ansi_line("\x1b[38;2;10;20;30mX\x1b[0m");
    assert_eq!(line.len(), 1);
    assert_eq!(line[0].style, styled(|s| s.fg = Some(Color::Rgb(10, 20, 30))));
}

#[test]
fn indexed_and_rgb_background() {
    let line = parse_ansi_line("\x1b[48;5;7ma\x1b[48;2;1;2;3mb");
    assert_eq!(line.len(), 2);
    assert_eq!(line[0].style, styled(|s| s.bg = Some(Color::Indexed(7))));
    assert_eq!(line[1].style, styled(|s| s.bg = Some(Color::Rgb(1, 2, 3))));
}

#[test]
fn extended_colour_takes_its_values_with_it() {
    // The 1 after 38;5 is the colour index, not "bold".
    let line = parse_ansi_line("\x1b[38;5;1;4mX");
    assert_eq!(
        line[0].style,
        styled(|s| {
            s.fg = Some(Color::Indexed(1));
            s.underlined = true;
        })
    );
    // An incomplete extended colour changes nothing; what follows is read as codes.
    let line = parse_ansi_line("\x1b[38;5mX");
    assert_eq!(line[0].style, Style::new());
    let line = parse_ansi_line("\x1b[38;2;1;2mX");
    assert_eq!(
        line[0].style,
        styled(|s| {
            s.bold = true;
            s.dim = true;
        })
    );
}

#[test]
fn plain_text_is_one_plain_run() {
    let line = parse_ansi_line("hello world");
    assert_eq!(line.len(), 1);
    assert_eq!(line[0].text, "hello world");
    assert_eq!(line[0].style, Style::new());
    assert!(parse_ansi_line("").is_empty());
}

#[test]
fn text_is_kept_as_characters() {
    let line = parse_ansi_line("\x1b[32mgrüße → 日本\x1b[0m!");
    assert_eq!(line.len(), 2);
    assert_eq!(line[0].text, "grüße → 日本");
    assert_eq!(line[1].text, "!");
}

#[test]
fn modifiers_are_set_and_cleared() {
    let line = parse_ansi_line("\x1b[1;2;3;4;7;9ma\x1b[22mb\x1b[23;24;27mc");
    assert_eq!(line.len(), 3);
    let all = styled(|s| {
        s.bold = true;
        s.dim = true;
        s.italic = true;
        s.underlined = true;
        s.reversed = true;
        s.crossed_out = true;
    });
    assert_eq!(line[0].style, all);
    assert_eq!(
        line[1].style,
        styled(|s| {
            s.italic = true;
            s.underlined = true;
            s.reversed = true;
            s.crossed_out = true;
        })
    );
    assert_eq!(line[2].style, styled(|s| s.crossed_out = true));
}

#[test]
fn named_and_bright_colours() {
    let line = parse_ansi_line("\x1b[30;47ma\x1b[90;107mb\x1b[97;100mc\x1b[36;45md");
    assert_eq!(line[0].style.fg, Some(Color::Black));
    assert_eq!(line[0].style.bg, Some(Color::Gray));
    assert_eq!(line[1].style.fg, Some(Color::DarkGray));
    assert_eq!(line[1].style.bg, Some(Color::White));
    assert_eq!(line[2].style.fg, Some(Color::White));
    assert_eq!(line[2].style.bg, Some(Color::DarkGray));
    assert_eq!(line[3].style.fg, Some(Color::Cyan));
    assert_eq!(line[3].style.bg, Some(Color::Magenta));
}

#[test]
fn colour_tables() {
    let basic = [
        Color::Black,
        Color::Red,
        Color::Green,
        Color::Yellow,
        Color::Blue,
        Color::Magenta,
        Color::Cyan,
        Color::Gray,
    ];
    let bright = [
        Color::DarkGray,
        Color::LightRed,
        Color::LightGreen,
        Color::LightYellow,
        Color::LightBlue,
        Color::LightMagenta,
        Color::LightCyan,
        Color::White,
    ];
    for n in 0..8u16 {
        assert_eq!(basic_color(n), basic[n as usize]);
        assert_eq!(bright_color(n), bright[n as usize]);
    }
    assert_eq!(basic_color(8), Color::Reset);
    assert_eq!(bright_color(9), Color::Reset);
    let mut all: Vec<Color> = Vec::new();
    for n in 0..8u16 {
        all.push(basic_color(n));
        all.push(bright_color(n));
    }
    for i in 0..all.len() {
        for j in 0..i {
            assert_ne!(all[i], all[j]);
        }
    }
}

#[test]
fn white_and_bright_white_are_two_colours() {
    let line = parse_ansi_line("\x1b[37ma\x1b[97mb\x1b[47;107mc");
    assert_eq!(line[0].style.fg, Some(Color::Gray));
    assert_eq!(line[1].style.fg, Some(Color::White));
    assert_eq!(line[2].style.bg, Some(Color::White));
    assert_ne!(line[0].style.fg, line[1].style.fg);
}

#[test]
fn default_colours_reset_one_side_only() {
    let line = parse_ansi_line("\x1b[1;31;42ma\x1b[39mb\x1b[49mc");
    assert_eq!(line[1].style.fg, Some(Color::Reset));
    assert_eq!(line[1].style.bg, Some(Color::Green));
    assert!(line[1].style.bold);
    assert_eq!(line[2].style.fg, Some(Color::Reset));
    assert_eq!(line[2].style.bg, Some(Color::Reset));
    assert!(line[2].style.bold);
}

#[test]
fn missing_parameters_are_zero() {
    let line = parse_ansi_line("\x1b[1ma\x1b[mb");
    assert_eq!(line.len(), 2);
    assert!(line[0].style.bold);
    assert_eq!(line[1].style, Style::new());
    let line = parse_ansi_line("\x1b[1ma\x1b[;4mb");
    assert_eq!(line[1].style, styled(|s| s.underlined = true));
}

#[test]
fn sequence_with_another_terminator_is_dropped() {
    let line = parse_ansi_line("a\x1b[1;31Kb");
    assert_eq!(line.len(), 2);
    assert_eq!(line[0].text, "a");
    assert_eq!(line[1].text, "b");
    assert_eq!(line[1].style, Style::new());
    let line = parse_ansi_line("a\x1b[2Jb\x1b[Hc");
    assert_eq!(line.len(), 3);
    assert_eq!(line[2].text, "c");
}

#[test]
fn unfinished_sequence_is_dropped() {
    let line = parse_ansi_line("abc\x1b[1;3");
    assert_eq!(line.len(), 1);
    assert_eq!(line[0].text, "abc");
    let line = parse_ansi_line("abc\x1b[");
    assert_eq!(line.len(), 1);
    // An escape that opens no sequence is text.
    let line = parse_ansi_line("a\x1bb\x1b");
    assert_eq!(line.len(), 1);
    assert_eq!(line[0].text, "a\x1bb\x1b");
}

#[test]
fn unknown_codes_are_passed_over() {
    let line = parse_ansi_line("\x1b[5;6;8;21;50;1mX");
    assert_eq!(line[0].style, styled(|s| s.bold = true));
}

#[test]
fn parameters_that_are_too_large_are_no_codes() {
    // Neither 65537 nor 65536 is read as 1 or as 0.
    let line = parse_ansi_line("\x1b[4ma\x1b[65537mb\x1b[65536mc\x1b[99999999999999999999md");
    assert_eq!(line.len(), 4);
    for span in &line {
        assert_eq!(span.style, styled(|s| s.underlined = true));
    }
    // The largest value that fits is no code either, and what follows it is read.
    let line = parse_ansi_line("\x1b[65535;1mX");
    assert_eq!(line[0].style, styled(|s| s.bold = true));
}

#[test]
fn colour_values_beyond_eight_bits_set_no_colour() {
    let line = parse_ansi_line("\x1b[38;5;300mX");
    assert_eq!(line[0].style, Style::new());
    let line = parse_ansi_line("\x1b[31;38;5;256;1mX");
    assert_eq!(
        line[0].style,
        styled(|s| {
            s.fg = Some(Color::Red);
            s.bold = true;
        })
    );
    let line = parse_ansi_line("\x1b[48;2;1;2;256;4mX");
    assert_eq!(line[0].style, styled(|s| s.underlined = true));
    let line = parse_ansi_line("\x1b[38;5;255;48;2;255;0;255mX");
    assert_eq!(line[0].style.fg, Some(Color::Indexed(255)));
    assert_eq!(line[0].style.bg, Some(Color::Rgb(255, 0, 255)));
}

#[test]
fn style_carries_over_runs() {
    let line = parse_ansi_line("\x1b[1ma\x1b[31mb\x1b[4mc");
    assert_eq!(line.len(), 3);
    assert_eq!(
        line[2].style,
        styled(|s| {
            s.bold = true;
            s.fg = Some(Color::Red);
            s.underlined = true;
        })
    );
}

#[test]
fn characters_and_text_give_the_same_runs() {
    let text = "\x1b[1;31mERR\x1b[0m: \x1b[38;5;200mX";
    let chars: Vec<char> = text.chars().collect();
    let a = parse_ansi_line(text);
    let b = parse_ansi_chars(&chars);
    assert_eq!(a.len(), b.len());
    for i in 0..a.len() {
        assert_eq!(a[i].text, b[i].text);
        assert_eq!(a[i].style, b[i].style);
    }
}

#[test]
fn no_text_is_lost() {
    let cases = [
        ("a\x1b[1mb\x1b[0mc", "abc"),
        ("\x1b[31m\x1b[1mx\x1b[2Ky\x1b[", "xy"),
        ("plain", "plain"),
        ("\x1b[38;5;1mü\x1b[Xö\x1bä", "üö\x1bä"),
        ("\x1b[1;2;3", ""),
    ];
    for (input, text) in cases {
        let joined: String = parse_ansi_line(input).iter().map(|s| s.text.as_str()).collect();
        assert_eq!(joined, text, "{:?}", input);
    }
}

#[test]
fn written_code_is_read_back() {
    for code in [0u32, 1, 2, 3, 4, 7, 9, 22, 31, 36, 44, 97, 105, 300, 65535] {
        let line = parse_ansi_line(&format!("\x1b[{}mtext", code));
        let alone = parse_ansi_line(&format!("\x1b[{}m", code));
        assert!(alone.is_empty());
        assert_eq!(line.len(), 1);
        assert_eq!(line[0].text, "text");
        let again = parse_ansi_line(&format!("\x1b[{}m\x1b[{}mtext", code, code));
        assert_eq!(again[0].style, line[0].style);
    }
    assert!(parse_ansi_line("\x1b[1mtext")[0].style.bold);
    assert_eq!(parse_ansi_line("\x1b[36mtext")[0].style.fg, Some(Color::Cyan));
}
