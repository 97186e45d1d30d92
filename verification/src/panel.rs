//! The two panels as lines of styled text: the tree on the left, the preview
//! on the right. Drawing them on a terminal is left to the caller.

use vstd::prelude::*;
use crate::ansi::{parse_ansi_chars, styled_runs};
use crate::lines::{lines_of, split_lines, texts};
use crate::preview::{ContentModel, PreviewContent};
use crate::style::{Color, Run, Style, StyledLine, StyledSpan, lines_model, runs_of};
use crate::text::{
    append_decimal,
    append_padding,
    append_str,
    chars_of,
    decimal,
    padding,
    string_of,
};
use crate::tree::{RowModel, VisibleRow, rows_model};
use crate::window::{end_visible, first_visible, list_height, row_at, visible_range};

verus! {

/// The sign in front of a row: a triangle that points down at an open
/// directory and to the right at a closed one, nothing at a file.
pub open spec fn icon(row: RowModel) -> Seq<char> {
    if row.is_directory {
        if row.is_expanded {
            seq!['\u{25BC}', ' ']
        } else {
            seq!['\u{25B6}', ' ']
        }
    } else {
        seq![' ', ' ']
    }
}

/// A row as it is written: indented by its depth, with its sign and name, a
/// slash behind a directory and an arrow behind a symbolic link.
pub open spec fn row_text(row: RowModel) -> Seq<char> {
    seq![' '] + padding(row.depth) + icon(row) + row.name + (if row.is_directory {
        seq!['/']
    } else {
        Seq::empty()
    }) + (if row.is_symlink {
        seq![' ', '\u{2192}']
    } else {
        Seq::empty()
    }) + seq![' ']
}

/// The style of a row: the selected one stands out, a directory is coloured.
pub open spec fn row_style(row: RowModel, selected: bool) -> Style {
    if selected {
        Style { fg: Some(Color::Green), bold: true, reversed: true, ..Style::plain() }
    } else if row.is_directory {
        Style { fg: Some(Color::Cyan), ..Style::plain() }
    } else {
        Style::plain()
    }
}

/// A line that is one run.
pub open spec fn one_run(text: Seq<char>, style: Style) -> Seq<Run> {
    seq![Run { text, style }]
}

/// The header of the tree panel: the root, bold and blue.
pub open spec fn header_line(root: Seq<char>) -> Seq<Run> {
    one_run(seq![' '] + root, Style { fg: Some(Color::Blue), bold: true, ..Style::plain() })
}

/// The separator below the header: a grey line as wide as the panel.
pub open spec fn separator_line(width: nat) -> Seq<Run> {
    one_run(
        Seq::new(width, |i: int| '\u{2500}'),
        Style { fg: Some(Color::DarkGray), ..Style::plain() },
    )
}

/// The status bar: the number of rows and the keys.
pub open spec fn status_line(total: nat) -> Seq<Run> {
    one_run(
        seq![' '] + decimal(total) + " items | j/k:nav l:expand h:collapse q:quit"@,
        Style { fg: Some(Color::DarkGray), ..Style::plain() },
    )
}

/// The line of the row at `index`.
pub open spec fn entry_line(rows: Seq<RowModel>, index: int, selected: nat) -> Seq<Run> {
    one_run(row_text(rows[index]), row_style(rows[index], index == selected))
}

/// The header, the separator and the entries that are on screen.
pub open spec fn panel_top(
    rows: Seq<RowModel>,
    selected: nat,
    root: Seq<char>,
    width: nat,
    height: nat,
    end: int,
) -> Seq<Seq<Run>> {
    let start = first_visible(rows.len(), selected, height) as int;
    seq![header_line(root), separator_line(width)] + Seq::new(
        (end - start) as nat,
        |k: int| entry_line(rows, start + k, selected),
    )
}

/// The lines of the tree panel: header, separator, the entries on screen,
/// empty lines down to the last row, and the status bar on that.
pub open spec fn tree_panel(
    rows: Seq<RowModel>,
    selected: nat,
    root: Seq<char>,
    width: nat,
    height: nat,
) -> Seq<Seq<Run>> {
    let top = panel_top(
        rows,
        selected,
        root,
        width,
        height,
        end_visible(rows.len(), selected, height) as int,
    );
    let blank = if top.len() < list_height(height) {
        Seq::new((list_height(height) - top.len()) as nat, |k: int| Seq::<Run>::empty())
    } else {
        Seq::empty()
    };
    top + blank + seq![status_line(rows.len())]
}

/// The model of lines with one more line is the model with one more line.
proof fn lemma_model_push(lines: Seq<Vec<StyledSpan>>, line: Vec<StyledSpan>)
    ensures
        lines_model(lines.push(line)) == lines_model(lines).push(runs_of(line@)),
{
    assert(lines_model(lines.push(line)) =~= lines_model(lines).push(runs_of(line@)));
}

/// The line that the tree panel shows on the row `y` is the line of the entry
/// that a click on the row `y` hits.
pub proof fn lemma_click_hits_the_line_drawn(
    rows: Seq<RowModel>,
    selected: nat,
    root: Seq<char>,
    width: nat,
    height: nat,
    y: nat,
)
    requires
        row_at(rows.len(), selected, height, y) is Some,
    ensures
        y < tree_panel(rows, selected, root, width, height).len(),
        tree_panel(rows, selected, root, width, height)[y as int] == entry_line(
            rows,
            row_at(rows.len(), selected, height, y)->0 as int,
            selected,
        ),
{
    let start = first_visible(rows.len(), selected, height) as int;
    let end = end_visible(rows.len(), selected, height) as int;
    let top = panel_top(rows, selected, root, width, height, end);
    let shown = Seq::new((end - start) as nat, |k: int| entry_line(rows, start + k, selected));
    assert(top == seq![header_line(root), separator_line(width)] + shown);
    assert(top[y as int] == shown[y - 2]);
}

/// Makes a line of one span.
fn line_of(text: &Vec<char>, style: Style) -> (line: StyledLine)
    ensures
        runs_of(line@) == one_run(text@, style),
{
    let mut line: Vec<StyledSpan> = Vec::new();
    line.push(StyledSpan { text: string_of(text), style });
    assert(runs_of(line@) =~= one_run(text@, style));
    line
}

/// Writes a row.
fn row_line(row: &VisibleRow, selected: bool) -> (line: StyledLine)
    ensures
        runs_of(line@) == one_run(row_text(row@), row_style(row@, selected)),
{
    let mut text: Vec<char> = Vec::new();
    text.push(' ');
    append_padding(&mut text, row.depth);
    if row.is_directory {
        if row.is_expanded {
            text.push('\u{25BC}');
        } else {
            text.push('\u{25B6}');
        }
        text.push(' ');
    } else {
        text.push(' ');
        text.push(' ');
    }
    append_str(&mut text, row.name.as_str());
    if row.is_directory {
        text.push('/');
    }
    if row.is_symlink {
        text.push(' ');
        text.push('\u{2192}');
    }
    text.push(' ');
    assert(text@ =~= row_text(row@));
    let mut style = Style::new();
    if selected {
        style.fg = Some(Color::Green);
        style.bold = true;
        style.reversed = true;
    } else if row.is_directory {
        style.fg = Some(Color::Cyan);
    }
    line_of(&text, style)
}

/// Writes the tree panel: the lines that show `rows` with the row `selected`
/// in a panel `width` wide and `height` high, under the heading `root`.
pub fn tree_lines(
    rows: &Vec<VisibleRow>,
    selected: usize,
    root: &str,
    width: u16,
    height: u16,
) -> (lines: Vec<StyledLine>)
    ensures
        lines_model(lines@) == tree_panel(
            rows_model(rows@),
            selected as nat,
            root@,
            width as nat,
            height as nat,
        ),
{
    let ghost model = rows_model(rows@);
    let (start, end) = visible_range(rows.len(), selected, height);
    let mut lines: Vec<StyledLine> = Vec::new();

    let mut header: Vec<char> = Vec::new();
    header.push(' ');
    append_str(&mut header, root);
    let mut header_style = Style::new();
    header_style.fg = Some(Color::Blue);
    header_style.bold = true;
    assert(header@ =~= seq![' '] + root@);
    lines.push(line_of(&header, header_style));

    let mut rule: Vec<char> = Vec::new();
    let mut w: u16 = 0;
    while w < width
        invariant
            w <= width,
            rule@ == Seq::new(w as nat, |i: int| '\u{2500}'),
        decreases width - w,
    {
        rule.push('\u{2500}');
        w += 1;
        assert(rule@ =~= Seq::new(w as nat, |i: int| '\u{2500}'));
    }
    let mut grey = Style::new();
    grey.fg = Some(Color::DarkGray);
    lines.push(line_of(&rule, grey));
    assert(lines_model(lines@) =~= panel_top(
        model,
        selected as nat,
        root@,
        width as nat,
        height as nat,
        start as int,
    ));

    let mut i: usize = start;
    while i < end
        invariant
            start <= i <= end <= rows.len(),
            model == rows_model(rows@),
            start == first_visible(model.len(), selected as nat, height as nat),
            lines_model(lines@) == panel_top(
                model,
                selected as nat,
                root@,
                width as nat,
                height as nat,
                i as int,
            ),
        decreases end - i,
    {
        let ghost before = lines@;
        let line = row_line(&rows[i], i == selected);
        lines.push(line);
        proof {
            lemma_model_push(before, line);
            assert(model[i as int] == rows[i as int]@);
            assert(runs_of(line@) == entry_line(model, i as int, selected as nat));
            let shown = Seq::new(
                (i - start) as nat,
                |k: int| entry_line(model, start + k, selected as nat),
            );
            let longer = Seq::new(
                (i + 1 - start) as nat,
                |k: int| entry_line(model, start + k, selected as nat),
            );
            assert(longer =~= shown.push(entry_line(model, i as int, selected as nat)));
            let head = seq![header_line(root@), separator_line(width as nat)];
            assert((head + shown).push(entry_line(model, i as int, selected as nat)) =~= head
                + longer);
        }
        assert(lines_model(lines@) =~= panel_top(
            model,
            selected as nat,
            root@,
            width as nat,
            height as nat,
            i + 1,
        ));
        i += 1;
    }
    let ghost top = lines_model(lines@);
    let list: usize = if height >= 1 { (height - 1) as usize } else { 0 };
    assert(lines_model(lines@) =~= top + Seq::new(0, |k: int| Seq::<Run>::empty()));
    while lines.len() < list
        invariant
            top.len() <= lines.len(),
            top.len() < list ==> lines.len() <= list,
            top.len() >= list ==> lines.len() == top.len(),
            lines_model(lines@) == top + Seq::new(
                (lines.len() - top.len()) as nat,
                |k: int| Seq::<Run>::empty(),
            ),
        decreases list - lines.len(),
    {
        let blank: Vec<StyledSpan> = Vec::new();
        assert(runs_of(blank@) =~= Seq::<Run>::empty());
        let ghost before = lines@;
        lines.push(blank);
        proof {
            lemma_model_push(before, blank);
            let blanks = Seq::new((before.len() - top.len()) as nat, |k: int| Seq::<Run>::empty());
            let more = Seq::new(
                (before.len() + 1 - top.len()) as nat,
                |k: int| Seq::<Run>::empty(),
            );
            assert(more =~= blanks.push(Seq::<Run>::empty()));
            assert((top + blanks).push(Seq::<Run>::empty()) =~= top + more);
        }
        assert(lines_model(lines@) =~= top + Seq::new(
            (lines.len() - top.len()) as nat,
            |k: int| Seq::<Run>::empty(),
        ));
    }
    let mut status: Vec<char> = Vec::new();
    status.push(' ');
    append_decimal(&mut status, rows.len() as u64);
    append_str(&mut status, " items | j/k:nav l:expand h:collapse q:quit");
    let ghost padded = lines_model(lines@);
    let ghost before = lines@;
    let last = line_of(&status, grey);
    lines.push(last);
    proof {
        lemma_model_push(before, last);
        assert(status@ =~= seq![' '] + decimal(model.len())
            + " items | j/k:nav l:expand h:collapse q:quit"@);
        assert(padded.push(status_line(model.len())) =~= padded + seq![status_line(model.len())]);
        assert(top == panel_top(
            model,
            selected as nat,
            root@,
            width as nat,
            height as nat,
            end_visible(model.len(), selected as nat, height as nat) as int,
        ));
        assert(list == list_height(height as nat));
        if top.len() < list {
            assert(before.len() == list);
        } else {
            assert(before.len() == top.len());
            assert(padded =~= top);
        }
    }
    assert(lines_model(lines@) =~= tree_panel(
        model,
        selected as nat,
        root@,
        width as nat,
        height as nat,
    ));
    lines
}

/// The text that the preview panel shows for `content`.
pub open spec fn content_text(content: ContentModel) -> Seq<char> {
    match content {
        ContentModel::Text(s) => s,
        ContentModel::Directory(s) => s,
        ContentModel::Binary(s) => s,
        ContentModel::Empty => "(empty file)"@,
        ContentModel::Error(s) => s,
    }
}

/// The first line that is on screen after scrolling by `scroll`: the last
/// line where `scroll` goes beyond it.
pub open spec fn preview_start(total: nat, scroll: nat) -> nat {
    if total == 0 {
        0
    } else if scroll < total - 1 {
        scroll
    } else {
        (total - 1) as nat
    }
}

/// How many lines are on screen.
pub open spec fn preview_count(total: nat, scroll: nat, height: nat) -> nat {
    let left = (total - preview_start(total, scroll)) as nat;
    if height < left {
        height
    } else {
        left
    }
}

/// The lines of the preview panel: the lines of the content from the scroll
/// position on, as many as fit, each split into its styled runs.
pub open spec fn preview_panel(content: ContentModel, scroll: nat, height: nat) -> Seq<Seq<Run>> {
    let lines = lines_of(content_text(content));
    Seq::new(
        preview_count(lines.len(), scroll, height),
        |k: int| styled_runs(lines[preview_start(lines.len(), scroll) + k]),
    )
}

/// Writes the preview panel: the lines that show `content`, scrolled by
/// `scroll`, in a panel `height` high.
pub fn preview_lines(content: &PreviewContent, scroll: usize, height: u16) -> (lines: Vec<
    StyledLine,
>)
    ensures
        lines_model(lines@) == preview_panel(content@, scroll as nat, height as nat),
{
    let chars = match content {
        PreviewContent::Text(s) => chars_of(s.as_str()),
        PreviewContent::Directory(s) => chars_of(s.as_str()),
        PreviewContent::Binary(s) => chars_of(s.as_str()),
        PreviewContent::Empty => chars_of("(empty file)"),
        PreviewContent::Error(s) => chars_of(s.as_str()),
    };
    assert(chars@ == content_text(content@));
    let all = split_lines(&chars);
    let total = all.len();
    let start: usize = if total == 0 {
        0
    } else if scroll < total - 1 {
        scroll
    } else {
        total - 1
    };
    let left = total - start;
    let count: usize = if (height as usize) < left { height as usize } else { left };
    let mut lines: Vec<StyledLine> = Vec::new();
    let mut k: usize = 0;
    assert(lines_model(lines@) =~= Seq::new(
        0,
        |j: int| styled_runs(lines_of(chars@)[start + j]),
    ));
    while k < count
        invariant
            k <= count,
            start + count <= total == all.len(),
            texts(all@) == lines_of(chars@),
            lines_model(lines@) == Seq::new(
                k as nat,
                |j: int| styled_runs(lines_of(chars@)[start + j]),
            ),
        decreases count - k,
    {
        let ghost before = lines@;
        let line = parse_ansi_chars(&all[start + k]);
        lines.push(line);
        proof {
            lemma_model_push(before, line);
            assert(texts(all@)[start + k] == all[start + k]@);
            let shown = Seq::new(k as nat, |j: int| styled_runs(lines_of(chars@)[start + j]));
            let longer = Seq::new(
                (k + 1) as nat,
                |j: int| styled_runs(lines_of(chars@)[start + j]),
            );
            assert(longer =~= shown.push(styled_runs(lines_of(chars@)[start + k])));
        }
        assert(lines_model(lines@) =~= Seq::new(
            (k + 1) as nat,
            |j: int| styled_runs(lines_of(chars@)[start + j]),
        ));
        k += 1;
    }
    assert(lines_model(lines@) =~= preview_panel(content@, scroll as nat, height as nat));
    lines
}

} // verus!
