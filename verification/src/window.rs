//! The viewport window: which rows of a long list are on screen.

use vstd::prelude::*;

verus! {

/// The index of the first row on screen: the selection stands in the middle of
/// the viewport wherever the list is longer than the viewport and its ends
/// allow it.
pub open spec fn window_start(total: nat, selected: nat, height: nat) -> nat {
    if total <= height {
        0
    } else if selected <= height / 2 {
        0
    } else if selected - height / 2 >= total - height {
        (total - height) as nat
    } else {
        (selected - height / 2) as nat
    }
}

/// Computes the scroll offset for a list of `total` rows of which `selected`
/// is the current one, shown in a viewport of `height` rows.
pub fn scroll_offset(total: usize, selected: usize, height: usize) -> (offset: usize)
    ensures
        offset == window_start(total as nat, selected as nat, height as nat),
        offset + height <= total || offset == 0,
{
    if total <= height {
        return 0;
    }
    let half: usize = height / 2;
    let centred: usize = if selected >= half { selected - half } else { 0 };
    let last: usize = total - height;
    if centred < last { centred } else { last }
}

/// The rows of the tree panel that hold the list: all but the status bar.
pub open spec fn list_height(area_height: nat) -> nat {
    if area_height >= 1 {
        (area_height - 1) as nat
    } else {
        0
    }
}

/// The rows of the tree panel that hold entries: the list without its header
/// and separator.
pub open spec fn entries_height(area_height: nat) -> nat {
    if area_height >= 3 {
        (area_height - 3) as nat
    } else {
        0
    }
}

/// The index of the first entry on screen in a tree panel of `area_height`
/// rows: the window is as high as the rows that hold entries, so that the
/// selection is on screen.
pub open spec fn first_visible(total: nat, selected: nat, area_height: nat) -> nat {
    window_start(total, selected, entries_height(area_height))
}

/// The index behind the last entry on screen.
pub open spec fn end_visible(total: nat, selected: nat, area_height: nat) -> nat {
    let end = first_visible(total, selected, area_height) + entries_height(area_height);
    if end < total {
        end
    } else {
        total
    }
}

/// Computes which entries are on screen: the first, and the index behind the
/// last.
pub fn visible_range(total: usize, selected: usize, area_height: u16) -> (range: (usize, usize))
    ensures
        range.0 == first_visible(total as nat, selected as nat, area_height as nat),
        range.1 == end_visible(total as nat, selected as nat, area_height as nat),
        range.0 <= range.1 <= total,
{
    let entries: usize = if area_height >= 3 { (area_height - 3) as usize } else { 0 };
    let start = scroll_offset(total, selected, entries);
    let end: usize = if total - start > entries { start + entries } else { total };
    (start, end)
}

/// The entry that is shown on the row `y` of the tree panel, if one is: the
/// rows 0 and 1 hold the header and the separator, the entries follow.
pub open spec fn row_at(total: nat, selected: nat, area_height: nat, y: nat) -> Option<nat> {
    let start = first_visible(total, selected, area_height);
    if y < 2 || y - 2 >= entries_height(area_height) || start + y - 2 >= total {
        None
    } else {
        Some((start + y - 2) as nat)
    }
}

/// Finds the entry that a click on the row `y` of the tree panel hits.
pub fn clicked_row(total: usize, selected: usize, y: u16, area_height: u16) -> (row: Option<usize>)
    ensures
        match row {
            Some(index) => row_at(total as nat, selected as nat, area_height as nat, y as nat)
                == Some(index as nat),
            None => row_at(total as nat, selected as nat, area_height as nat, y as nat) is None,
        },
{
    let (start, end) = visible_range(total, selected, area_height);
    if y < 2 {
        return None;
    }
    let entry: usize = (y - 2) as usize;
    if entry >= end - start {
        return None;
    }
    Some(start + entry)
}

/// A click hits an entry exactly where that entry is drawn: the entries on
/// screen are those that a click can hit, each on the row on which it is
/// shown, and both are counted from the same first entry.
pub proof fn lemma_click_hits_what_is_drawn(
    total: nat,
    selected: nat,
    area_height: nat,
    index: nat,
)
    ensures
        first_visible(total, selected, area_height) <= index < end_visible(
            total,
            selected,
            area_height,
        ) <==> exists|y: nat| row_at(total, selected, area_height, y) == Some(index),
        first_visible(total, selected, area_height) <= index < end_visible(
            total,
            selected,
            area_height,
        ) ==> row_at(
            total,
            selected,
            area_height,
            (index - first_visible(total, selected, area_height) + 2) as nat,
        ) == Some(index),
{
    let start = first_visible(total, selected, area_height);
    if start <= index < end_visible(total, selected, area_height) {
        let y = (index - start + 2) as nat;
        assert(row_at(total, selected, area_height, y) == Some(index));
    }
}

/// The selected entry is on screen wherever the panel has a row for entries.
pub proof fn lemma_selection_is_drawn(total: nat, selected: nat, area_height: nat)
    requires
        selected < total,
        area_height > 3,
    ensures
        first_visible(total, selected, area_height) <= selected < end_visible(
            total,
            selected,
            area_height,
        ),
        row_at(
            total,
            selected,
            area_height,
            (selected - first_visible(total, selected, area_height) + 2) as nat,
        ) == Some(selected),
{
}

/// A selected row of the list is always inside the window.
pub proof fn lemma_selection_in_window(total: nat, selected: nat, height: nat)
    requires
        selected < total,
        height > 0,
    ensures
        window_start(total, selected, height) <= selected < window_start(total, selected, height)
            + height,
{
}

} // verus!
