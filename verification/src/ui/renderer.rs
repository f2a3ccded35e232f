//! What the screen shows of the state, as plain values for a renderer to
//! paint: the search bar's text, the cells of a result row, the preview pane's
//! title and content.

use crate::matching::ScoredMatch;
use crate::preview::Preview;
use crate::ui::appstate::{AppState, StateView};
use std::collections::HashSet;
use vstd::prelude::*;
use vstd::std_specs::hash::*;

verus! {

/// How a character of a result row is painted.
#[derive(Clone, Copy, Debug, PartialEq, Eq, Structural)]
pub enum CellStyle {
    /// As the rest of the list.
    Plain,
    /// Set off as a character that the query matched.
    Matched,
    /// In the colours of the selected row.
    Selected,
}

/// One character of a result row.
#[derive(Clone, Copy, Debug, PartialEq, Eq)]
pub struct RowCell {
    pub ch: char,
    pub style: CellStyle,
}

impl RowCell {
    /// The cell that shows `ch` in `style`.
    pub fn new(ch: char, style: CellStyle) -> (cell: Self)
        ensures
            cell.ch == ch,
            cell.style == style,
    {
        RowCell { ch, style }
    }
}

/// The text of the search bar.
#[derive(Clone, Debug, PartialEq, Eq)]
pub struct SearchBarText {
    pub text: String,
    /// Whether `text` is the hint that stands in for an empty query.
    pub is_hint: bool,
}

/// The rows of the terminal that the result list cannot use: its frame and
/// the search bar.
pub const FRAME_ROWS: u16 = 6;

/// The hint that the search bar shows while the query is empty.
pub open spec fn search_hint() -> Seq<char> {
    "Type your query here"@
}

/// The title of the preview pane while nothing is selected.
pub open spec fn no_selection_title() -> Seq<char> {
    "No directory selected"@
}

/// The style of the character at place `i` of a row.
pub open spec fn cell_style(positions: Seq<u32>, i: int, selected: bool) -> CellStyle {
    if selected {
        CellStyle::Selected
    } else if 0 <= i <= u32::MAX && positions.contains(i as u32) {
        CellStyle::Matched
    } else {
        CellStyle::Plain
    }
}

/// The rows of the result list that fit a terminal of `height` rows.
pub fn visible_rows(height: u16) -> (rows: u16)
    ensures
        rows == if height >= FRAME_ROWS {
            height - FRAME_ROWS
        } else {
            0
        },
{
    if height >= FRAME_ROWS {
        height - FRAME_ROWS
    } else {
        0
    }
}

/// Whether a file name marks a hidden file: it begins with a dot.
pub fn is_hidden(name: &str) -> (hidden: bool)
    ensures
        hidden == (name@.len() > 0 && name@[0] == '.'),
{
    if name.is_empty() {
        false
    } else {
        name.get_char(0) == '.'
    }
}

/// The text of the search bar: the query, or the hint while the query is
/// empty.
pub fn search_bar_text(state: &AppState) -> (bar: SearchBarText)
    ensures
        bar.is_hint == (state@.query.len() == 0),
        bar.text@ == if state@.query.len() == 0 {
            search_hint()
        } else {
            state@.query
        },
{
    if state.query.as_str().is_empty() {
        SearchBarText { text: "Type your query here".to_owned(), is_hint: true }
    } else {
        SearchBarText { text: state.query.clone(), is_hint: false }
    }
}

/// The matched positions as a set.
fn position_set(positions: &Vec<u32>) -> (matched: HashSet<u32>)
    ensures
        forall|p: u32| #[trigger] matched@.contains(p) <==> positions@.contains(p),
{
    broadcast use group_hash_axioms;

    let mut matched: HashSet<u32> = HashSet::new();
    let mut k: usize = 0;
    while k < positions.len()
        invariant
            k <= positions.len(),
            forall|p: u32| #[trigger] matched@.contains(p) <==> positions@.take(k as int).contains(p),
        decreases positions.len() - k,
    {
        let ghost front = positions@.take(k as int);
        let ghost grown = positions@.take(k + 1);
        matched.insert(positions[k]);
        proof {
            assert(grown =~= front.push(positions@[k as int]));
            assert forall|p: u32| #[trigger] matched@.contains(p) <==> grown.contains(p) by {
                if front.contains(p) {
                    let at = choose|at: int| 0 <= at < front.len() && front[at] == p;
                    assert(grown[at] == p);
                }
                if p == positions@[k as int] {
                    assert(grown[k as int] == p);
                }
                if grown.contains(p) {
                    let at = choose|at: int| 0 <= at < grown.len() && grown[at] == p;
                    if at < k {
                        assert(front[at] == p);
                    }
                }
            }
        }
        k = k + 1;
    }
    assert(positions@.take(k as int) =~= positions@);
    matched
}

/// The style of the character at place `i` of a row whose matched positions
/// are `matched`.
fn style_at(matched: &HashSet<u32>, i: usize, selected: bool) -> (style: CellStyle)
    ensures
        style == if selected {
            CellStyle::Selected
        } else if i <= u32::MAX && matched@.contains(i as u32) {
            CellStyle::Matched
        } else {
            CellStyle::Plain
        },
{
    broadcast use group_hash_axioms;

    if selected {
        CellStyle::Selected
    } else if i <= 0xffff_ffff && matched.contains(&(i as u32)) {
        CellStyle::Matched
    } else {
        CellStyle::Plain
    }
}

/// The cells of the row that shows `entry`: one for each character of its
/// name; in the selected row all are painted as selected, in any other the
/// characters at the matched positions are set off.
pub fn result_row(entry: &ScoredMatch, selected: bool) -> (row: Vec<RowCell>)
    ensures
        row@.len() == entry@.name.len(),
        forall|i: int|
            0 <= i < row@.len() ==> (#[trigger] row@[i]).ch == entry@.name[i] && row@[i].style
                == cell_style(entry@.positions, i, selected),
{
    let matched = position_set(&entry.positions);
    let name = crate::text::chars_of(entry.name.as_str());
    let mut cells: Vec<RowCell> = Vec::new();
    let mut i: usize = 0;
    while i < name.len()
        invariant
            i <= name.len(),
            name@ == entry@.name,
            cells@.len() == i,
            forall|p: u32| #[trigger] matched@.contains(p) <==> entry.positions@.contains(p),
            forall|j: int|
                0 <= j < i ==> (#[trigger] cells@[j]).ch == entry@.name[j] && cells@[j].style
                    == cell_style(entry@.positions, j, selected),
        decreases name.len() - i,
    {
        let ghost before = cells@;
        let cell = RowCell::new(name[i], style_at(&matched, i, selected));
        assert(cell.style == cell_style(entry@.positions, i as int, selected));
        cells.push(cell);
        assert forall|j: int| 0 <= j < i + 1 implies (#[trigger] cells@[j]).ch == entry@.name[j]
            && cells@[j].style == cell_style(entry@.positions, j, selected) by {
            if j < i {
                assert(cells@[j] == before[j]);
            }
        }
        i = i + 1;
    }
    cells
}

/// The title of the preview pane: the path that was noted for the preview, or
/// a notice while there is none.
pub fn preview_title(state: &AppState) -> (title: String)
    ensures
        title@ == match state@.selected_path {
            Some(path) => path,
            None => no_selection_title(),
        },
{
    match &state.selected_path {
        Some(path) => path.clone(),
        None => "No directory selected".to_owned(),
    }
}

/// The preview to show: the one kept for the selected match, where a path was
/// noted for the preview and such a preview is kept.
pub fn shown_preview(state: &AppState) -> (shown: Option<&Preview>)
    ensures
        match shown {
            Some(preview) => state@.selected_path is Some && 0 <= state@.selected
                < state@.results.len() && state.preview_cache@.contains_key(
                state@.results[state@.selected].id as usize,
            ) && *preview == state.preview_cache@[state@.results[state@.selected].id as usize],
            None => state@.selected_path is None || !(0 <= state@.selected < state@.results.len())
                || !state.preview_cache@.contains_key(
                state@.results[state@.selected].id as usize,
            ),
        },
{
    broadcast use group_hash_axioms;

    if state.selected_path.is_some() && state.selected_idx < state.filtered_files.len() {
        assert(state@.results[state.selected_idx as int]
            == state.filtered_files[state.selected_idx as int]@);
        state.preview_cache.get(&state.filtered_files[state.selected_idx].id)
    } else {
        None
    }
}

} // verus!
