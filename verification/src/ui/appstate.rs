//! The state of a session: query, ranked results, selection, scroll position,
//! focus and the previews that were rendered so far.

use crate::matching::{lowercase, Candidate, CandidateView, MatchView, ScoredMatch};
use crate::preview::{placeholder_lines, placeholder_preview, Preview, SpanView, MAX_PREVIEW_LINES};
use crate::ranking::{all_matchable, candidate_views, lists_all_blank, rank_candidates, ranking_of, views};
use std::collections::HashMap;
use vstd::prelude::*;
use vstd::std_specs::hash::*;

verus! {

/// Which part of the screen takes the keys.
#[derive(Clone, Copy, Debug, PartialEq, Eq, Structural)]
pub enum Focus {
    /// Keys edit the query.
    SearchBar,
    /// Keys move the selection.
    Results,
}

/// Everything a session remembers between two keys.
pub struct AppState {
    /// The query as typed.
    pub query: String,
    /// The ranked matches of the query.
    pub filtered_files: Vec<ScoredMatch>,
    /// The part of the screen that takes the keys.
    pub focus: Focus,
    /// The place of the selected match in `filtered_files`; zero where there
    /// is no match.
    pub selected_idx: usize,
    /// The first row of the result list that is on screen.
    pub scroll_offset: usize,
    /// The path of the match whose preview is shown.
    pub selected_path: Option<String>,
    /// The previews rendered so far, by the candidate's place in the list.
    pub preview_cache: HashMap<usize, Preview>,
    /// The height of the preview pane.
    pub curr_preview_height: u16,
    /// The width of the preview pane.
    pub curr_preview_width: u16,
}

/// A session's state as plain values.
pub struct StateView {
    pub query: Seq<char>,
    pub results: Seq<MatchView>,
    pub focus: Focus,
    pub selected: int,
    pub scroll: int,
    pub selected_path: Option<Seq<char>>,
    pub cache: Map<usize, Seq<Seq<SpanView>>>,
    pub preview_height: int,
    pub preview_width: int,
}

/// An optional text as plain values.
pub open spec fn text_view(text: Option<String>) -> Option<Seq<char>> {
    match text {
        Some(t) => Some(t@),
        None => None,
    }
}

/// An optional preview as plain values.
pub open spec fn preview_view(preview: Option<Preview>) -> Option<Seq<Seq<SpanView>>> {
    match preview {
        Some(p) => Some(p@),
        None => None,
    }
}

impl View for AppState {
    type V = StateView;

    open spec fn view(&self) -> StateView {
        StateView {
            query: self.query@,
            results: views(self.filtered_files@),
            focus: self.focus,
            selected: self.selected_idx as int,
            scroll: self.scroll_offset as int,
            selected_path: text_view(self.selected_path),
            cache: self.preview_cache@.map_values(|p: Preview| p@),
            preview_height: self.curr_preview_height as int,
            preview_width: self.curr_preview_width as int,
        }
    }
}

/// The result list is up to date: it is the ranking of `candidates` for the
/// query in lower case, so every entry matches the query as it stands.
pub open spec fn in_sync(s: StateView, candidates: Seq<CandidateView>) -> bool {
    ranking_of(candidates, lowercase(s.query), s.results)
}

/// The selection is in range: it points at a match, or it is zero.
pub open spec fn selection_valid(s: StateView) -> bool {
    s.selected == 0 || 0 <= s.selected < s.results.len()
}

/// The selected match, if the list holds one at the selection.
pub open spec fn selected_match(s: StateView) -> Option<MatchView> {
    if 0 <= s.selected < s.results.len() {
        Some(s.results[s.selected])
    } else {
        None
    }
}

/// The state with a new result list: the selection and the scroll position go
/// back to the top where the list has become shorter.
pub open spec fn with_results(s: StateView, results: Seq<MatchView>) -> StateView {
    if results.len() < s.results.len() {
        StateView { results, selected: 0, scroll: 0, ..s }
    } else {
        StateView { results, ..s }
    }
}

/// The state after the preview was refreshed: the selected match's path is
/// noted; where nothing is selected the path and all previews are dropped.
pub open spec fn refreshed(s: StateView) -> StateView {
    match selected_match(s) {
        Some(m) => StateView { selected_path: Some(m.path), ..s },
        None => StateView { selected_path: None, cache: Map::empty(), ..s },
    }
}

/// The path to read for the preview: that of the selected match, where no
/// preview of it is kept yet.
pub open spec fn wanted_preview(s: StateView) -> Option<Seq<char>> {
    match selected_match(s) {
        Some(m) => if s.cache.contains_key(m.id as usize) {
            None
        } else {
            Some(m.path)
        },
        None => None,
    }
}

/// `lines` cut to the most lines that a preview shows.
pub open spec fn capped(lines: Seq<Seq<SpanView>>) -> Seq<Seq<SpanView>> {
    if lines.len() > MAX_PREVIEW_LINES {
        lines.take(MAX_PREVIEW_LINES as int)
    } else {
        lines
    }
}

/// The state after the outcome of reading the selected file was handed in:
/// where a match is selected that has no preview yet, it gets one, the
/// rendered lines or the placeholder; a preview that is kept stays as it is.
pub open spec fn stored(s: StateView, rendered: Option<Seq<Seq<SpanView>>>) -> StateView {
    match selected_match(s) {
        Some(m) => if s.cache.contains_key(m.id as usize) {
            s
        } else {
            let lines = match rendered {
                Some(lines) => capped(lines),
                None => placeholder_lines(s.preview_width, s.preview_height),
            };
            StateView { cache: s.cache.insert(m.id as usize, lines), ..s }
        },
        None => s,
    }
}

/// The first row on screen once the selection is brought into a window of
/// `rows` rows (of one row where `rows` is zero): the selection itself where
/// it was above the window, the row that puts it last where it was below, and
/// the old first row where it was inside.
pub open spec fn reconciled_scroll(scroll: int, selected: int, rows: int) -> int {
    let rows = if rows < 1 {
        1
    } else {
        rows
    };
    if selected < scroll {
        selected
    } else if selected - scroll >= rows {
        selected - rows + 1
    } else {
        scroll
    }
}

impl AppState {
    /// A new session on `all_files`: the empty query, whose ranking is taken
    /// at once, the first match selected, the search bar in focus, no preview.
    pub fn new(all_files: &Vec<Candidate>, matcher: &mut nucleo::Matcher) -> (state: Self)
        ensures
            state@.query.len() == 0,
            state@.focus == Focus::SearchBar,
            state@.selected == 0,
            state@.scroll == 0,
            state@.selected_path is None,
            state@.cache == Map::<usize, Seq<Seq<SpanView>>>::empty(),
            state@.preview_height == 0,
            state@.preview_width == 0,
            in_sync(state@, candidate_views(all_files@)),
            selection_valid(state@),
            all_matchable(candidate_views(all_files@), Seq::empty()) ==> lists_all_blank(
                candidate_views(all_files@),
                state@.results,
            ),
    {
        let mut state = AppState {
            query: String::new(),
            filtered_files: Vec::new(),
            focus: Focus::SearchBar,
            selected_idx: 0,
            scroll_offset: 0,
            selected_path: None,
            preview_cache: HashMap::new(),
            curr_preview_height: 0,
            curr_preview_width: 0,
        };
        proof {
            reveal_strlit("");
        }
        state.update_filtered_files("", all_files, matcher);
        assert(state@.query =~= ""@);
        assert(state@.cache =~= Map::<usize, Seq<Seq<SpanView>>>::empty());
        state
    }

    /// Replaces the result list by the ranking of `contents` for `query`,
    /// which is lowered first. Where the list becomes shorter, the selection
    /// and the scroll position go back to the top. The query that the state
    /// holds is left as it is.
    pub fn update_filtered_files(
        &mut self,
        query: &str,
        contents: &Vec<Candidate>,
        matcher: &mut nucleo::Matcher,
    )
        ensures
            final(self)@ == with_results(old(self)@, final(self)@.results),
            ranking_of(candidate_views(contents@), lowercase(query@), final(self)@.results),
            query@.len() == 0 && all_matchable(candidate_views(contents@), Seq::empty())
                ==> lists_all_blank(candidate_views(contents@), final(self)@.results),
            selection_valid(old(self)@) ==> selection_valid(final(self)@),
    {
        let ranked = rank_candidates(matcher, contents, query);
        if ranked.len() < self.filtered_files.len() {
            self.selected_idx = 0;
            self.scroll_offset = 0;
        }
        self.filtered_files = ranked;
    }

    /// Notes the selected match for the preview pane and says whether its file
    /// has to be read: returns the path where a match is selected that has no
    /// preview yet. Where nothing is selected, all previews are dropped.
    pub fn update_preview(&mut self) -> (request: Option<String>)
        ensures
            final(self)@ == refreshed(old(self)@),
            text_view(request) == wanted_preview(old(self)@),
            selection_valid(old(self)@) ==> selection_valid(final(self)@),
    {
        broadcast use group_hash_axioms;

        if self.selected_idx < self.filtered_files.len() {
            let id = self.filtered_files[self.selected_idx].id;
            let path = self.filtered_files[self.selected_idx].path.clone();
            assert(views(self.filtered_files@)[self.selected_idx as int] == self.filtered_files[self.selected_idx as int]@);
            let cached = self.preview_cache.contains_key(&id);
            if cached {
                self.selected_path = Some(path);
                None
            } else {
                self.selected_path = Some(path.clone());
                Some(path)
            }
        } else {
            self.selected_path = None;
            self.preview_cache.clear();
            assert(self@.cache =~= Map::<usize, Seq<Seq<SpanView>>>::empty());
            None
        }
    }

    /// Takes the outcome of reading the selected file: the rendered preview,
    /// or `None` where the file could not be read. Where a match is selected
    /// that has no preview yet, the preview, cut to `MAX_PREVIEW_LINES` lines,
    /// or else the placeholder is kept for it. A preview that is kept already
    /// is never replaced.
    pub fn store_preview(&mut self, rendered: Option<Preview>)
        ensures
            final(self)@ == stored(old(self)@, preview_view(rendered)),
            selection_valid(old(self)@) ==> selection_valid(final(self)@),
    {
        broadcast use group_hash_axioms;

        if self.selected_idx < self.filtered_files.len() {
            let id = self.filtered_files[self.selected_idx].id;
            assert(views(self.filtered_files@)[self.selected_idx as int] == self.filtered_files[self.selected_idx as int]@);
            if !self.preview_cache.contains_key(&id) {
                let preview = match rendered {
                    Some(mut preview) => {
                        let ghost whole = preview@;
                        if preview.lines.len() > MAX_PREVIEW_LINES {
                            preview.lines.truncate(MAX_PREVIEW_LINES);
                        }
                        assert(preview@ =~= capped(whole));
                        preview
                    },
                    None => placeholder_preview(self.curr_preview_width, self.curr_preview_height),
                };
                let ghost lines = preview@;
                let ghost before = self@.cache;
                self.preview_cache.insert(id, preview);
                assert(self@.cache =~= before.insert(id, lines));
            }
        }
    }

    /// Brings the selection into the window of `visible_rows` rows that
    /// starts at the scroll position, moving the window no further than
    /// needed.
    pub fn reconcile_scroll(&mut self, visible_rows: usize)
        ensures
            final(self)@ == (StateView {
                scroll: reconciled_scroll(
                    old(self)@.scroll,
                    old(self)@.selected,
                    visible_rows as int,
                ),
                ..old(self)@
            }),
            selection_valid(old(self)@) ==> selection_valid(final(self)@),
    {
        let rows = if visible_rows < 1 {
            1
        } else {
            visible_rows
        };
        if self.selected_idx < self.scroll_offset {
            self.scroll_offset = self.selected_idx;
        } else if self.selected_idx - self.scroll_offset >= rows {
            self.scroll_offset = self.selected_idx - rows + 1;
        }
    }
}

} // verus!
