//! How a key changes the session, and what the caller has to do next.

use crate::matching::{lowercase, Candidate, CandidateView, MatchView};
use crate::ranking::{all_matchable, candidate_views, lists_all_blank, ranking_of};
use crate::ui::appstate::{in_sync, refreshed, selected_match, selection_valid, wanted_preview};
use crate::ui::appstate::{AppState, Focus, StateView};
use vstd::prelude::*;

verus! {

/// A key as the session tells them apart.
#[derive(Clone, Copy, Debug, PartialEq, Eq)]
pub enum Key {
    Char(char),
    Backspace,
    Tab,
    Enter,
    Esc,
    Up,
    Down,
    /// Any other key, and any event that is no key.
    Other,
}

/// What a key asks for.
#[derive(Clone, Copy, Debug, PartialEq, Eq)]
pub enum Command {
    /// Append a character to the query.
    Insert(char),
    /// Remove the query's last character.
    DeleteLast,
    /// Hand the keys to the other part of the screen.
    SwitchFocus,
    /// Select the match above, or the last one from the first.
    MoveUp,
    /// Select the match below, or the first one from the last.
    MoveDown,
    /// Open the selected match.
    Commit,
    /// End the session.
    Quit,
    /// Nothing.
    Ignore,
}

/// What the caller has to do after a key.
#[derive(Clone, Debug, PartialEq, Eq)]
pub enum AppAction {
    /// End the session.
    Quit,
    /// Wait for the next key.
    Continue,
    /// Open the file at this path in the editor.
    EditFile(String),
    /// Read the file at this path and hand the outcome to
    /// `AppState::store_preview`.
    LoadPreview(String),
}

/// An action as plain values.
pub enum ActionView {
    Quit,
    Continue,
    EditFile(Seq<char>),
    LoadPreview(Seq<char>),
}

impl View for AppAction {
    type V = ActionView;

    open spec fn view(&self) -> ActionView {
        match self {
            AppAction::Quit => ActionView::Quit,
            AppAction::Continue => ActionView::Continue,
            AppAction::EditFile(path) => ActionView::EditFile(path@),
            AppAction::LoadPreview(path) => ActionView::LoadPreview(path@),
        }
    }
}

/// The command that a key stands for under the given focus, `selected`
/// saying whether a match is selected. Enter opens the selected match and
/// escape ends the session, whatever the focus; tab changes the focus. The
/// search bar takes characters and backspace, the result list the arrows.
/// With nothing to open, enter in the search bar hands the keys to the list.
pub open spec fn command_of(focus: Focus, key: Key, selected: bool) -> Command {
    match key {
        Key::Esc => Command::Quit,
        Key::Tab => Command::SwitchFocus,
        Key::Enter => if selected {
            Command::Commit
        } else {
            match focus {
                Focus::SearchBar => Command::SwitchFocus,
                Focus::Results => Command::Commit,
            }
        },
        _ => match focus {
            Focus::SearchBar => match key {
                Key::Char(c) => Command::Insert(c),
                Key::Backspace => Command::DeleteLast,
                _ => Command::Ignore,
            },
            Focus::Results => match key {
                Key::Up => Command::MoveUp,
                Key::Down => Command::MoveDown,
                _ => Command::Ignore,
            },
        },
    }
}

/// The query after a command.
pub open spec fn edited_query(query: Seq<char>, cmd: Command) -> Seq<char> {
    match cmd {
        Command::Insert(c) => query.push(c),
        Command::DeleteLast => if query.len() > 0 {
            query.drop_last()
        } else {
            query
        },
        _ => query,
    }
}

/// The selection after a command, in a list of `len` matches: the arrows move
/// it by one and go round at both ends; in an empty list they do nothing.
pub open spec fn stepped_selection(selected: int, len: int, cmd: Command) -> int {
    match cmd {
        Command::MoveDown => if len <= 0 {
            selected
        } else if selected + 1 < len {
            selected + 1
        } else {
            0
        },
        Command::MoveUp => if len <= 0 {
            selected
        } else if selected > 0 {
            selected - 1
        } else {
            len - 1
        },
        _ => selected,
    }
}

/// The focus after a command.
pub open spec fn stepped_focus(focus: Focus, cmd: Command) -> Focus {
    match cmd {
        Command::SwitchFocus => match focus {
            Focus::SearchBar => Focus::Results,
            Focus::Results => Focus::SearchBar,
        },
        _ => focus,
    }
}

/// Whether a command ends the handling of the key at once, the state
/// untouched: quitting, and opening a selected match.
pub open spec fn leaves(s: StateView, cmd: Command) -> bool {
    cmd is Quit || (cmd is Commit && selected_match(s) is Some)
}

/// The state after the command itself, before the preview is looked at:
/// an edited query brings the new ranking `reranked` and puts selection and
/// scroll position back to the top; anything else keeps the ranking.
pub open spec fn moved(s: StateView, cmd: Command, reranked: Seq<MatchView>) -> StateView {
    let query = edited_query(s.query, cmd);
    if query != s.query {
        StateView { query, results: reranked, selected: 0, scroll: 0, ..s }
    } else {
        StateView {
            focus: stepped_focus(s.focus, cmd),
            selected: stepped_selection(s.selected, s.results.len() as int, cmd),
            ..s
        }
    }
}

/// Whether the preview is looked at after a command: where the query or the
/// selection has changed.
pub open spec fn refreshes(s: StateView, cmd: Command) -> bool {
    edited_query(s.query, cmd) != s.query || stepped_selection(
        s.selected,
        s.results.len() as int,
        cmd,
    ) != s.selected
}

/// The state after a command, `reranked` being the ranking for the edited
/// query.
pub open spec fn next_state(s: StateView, cmd: Command, reranked: Seq<MatchView>) -> StateView {
    if leaves(s, cmd) {
        s
    } else if refreshes(s, cmd) {
        refreshed(moved(s, cmd, reranked))
    } else {
        moved(s, cmd, reranked)
    }
}

/// What the caller has to do after a command.
pub open spec fn next_action(s: StateView, cmd: Command, reranked: Seq<MatchView>) -> ActionView {
    if cmd is Quit {
        ActionView::Quit
    } else if cmd is Commit && selected_match(s) is Some {
        ActionView::EditFile(selected_match(s)->0.path)
    } else if refreshes(s, cmd) {
        match wanted_preview(moved(s, cmd, reranked)) {
            Some(path) => ActionView::LoadPreview(path),
            None => ActionView::Continue,
        }
    } else {
        ActionView::Continue
    }
}

/// Whether a command was carried out: it has taken the state `before` to
/// the state `after` and given `action`. The state is `next_state` and the
/// action `next_action`, both taken with the result list of `after`; where the
/// command has edited the query, that list is the ranking of `candidates` for
/// the new query in lower case, which for the empty query and candidates that
/// all have a name within the matcher's limits is the whole candidate list in
/// its own order.
pub open spec fn carried_out(
    before: StateView,
    cmd: Command,
    candidates: Seq<CandidateView>,
    after: StateView,
    action: ActionView,
) -> bool {
    &&& after == next_state(before, cmd, after.results)
    &&& action == next_action(before, cmd, after.results)
    &&& edited_query(before.query, cmd) != before.query ==> ranking_of(
        candidates,
        lowercase(after.query),
        after.results,
    )
    &&& edited_query(before.query, cmd) != before.query && after.query.len() == 0
        && all_matchable(candidates, Seq::empty()) ==> lists_all_blank(candidates, after.results)
}

/// The command that a key stands for under the given focus, `selected`
/// saying whether a match is selected.
pub fn command_for(focus: Focus, key: Key, selected: bool) -> (cmd: Command)
    ensures
        cmd == command_of(focus, key, selected),
{
    match key {
        Key::Esc => Command::Quit,
        Key::Tab => Command::SwitchFocus,
        Key::Enter => if selected {
            Command::Commit
        } else {
            match focus {
                Focus::SearchBar => Command::SwitchFocus,
                Focus::Results => Command::Commit,
            }
        },
        _ => match focus {
            Focus::SearchBar => match key {
                Key::Char(c) => Command::Insert(c),
                Key::Backspace => Command::DeleteLast,
                _ => Command::Ignore,
            },
            Focus::Results => match key {
                Key::Up => Command::MoveUp,
                Key::Down => Command::MoveDown,
                _ => Command::Ignore,
            },
        },
    }
}

/// Carries out a command on the session and says what the caller has to do.
/// A result list that was up to date stays so, and a selection that was in
/// range stays in range.
///
/// The matcher works with `nucleo`'s default configuration. It keeps its own,
/// but where an edit leaves the query empty it is replaced by a fresh matcher
/// before the list is ranked.
pub fn apply_command(
    cmd: Command,
    all_files: &Vec<Candidate>,
    matcher: &mut nucleo::Matcher,
    state: &mut AppState,
) -> (action: AppAction)
    ensures
        carried_out(old(state)@, cmd, candidate_views(all_files@), final(state)@, action@),
        in_sync(old(state)@, candidate_views(all_files@)) ==> in_sync(
            final(state)@,
            candidate_views(all_files@),
        ),
        selection_valid(old(state)@) ==> selection_valid(final(state)@),
{
    let ghost before = state@;
    let previous = state.selected_idx;
    let mut edited = false;
    match cmd {
        Command::Quit => {
            return AppAction::Quit;
        },
        Command::Commit => {
            if state.selected_idx < state.filtered_files.len() {
                assert(before.results[state.selected_idx as int]
                    == state.filtered_files[state.selected_idx as int]@);
                return AppAction::EditFile(state.filtered_files[state.selected_idx].path.clone());
            }
        },
        Command::Insert(c) => {
            state.query.push(c);
            edited = true;
        },
        Command::DeleteLast => {
            edited = state.query.pop().is_some();
        },
        Command::SwitchFocus => {
            state.focus = match state.focus {
                Focus::SearchBar => Focus::Results,
                Focus::Results => Focus::SearchBar,
            };
        },
        Command::MoveUp => {
            if state.filtered_files.len() > 0 {
                if state.selected_idx > 0 {
                    state.selected_idx = state.selected_idx - 1;
                } else {
                    state.selected_idx = state.filtered_files.len() - 1;
                }
            }
        },
        Command::MoveDown => {
            if state.filtered_files.len() > 0 {
                if state.selected_idx < state.filtered_files.len() - 1 {
                    state.selected_idx = state.selected_idx + 1;
                } else {
                    state.selected_idx = 0;
                }
            }
        },
        Command::Ignore => {},
    }
    assert(edited <==> edited_query(before.query, cmd) != before.query) by {
        match cmd {
            Command::Insert(c) => {
                assert(before.query.push(c).len() != before.query.len());
            },
            Command::DeleteLast => {
                if before.query.len() > 0 {
                    assert(before.query.drop_last().len() != before.query.len());
                }
            },
            _ => {},
        }
    }
    if edited {
        if state.query.as_str().is_empty() {
            *matcher = nucleo::Matcher::default();
        }
        let query = state.query.clone();
        state.update_filtered_files(query.as_str(), all_files, matcher);
        state.selected_idx = 0;
        state.scroll_offset = 0;
    }
    assert(state@ == moved(before, cmd, state@.results));
    if edited || state.selected_idx != previous {
        match state.update_preview() {
            Some(path) => AppAction::LoadPreview(path),
            None => AppAction::Continue,
        }
    } else {
        AppAction::Continue
    }
}

/// Handles one key: the key is read under the focus of the moment, and the
/// command it stands for is carried out. Enter on a selected match gives
/// `EditFile` with the match's path, under either focus, and leaves the state
/// as it is.
pub fn handle_events(
    event: Key,
    all_files: &Vec<Candidate>,
    matcher: &mut nucleo::Matcher,
    state: &mut AppState,
) -> (action: AppAction)
    ensures
        carried_out(
            old(state)@,
            command_of(old(state)@.focus, event, selected_match(old(state)@) is Some),
            candidate_views(all_files@),
            final(state)@,
            action@,
        ),
        in_sync(old(state)@, candidate_views(all_files@)) ==> in_sync(
            final(state)@,
            candidate_views(all_files@),
        ),
        selection_valid(old(state)@) ==> selection_valid(final(state)@),
{
    let selected = state.selected_idx < state.filtered_files.len();
    let cmd = command_for(state.focus, event, selected);
    apply_command(cmd, all_files, matcher, state)
}

} // verus!
