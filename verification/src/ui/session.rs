//! A session as a sequence of steps, and what holds of every session.

use crate::matching::MatchView;
use crate::preview::SpanView;
use crate::ui::appstate::{
    reconciled_scroll, selected_match, selection_valid, stored, wanted_preview, with_results,
    StateView,
};
use crate::ui::event_handler::{
    command_of, edited_query, next_action, next_state, stepped_selection, ActionView, Command,
    Key,
};
use vstd::prelude::*;

verus! {

/// One thing that happens to the state in the course of a session.
pub enum Step {
    /// A command is carried out; the list is the ranking for the query as the
    /// command leaves it.
    Command(Command, Seq<MatchView>),
    /// The outcome of reading the selected file is handed in.
    Stored(Option<Seq<Seq<SpanView>>>),
    /// The result list is replaced by a new ranking.
    Ranked(Seq<MatchView>),
    /// The selection is brought into a window of so many rows.
    Scrolled(int),
}

/// The state after one step.
pub open spec fn after(s: StateView, step: Step) -> StateView {
    match step {
        Step::Command(cmd, reranked) => next_state(s, cmd, reranked),
        Step::Stored(rendered) => stored(s, rendered),
        Step::Ranked(results) => with_results(s, results),
        Step::Scrolled(rows) => StateView { scroll: reconciled_scroll(s.scroll, s.selected, rows), ..s },
    }
}

/// The state after a sequence of steps.
pub open spec fn run(s: StateView, steps: Seq<Step>) -> StateView
    decreases steps.len(),
{
    if steps.len() == 0 {
        s
    } else {
        after(run(s, steps.drop_last()), steps.last())
    }
}

/// Whether a match is selected after each of the steps.
pub open spec fn always_selected(s: StateView, steps: Seq<Step>) -> bool
    decreases steps.len(),
{
    if steps.len() == 0 {
        true
    } else {
        always_selected(s, steps.drop_last()) && selected_match(run(s, steps)) is Some
    }
}

/// The arrows go round: in a list of `len` matches the selection `i` becomes
/// `(i + 1) mod len` going down and `(i - 1 + len) mod len` going up, so the
/// last match is followed by the first and the first preceded by the last.
pub proof fn lemma_navigation_goes_round(selected: int, len: int)
    requires
        0 <= selected < len,
    ensures
        stepped_selection(selected, len, Command::MoveDown) == (selected + 1) % len,
        stepped_selection(selected, len, Command::MoveUp) == (selected - 1 + len) % len,
        stepped_selection(len - 1, len, Command::MoveDown) == 0,
        stepped_selection(0, len, Command::MoveUp) == len - 1,
{
    if selected + 1 < len {
        vstd::arithmetic::div_mod::lemma_small_mod((selected + 1) as nat, len as nat);
    } else {
        vstd::arithmetic::div_mod::lemma_mod_self_0(len);
    }
    if selected > 0 {
        vstd::arithmetic::div_mod::lemma_mod_add_multiples_vanish(selected - 1, len);
        vstd::arithmetic::div_mod::lemma_small_mod((selected - 1) as nat, len as nat);
    } else {
        vstd::arithmetic::div_mod::lemma_small_mod((len - 1) as nat, len as nat);
    }
}

/// Only an edit of the query changes the result list: a command that leaves
/// the query as it is, such as a change of focus or a move of the selection,
/// leaves the list as it is.
pub proof fn lemma_only_edits_rerank(s: StateView, cmd: Command, reranked: Seq<MatchView>)
    requires
        edited_query(s.query, cmd) == s.query,
    ensures
        next_state(s, cmd, reranked).query == s.query,
        next_state(s, cmd, reranked).results == s.results,
{
}

/// Enter opens the selected match whatever the focus: the key stands for the
/// command to open it, the action names the match's path, and the state is
/// left as it is.
pub proof fn lemma_enter_opens_selection(s: StateView, reranked: Seq<MatchView>)
    requires
        selected_match(s) is Some,
    ensures
        command_of(s.focus, Key::Enter, true) == Command::Commit,
        next_action(s, command_of(s.focus, Key::Enter, true), reranked) == ActionView::EditFile(
            selected_match(s)->0.path,
        ),
        next_state(s, command_of(s.focus, Key::Enter, true), reranked) == s,
{
}

/// Escape ends the session whatever the focus, and leaves the state as it is.
pub proof fn lemma_escape_quits(s: StateView, selected: bool, reranked: Seq<MatchView>)
    ensures
        next_action(s, command_of(s.focus, Key::Esc, selected), reranked) == ActionView::Quit,
        next_state(s, command_of(s.focus, Key::Esc, selected), reranked) == s,
{
}

/// Quitting and opening a match leave the state untouched.
pub proof fn lemma_leaving_changes_nothing(s: StateView, cmd: Command, reranked: Seq<MatchView>)
    requires
        next_action(s, cmd, reranked) is Quit || next_action(s, cmd, reranked) is EditFile,
    ensures
        next_state(s, cmd, reranked) == s,
        next_action(s, cmd, reranked) is EditFile ==> selected_match(s) is Some && next_action(
            s,
            cmd,
            reranked,
        ) == ActionView::EditFile(selected_match(s)->0.path),
{
}

/// No step takes the selection out of range.
pub proof fn lemma_step_keeps_selection(s: StateView, step: Step)
    requires
        selection_valid(s),
    ensures
        selection_valid(after(s, step)),
{
}

/// After any sequence of steps the selection is in range: it points at a
/// match, or it is zero and the list is empty.
pub proof fn lemma_selection_always_valid(s: StateView, steps: Seq<Step>)
    requires
        selection_valid(s),
    ensures
        selection_valid(run(s, steps)),
        0 <= run(s, steps).selected,
        run(s, steps).selected < run(s, steps).results.len() || run(s, steps).selected == 0,
    decreases steps.len(),
{
    if steps.len() > 0 {
        lemma_selection_always_valid(s, steps.drop_last());
        lemma_step_keeps_selection(run(s, steps.drop_last()), steps.last());
    }
}

/// A step that leaves a match selected keeps every preview as it is.
pub proof fn lemma_step_keeps_previews(s: StateView, step: Step, id: usize)
    requires
        s.cache.contains_key(id),
        selected_match(after(s, step)) is Some,
    ensures
        after(s, step).cache.contains_key(id),
        after(s, step).cache[id] == s.cache[id],
{
}

/// The file of a match is read only where no preview of it is kept: a command
/// that asks for a file to be read leaves a match selected that had none.
pub proof fn lemma_read_only_when_missing(s: StateView, cmd: Command, reranked: Seq<MatchView>)
    requires
        next_action(s, cmd, reranked) is LoadPreview,
    ensures
        selected_match(next_state(s, cmd, reranked)) matches Some(m) && !s.cache.contains_key(
            m.id as usize,
        ) && next_action(s, cmd, reranked) == ActionView::LoadPreview(m.path),
{
}

/// Once the outcome of reading the selected file is handed in, the selected
/// match has a preview, and no further read is wanted for it.
pub proof fn lemma_stored_preview_is_kept(s: StateView, rendered: Option<Seq<Seq<SpanView>>>)
    ensures
        wanted_preview(stored(s, rendered)) is None,
        selected_match(s) matches Some(m) ==> stored(s, rendered).cache.contains_key(m.id as usize),
        forall|id: usize| #[trigger]
            s.cache.contains_key(id) ==> stored(s, rendered).cache.contains_key(id) && stored(
                s,
                rendered,
            ).cache[id] == s.cache[id],
{
}

/// A preview that is kept stays as it is for as long as a match is selected
/// after every step.
pub proof fn lemma_previews_last(s: StateView, steps: Seq<Step>, id: usize)
    requires
        s.cache.contains_key(id),
        always_selected(s, steps),
    ensures
        run(s, steps).cache.contains_key(id),
        run(s, steps).cache[id] == s.cache[id],
    decreases steps.len(),
{
    if steps.len() > 0 {
        lemma_previews_last(s, steps.drop_last(), id);
        lemma_step_keeps_previews(run(s, steps.drop_last()), steps.last(), id);
    }
}

/// A candidate whose preview is kept is not read again: however the session
/// goes on from there, as long as a match stays selected, a command that
/// selects the candidate asks for no read.
pub proof fn lemma_cached_candidate_not_read_again(
    s: StateView,
    steps: Seq<Step>,
    cmd: Command,
    reranked: Seq<MatchView>,
    id: usize,
)
    requires
        s.cache.contains_key(id),
        always_selected(s, steps),
        selected_match(next_state(run(s, steps), cmd, reranked)) matches Some(m) && m.id == id,
    ensures
        !(next_action(run(s, steps), cmd, reranked) is LoadPreview),
{
    lemma_previews_last(s, steps, id);
}

/// After the window is reconciled the selection is inside it, another
/// reconciliation changes nothing, and a selection that was inside already
/// leaves the window where it was.
pub proof fn lemma_scroll_reconciled(scroll: int, selected: int, rows: int)
    requires
        0 <= scroll,
        0 <= selected,
    ensures
        0 <= reconciled_scroll(scroll, selected, rows) <= selected,
        rows >= 1 ==> selected < reconciled_scroll(scroll, selected, rows) + rows,
        reconciled_scroll(reconciled_scroll(scroll, selected, rows), selected, rows)
            == reconciled_scroll(scroll, selected, rows),
        rows >= 1 && scroll <= selected < scroll + rows ==> reconciled_scroll(scroll, selected, rows)
            == scroll,
{
}

} // verus!
