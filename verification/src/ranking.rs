//! The ranked result list: the candidates that match the query, the best score
//! first, and candidates of equal score in the order of the candidate list.

use crate::matching::{lowercase, match_of, matchable, matches_blank, score_candidate};
use crate::matching::{Candidate, CandidateView, MatchView, ScoredMatch};
use vstd::prelude::*;
use vstd::seq_lib::*;

verus! {

/// Whether `a` stands before `b` in a ranked list: by the higher score, and
/// between equal scores by the earlier place in the candidate list.
pub open spec fn outranks(a: MatchView, b: MatchView) -> bool {
    a.score > b.score || (a.score == b.score && a.id < b.id)
}

/// The matches of a list as plain values.
pub open spec fn views(matches: Seq<ScoredMatch>) -> Seq<MatchView> {
    Seq::new(matches.len(), |i: int| matches[i]@)
}

/// The candidates of a list as plain values.
pub open spec fn candidate_views(candidates: Seq<Candidate>) -> Seq<CandidateView> {
    Seq::new(candidates.len(), |i: int| candidates[i]@)
}

/// No entry is outranked by a later one.
pub open spec fn never_inverted(list: Seq<MatchView>) -> bool {
    forall|i: int, j: int| 0 <= i < j < list.len() ==> !outranks(list[j], list[i])
}

/// Every entry outranks all later ones.
pub open spec fn is_ranked(list: Seq<MatchView>) -> bool {
    forall|i: int, j: int| 0 <= i < j < list.len() ==> outranks(list[i], list[j])
}

/// No two entries stand for the same candidate.
pub open spec fn distinct_ids(list: Seq<MatchView>) -> bool {
    forall|i: int, j: int| 0 <= i < j < list.len() ==> list[i].id != list[j].id
}

/// Whether `a` stands before `b` in a ranked list.
pub fn ranks_before(a: &ScoredMatch, b: &ScoredMatch) -> (r: bool)
    ensures
        r == outranks(a@, b@),
{
    a.score > b.score || (a.score == b.score && a.id < b.id)
}

/// Merges two lists in which no entry is outranked by a later one into one
/// such list of the same entries.
fn merge_ranked(left: Vec<ScoredMatch>, right: Vec<ScoredMatch>) -> (merged: Vec<ScoredMatch>)
    requires
        never_inverted(views(left@)),
        never_inverted(views(right@)),
    ensures
        never_inverted(views(merged@)),
        merged@.to_multiset() == left@.to_multiset().add(right@.to_multiset()),
{
    broadcast use {group_to_multiset_ensures, vstd::multiset::group_multiset_axioms};

    let mut left = left;
    let mut right = right;
    let ghost all = left@.to_multiset().add(right@.to_multiset());
    // The entries from the last place upwards.
    let mut backwards: Vec<ScoredMatch> = Vec::new();
    while left.len() > 0 || right.len() > 0
        invariant
            never_inverted(views(left@)),
            never_inverted(views(right@)),
            forall|i: int, j: int|
                0 <= i < j < backwards.len() ==> !outranks(backwards[i]@, backwards[j]@),
            forall|i: int, j: int|
                0 <= i < left.len() && 0 <= j < backwards.len() ==> !outranks(
                    backwards[j]@,
                    left[i]@,
                ),
            forall|i: int, j: int|
                0 <= i < right.len() && 0 <= j < backwards.len() ==> !outranks(
                    backwards[j]@,
                    right[i]@,
                ),
            left@.to_multiset().add(right@.to_multiset()).add(backwards@.to_multiset()) =~= all,
        decreases left.len() + right.len(),
    {
        let from_left = if left.len() == 0 {
            false
        } else if right.len() == 0 {
            true
        } else {
            !ranks_before(&left[left.len() - 1], &right[right.len() - 1])
        };
        let ghost left_before = left@;
        let ghost right_before = right@;
        let ghost backwards_before = backwards@;
        let moved = if from_left {
            left.pop()
        } else {
            right.pop()
        };
        let entry = moved.unwrap();
        proof {
            if left_before.len() > 0 {
                assert(views(left_before)[left_before.len() - 1] == left_before.last()@);
            }
            if right_before.len() > 0 {
                assert(views(right_before)[right_before.len() - 1] == right_before.last()@);
            }
            if from_left {
                assert(left_before =~= left@.push(entry));
                to_multiset_build(left@, entry);
                assert forall|i: int| 0 <= i < left.len() implies !outranks(entry@, left[i]@) by {
                    assert(views(left_before)[i] == left[i]@);
                    assert(!outranks(views(left_before)[left_before.len() - 1], views(left_before)[i]));
                }
                assert forall|i: int| 0 <= i < right.len() implies !outranks(
                    entry@,
                    right[i]@,
                ) by {
                    let last = right_before.len() - 1;
                    assert(views(right_before)[i] == right[i]@);
                    if i < last {
                        assert(!outranks(views(right_before)[last], views(right_before)[i]));
                    }
                }
            } else {
                assert(right_before =~= right@.push(entry));
                to_multiset_build(right@, entry);
                assert forall|i: int| 0 <= i < right.len() implies !outranks(
                    entry@,
                    right[i]@,
                ) by {
                    assert(views(right_before)[i] == right[i]@);
                    assert(!outranks(views(right_before)[right_before.len() - 1], views(right_before)[i]));
                }
                assert forall|i: int| 0 <= i < left.len() implies !outranks(entry@, left[i]@) by {
                    let last = left_before.len() - 1;
                    assert(views(left_before)[i] == left[i]@);
                    if i < last {
                        assert(!outranks(views(left_before)[last], views(left_before)[i]));
                    }
                }
            }
            assert forall|i: int, j: int| 0 <= i < j < left.len() implies !outranks(
                views(left@)[j],
                views(left@)[i],
            ) by {
                assert(views(left_before)[i] == left[i]@);
                assert(views(left_before)[j] == left[j]@);
            }
            assert forall|i: int, j: int| 0 <= i < j < right.len() implies !outranks(
                views(right@)[j],
                views(right@)[i],
            ) by {
                assert(views(right_before)[i] == right[i]@);
                assert(views(right_before)[j] == right[j]@);
            }
        }
        backwards.push(entry);
        proof {
            to_multiset_build(backwards_before, entry);
        }
    }
    let mut merged: Vec<ScoredMatch> = Vec::new();
    while backwards.len() > 0
        invariant
            left@.len() == 0,
            right@.len() == 0,
            forall|i: int, j: int|
                0 <= i < j < backwards.len() ==> !outranks(backwards[i]@, backwards[j]@),
            forall|i: int, j: int|
                0 <= i < merged.len() && 0 <= j < backwards.len() ==> !outranks(
                    backwards[j]@,
                    merged[i]@,
                ),
            never_inverted(views(merged@)),
            merged@.to_multiset().add(backwards@.to_multiset()) =~= all,
        decreases backwards.len(),
    {
        let ghost backwards_before = backwards@;
        let ghost merged_before = merged@;
        let entry = backwards.pop().unwrap();
        proof {
            assert(backwards_before =~= backwards@.push(entry));
            to_multiset_build(backwards@, entry);
        }
        merged.push(entry);
        proof {
            to_multiset_build(merged_before, entry);
            assert forall|i: int, j: int| 0 <= i < j < merged.len() implies !outranks(
                views(merged@)[j],
                views(merged@)[i],
            ) by {
                if j < merged_before.len() {
                    assert(views(merged_before)[i] == merged[i]@);
                    assert(views(merged_before)[j] == merged[j]@);
                }
            }
        }
    }
    merged
}

/// Orders `matches` so that no entry is outranked by a later one.
fn sort_ranked(matches: Vec<ScoredMatch>) -> (sorted: Vec<ScoredMatch>)
    ensures
        never_inverted(views(sorted@)),
        sorted@.to_multiset() == matches@.to_multiset(),
    decreases matches.len(),
{
    if matches.len() <= 1 {
        return matches;
    }
    let mut left = matches;
    let ghost whole = left@;
    let half = left.len() / 2;
    let right = left.split_off(half);
    proof {
        assert(whole =~= left@ + right@);
        lemma_multiset_commutative(left@, right@);
    }
    let left_sorted = sort_ranked(left);
    let right_sorted = sort_ranked(right);
    merge_ranked(left_sorted, right_sorted)
}

/// Entries that are the same as values stand for the same candidate, so a list
/// of distinct candidates keeps them distinct however it is reordered.
proof fn lemma_distinct_ids_kept(before: Seq<ScoredMatch>, after: Seq<ScoredMatch>)
    requires
        before.to_multiset() == after.to_multiset(),
        distinct_ids(views(before)),
    ensures
        distinct_ids(views(after)),
{
    broadcast use to_multiset_contains;

    assert(before.no_duplicates()) by {
        assert forall|i: int, j: int| 0 <= i < before.len() && 0 <= j < before.len() && i != j implies before[i] != before[j] by {
            assert(views(before)[i].id == before[i]@.id);
            assert(views(before)[j].id == before[j]@.id);
            if i < j {
                assert(views(before)[i].id != views(before)[j].id);
            } else {
                assert(views(before)[j].id != views(before)[i].id);
            }
        }
    }
    before.lemma_multiset_has_no_duplicates();
    after.lemma_multiset_has_no_duplicates_conv();
    assert forall|i: int, j: int| 0 <= i < j < after.len() implies views(after)[i].id != views(
        after,
    )[j].id by {
        assert(after[i] != after[j]);
        assert(after.contains(after[i]));
        assert(after.contains(after[j]));
        assert(before.to_multiset().count(after[i]) > 0);
        assert(before.to_multiset().count(after[j]) > 0);
        let a = before.lemma_contains_to_index(after[i]);
        let b = before.lemma_contains_to_index(after[j]);
        assert(a != b);
        assert(views(before)[a].id == after[i]@.id);
        assert(views(before)[b].id == after[j]@.id);
        if a < b {
            assert(views(before)[a].id != views(before)[b].id);
        } else {
            assert(views(before)[b].id != views(before)[a].id);
        }
    }
}

/// Orders matches by rank: the higher score first, and of two equal scores the
/// candidate that stands earlier in the candidate list.
///
/// The result holds the entries of `matches`, each as often as `matches` does,
/// and none of them is outranked by a later one. Where no two entries stand
/// for the same candidate, every entry outranks all later ones, which leaves
/// one order only.
pub fn rank_matches(matches: Vec<ScoredMatch>) -> (ranked: Vec<ScoredMatch>)
    ensures
        ranked@.to_multiset() == matches@.to_multiset(),
        ranked@.len() == matches@.len(),
        forall|k: int| 0 <= k < ranked@.len() ==> matches@.contains(#[trigger] ranked@[k]),
        forall|k: int| 0 <= k < matches@.len() ==> ranked@.contains(#[trigger] matches@[k]),
        never_inverted(views(ranked@)),
        distinct_ids(views(matches@)) ==> is_ranked(views(ranked@)),
{
    let ghost before = matches@;
    let ranked = sort_ranked(matches);
    proof {
        to_multiset_len(before);
        to_multiset_len(ranked@);
        assert forall|k: int| 0 <= k < ranked@.len() implies before.contains(
            #[trigger] ranked@[k],
        ) by {
            assert(ranked@.contains(ranked@[k]));
            to_multiset_contains(ranked@, ranked@[k]);
            to_multiset_contains(before, ranked@[k]);
        }
        assert forall|k: int| 0 <= k < before.len() implies ranked@.contains(
            #[trigger] before[k],
        ) by {
            assert(before.contains(before[k]));
            to_multiset_contains(ranked@, before[k]);
            to_multiset_contains(before, before[k]);
        }
        if distinct_ids(views(before)) {
            lemma_distinct_ids_kept(before, ranked@);
            assert forall|i: int, j: int| 0 <= i < j < ranked.len() implies outranks(
                views(ranked@)[i],
                views(ranked@)[j],
            ) by {
                assert(!outranks(views(ranked@)[j], views(ranked@)[i]));
                assert(views(ranked@)[i].id != views(ranked@)[j].id);
            }
        }
    }
    ranked
}

/// A ranked order is the only one: two lists of the same entries in which
/// every entry outranks all later ones are the same list.
pub proof fn lemma_ranked_order_unique(first: Seq<ScoredMatch>, second: Seq<ScoredMatch>)
    requires
        first.to_multiset() == second.to_multiset(),
        is_ranked(views(first)),
        is_ranked(views(second)),
    ensures
        first == second,
    decreases first.len(),
{
    to_multiset_len(first);
    to_multiset_len(second);
    if first.len() > 0 {
        let a = first[0];
        let b = second[0];
        assert(first.contains(a));
        to_multiset_contains(first, a);
        to_multiset_contains(second, a);
        let at = second.lemma_contains_to_index(a);
        assert(second.contains(b));
        to_multiset_contains(second, b);
        to_multiset_contains(first, b);
        let back = first.lemma_contains_to_index(b);
        assert(a == b) by {
            assert(views(first)[0] == a@ && views(first)[back] == b@);
            assert(views(second)[0] == b@ && views(second)[at] == a@);
            if at > 0 && back > 0 {
                assert(outranks(views(second)[0], views(second)[at]));
                assert(outranks(views(first)[0], views(first)[back]));
            }
        }
        let first_rest = first.remove(0);
        let second_rest = second.remove(0);
        to_multiset_remove(first, 0);
        to_multiset_remove(second, 0);
        assert forall|i: int, j: int| 0 <= i < j < first_rest.len() implies outranks(
            views(first_rest)[i],
            views(first_rest)[j],
        ) by {
            assert(views(first_rest)[i] == views(first)[i + 1]);
            assert(views(first_rest)[j] == views(first)[j + 1]);
        }
        assert forall|i: int, j: int| 0 <= i < j < second_rest.len() implies outranks(
            views(second_rest)[i],
            views(second_rest)[j],
        ) by {
            assert(views(second_rest)[i] == views(second)[i + 1]);
            assert(views(second_rest)[j] == views(second)[j + 1]);
        }
        lemma_ranked_order_unique(first_rest, second_rest);
        assert(first =~= seq![a] + first_rest);
        assert(second =~= seq![b] + second_rest);
    }
    assert(first =~= second);
}

/// Whether `m` is the match of one of `candidates` for `query`.
pub open spec fn is_match_of(candidates: Seq<CandidateView>, query: Seq<char>, m: MatchView) -> bool {
    0 <= m.id < candidates.len() && match_of(candidates[m.id], m.id, query) == Some(m)
}

/// Whether `results` is the ranked list of `candidates` for `query`: every
/// entry is the match of a candidate, every candidate that matches is listed,
/// and every entry outranks all later ones.
pub open spec fn ranking_of(
    candidates: Seq<CandidateView>,
    query: Seq<char>,
    results: Seq<MatchView>,
) -> bool {
    &&& forall|k: int| 0 <= k < results.len() ==> is_match_of(candidates, query, #[trigger] results[k])
    &&& forall|c: int|
        0 <= c < candidates.len() && (#[trigger] match_of(candidates[c], c, query)) is Some
            ==> results.contains(match_of(candidates[c], c, query)->0)
    &&& is_ranked(results)
}

/// Whether every candidate has a name, and every lowered name and the query
/// are within the matcher's limits.
pub open spec fn all_matchable(candidates: Seq<CandidateView>, query: Seq<char>) -> bool {
    forall|c: int| 0 <= c < candidates.len() ==> matchable(#[trigger] candidates[c], query)
}

/// Whether `results` lists every candidate, in the order of the candidate
/// list, each with the score zero and no matched position.
pub open spec fn lists_all_blank(candidates: Seq<CandidateView>, results: Seq<MatchView>) -> bool {
    &&& results.len() == candidates.len()
    &&& forall|i: int|
        0 <= i < results.len() ==> {
            &&& (#[trigger] results[i]).id == i
            &&& results[i].path == candidates[i].path
            &&& candidates[i].name is Some
            &&& results[i].name == lowercase(candidates[i].name->0)
            &&& results[i].score == 0
            &&& results[i].positions.len() == 0
        }
}

/// The ranked list for a query is determined: two lists that both are the
/// ranking of the same candidates for the same query are equal.
pub proof fn lemma_ranking_unique(
    candidates: Seq<CandidateView>,
    query: Seq<char>,
    first: Seq<MatchView>,
    second: Seq<MatchView>,
)
    requires
        ranking_of(candidates, query, first),
        ranking_of(candidates, query, second),
    ensures
        first == second,
{
    lemma_same_front(candidates, query, first, second, first.len() as int);
    lemma_same_front(candidates, query, second, first, second.len() as int);
    assert(first =~= second);
}

/// Two rankings of the same candidates for the same query agree on their first
/// `n` entries, and the second has as many.
proof fn lemma_same_front(
    candidates: Seq<CandidateView>,
    query: Seq<char>,
    first: Seq<MatchView>,
    second: Seq<MatchView>,
    n: int,
)
    requires
        ranking_of(candidates, query, first),
        ranking_of(candidates, query, second),
        0 <= n <= first.len(),
    ensures
        n <= second.len(),
        forall|k: int| 0 <= k < n ==> first[k] == second[k],
    decreases n,
{
    if n > 0 {
        lemma_same_front(candidates, query, first, second, n - 1);
        let k = n - 1;
        let m = first[k];
        assert(is_match_of(candidates, query, m));
        assert(match_of(candidates[m.id], m.id, query) is Some);
        assert(second.contains(m));
        let at = choose|at: int| 0 <= at < second.len() && second[at] == m;
        if at < k {
            assert(first[at] == second[at]);
            assert(outranks(first[at], first[k]));
        }
        assert(k < second.len());
        let other = second[k];
        assert(is_match_of(candidates, query, other));
        assert(match_of(candidates[other.id], other.id, query) is Some);
        assert(first.contains(other));
        let back = choose|back: int| 0 <= back < first.len() && first[back] == other;
        if back < k {
            assert(first[back] == second[back]);
            assert(outranks(second[back], second[k]));
        }
        if at > k {
            assert(outranks(second[k], second[at]));
            if back > k {
                assert(outranks(first[k], first[back]));
            }
        }
    }
}

/// Where every candidate matches with one and the same score, the ranking is
/// the candidate list itself: every candidate, in the order of the list.
pub proof fn lemma_uniform_ranking(
    candidates: Seq<CandidateView>,
    query: Seq<char>,
    results: Seq<MatchView>,
    score: int,
)
    requires
        ranking_of(candidates, query, results),
        forall|c: int|
            0 <= c < candidates.len() ==> (#[trigger] match_of(candidates[c], c, query) matches Some(
                m,
            ) && m.score == score),
    ensures
        results.len() == candidates.len(),
        forall|i: int|
            0 <= i < results.len() ==> Some(#[trigger] results[i]) == match_of(
                candidates[i],
                i,
                query,
            ),
{
    let whole = Seq::new(candidates.len(), |c: int| match_of(candidates[c], c, query)->0);
    assert forall|k: int| 0 <= k < whole.len() implies is_match_of(
        candidates,
        query,
        #[trigger] whole[k],
    ) by {
        assert(match_of(candidates[k], k, query) is Some);
    }
    assert forall|c: int|
        0 <= c < candidates.len() && (#[trigger] match_of(candidates[c], c, query)) is Some implies whole.contains(
        match_of(candidates[c], c, query)->0,
    ) by {
        assert(whole[c] == match_of(candidates[c], c, query)->0);
    }
    assert forall|i: int, j: int| 0 <= i < j < whole.len() implies outranks(whole[i], whole[j]) by {
        assert(match_of(candidates[i], i, query) is Some);
        assert(match_of(candidates[j], j, query) is Some);
    }
    lemma_ranking_unique(candidates, query, results, whole);
}

/// Ranks `contents` for `query`.
///
/// The query is lowered and every candidate is scored against it; those that
/// do not match are left out, the others stand in the result by rank. For the
/// empty query and candidates that all have a name within the matcher's
/// limits that is the whole candidate list in its own order. The matcher
/// works with `nucleo`'s default configuration and keeps its own.
pub fn rank_candidates(
    matcher: &mut nucleo::Matcher,
    contents: &Vec<Candidate>,
    query: &str,
) -> (ranked: Vec<ScoredMatch>)
    ensures
        ranking_of(candidate_views(contents@), lowercase(query@), views(ranked@)),
        query@.len() == 0 && all_matchable(candidate_views(contents@), Seq::empty())
            ==> lists_all_blank(candidate_views(contents@), views(ranked@)),
{
    let lowered = query.to_lowercase();
    proof {
        if query@.len() == 0 {
            assert(lowered@ =~= Seq::<char>::empty());
        }
    }
    let ranked = rank_lowered(matcher, contents, lowered.as_str());
    ranked
}

/// Ranks `contents` for a query that is in lower case already.
fn rank_lowered(
    matcher: &mut nucleo::Matcher,
    contents: &Vec<Candidate>,
    query: &str,
) -> (ranked: Vec<ScoredMatch>)
    ensures
        ranking_of(candidate_views(contents@), query@, views(ranked@)),
        query@.len() == 0 && all_matchable(candidate_views(contents@), query@)
            ==> lists_all_blank(candidate_views(contents@), views(ranked@)),
{
    let ghost candidates = candidate_views(contents@);
    let mut found: Vec<ScoredMatch> = Vec::new();
    let mut i: usize = 0;
    while i < contents.len()
        invariant
            i <= contents.len(),
            candidates == candidate_views(contents@),
            forall|k: int|
                0 <= k < found.len() ==> (#[trigger] found[k]).id < i && is_match_of(
                    candidates,
                    query@,
                    found[k]@,
                ),
            forall|j: int, k: int| 0 <= j < k < found.len() ==> found[j].id < found[k].id,
            forall|c: int|
                0 <= c < i && (#[trigger] match_of(candidates[c], c, query@)) is Some
                    ==> exists|k: int| 0 <= k < found.len() && found[k]@ == match_of(
                        candidates[c],
                        c,
                        query@,
                    )->0,
            query@.len() == 0 ==> forall|c: int|
                0 <= c < i && matchable(candidates[c], query@) ==> matches_blank(
                    #[trigger] match_of(candidates[c], c, query@),
                ),
        decreases contents.len() - i,
    {
        let ghost found_before = found@;
        assert(candidates[i as int] == contents[i as int]@);
        match score_candidate(matcher, &contents[i], i, query) {
            Some(m) => {
                found.push(m);
                proof {
                    assert forall|c: int|
                        0 <= c < i + 1 && (#[trigger] match_of(candidates[c], c, query@)) is Some implies exists|
                        k: int,
                    |
                        0 <= k < found.len() && found[k]@ == match_of(candidates[c], c, query@)->0 by {
                        if c < i {
                            let k = choose|k: int|
                                0 <= k < found_before.len() && found_before[k]@ == match_of(
                                    candidates[c],
                                    c,
                                    query@,
                                )->0;
                            assert(found[k] == found_before[k]);
                        } else {
                            assert(found[found.len() - 1]@ == match_of(candidates[c], c, query@)->0);
                        }
                    }
                }
            },
            None => {},
        }
        i = i + 1;
    }
    let ghost scored = found@;
    proof {
        assert forall|j: int, k: int| 0 <= j < k < scored.len() implies views(scored)[j].id != views(
            scored,
        )[k].id by {
            assert(scored[j].id < scored[k].id);
        }
    }
    let ranked = rank_matches(found);
    proof {
        broadcast use to_multiset_contains;

        let results = views(ranked@);
        assert forall|k: int| 0 <= k < results.len() implies is_match_of(
            candidates,
            query@,
            #[trigger] results[k],
        ) by {
            assert(ranked@.contains(ranked[k]));
            assert(scored.to_multiset().count(ranked[k]) > 0);
            let at = scored.lemma_contains_to_index(ranked[k]);
            assert(is_match_of(candidates, query@, scored[at]@));
        }
        assert forall|c: int|
            0 <= c < candidates.len() && (#[trigger] match_of(candidates[c], c, query@)) is Some implies results.contains(
            match_of(candidates[c], c, query@)->0,
        ) by {
            let k = choose|k: int|
                0 <= k < scored.len() && scored[k]@ == match_of(candidates[c], c, query@)->0;
            assert(scored.contains(scored[k]));
            assert(ranked@.to_multiset().count(scored[k]) > 0);
            let at = ranked@.lemma_contains_to_index(scored[k]);
            assert(results[at] == scored[k]@);
        }
        if query@.len() == 0 && all_matchable(candidates, query@) {
            assert forall|c: int| 0 <= c < candidates.len() implies (#[trigger] match_of(
                candidates[c],
                c,
                query@,
            ) matches Some(m) && m.score == 0) by {
                assert(matchable(candidates[c], query@));
            }
            lemma_uniform_ranking(candidates, query@, results, 0);
            assert forall|i: int| 0 <= i < results.len() implies {
                &&& (#[trigger] results[i]).id == i
                &&& results[i].path == candidates[i].path
                &&& candidates[i].name is Some
            &&& results[i].name == lowercase(candidates[i].name->0)
                &&& results[i].score == 0
                &&& results[i].positions.len() == 0
            } by {
                assert(Some(results[i]) == match_of(candidates[i], i, query@));
                assert(matchable(candidates[i], query@));
            }
        }
    }
    ranked
}

} // verus!
