//! Subsequence scoring of a query against a candidate name.
//!
//! A query matches a candidate when its characters occur in the candidate in
//! order, ASCII case ignored. The match that is scored is the leftmost one:
//! every query character is placed at the first candidate position after the
//! previous one. Each placed character earns a base weight, a bonus that grows
//! with the run of adjacent matches before it, a bonus at the very start of the
//! candidate or right after a separator, and loses its distance from the start.

use crate::text::chars_of;
use vstd::prelude::*;

verus! {

/// What every matched character earns.
pub const BASE_WEIGHT: i32 = 10;

/// What a matched character earns for each match in the unbroken run before it.
pub const STREAK_WEIGHT: i32 = 5;

/// What a match on the first character of the candidate earns.
pub const PREFIX_BONUS: i32 = 15;

/// What a match right after a separator earns.
pub const SEPARATOR_BONUS: i32 = 10;

/// `c` with an ASCII capital replaced by its small letter.
pub open spec fn ascii_lower(c: char) -> char {
    if 'A' <= c && c <= 'Z' {
        ((c as u8) + 32) as char
    } else {
        c
    }
}

/// `s` with every ASCII capital replaced by its small letter.
pub open spec fn ascii_lowered(s: Seq<char>) -> Seq<char> {
    Seq::new(s.len(), |i: int| ascii_lower(s[i]))
}

/// The characters after which a new word of a path begins.
pub open spec fn is_separator(c: char) -> bool {
    c == '_' || c == '-' || c == '/' || c == '.' || c == '\\'
}

/// The first position at or after `from` where `hay` holds `x`.
pub open spec fn find_from(hay: Seq<char>, x: char, from: int) -> Option<int>
    decreases hay.len() - from,
{
    if from < 0 || from >= hay.len() {
        None
    } else if hay[from] == x {
        Some(from)
    } else {
        find_from(hay, x, from + 1)
    }
}

/// Where the search for the next character starts once `placed` are placed.
pub open spec fn next_start(placed: Seq<int>) -> int {
    if placed.len() == 0 {
        0
    } else {
        placed.last() + 1
    }
}

/// The leftmost placement of `needle` in `hay`: one position for each character
/// of `needle`, strictly increasing, each the first that is free. `None` when
/// `needle` is no subsequence of `hay`.
pub open spec fn leftmost_match(needle: Seq<char>, hay: Seq<char>) -> Option<Seq<int>>
    decreases needle.len(),
{
    if needle.len() == 0 {
        Some(Seq::empty())
    } else {
        match leftmost_match(needle.drop_last(), hay) {
            None => None,
            Some(placed) => match find_from(hay, needle.last(), next_start(placed)) {
                None => None,
                Some(p) => Some(placed.push(p)),
            },
        }
    }
}

/// How many matches stand in an unbroken run right before match `k`.
pub open spec fn streak_before(placed: Seq<int>, k: int) -> int
    decreases k,
{
    if k <= 0 || k >= placed.len() {
        0
    } else if placed[k] == placed[k - 1] + 1 {
        streak_before(placed, k - 1) + 1
    } else {
        0
    }
}

/// The bonus for where in the candidate a match stands.
pub open spec fn boundary_bonus(candidate: Seq<char>, p: int) -> int {
    if p == 0 {
        PREFIX_BONUS as int
    } else if 0 < p <= candidate.len() && is_separator(candidate[p - 1]) {
        SEPARATOR_BONUS as int
    } else {
        0
    }
}

/// What one matched character at position `p` contributes, `streak` matches
/// standing in a run right before it.
pub open spec fn char_score(candidate: Seq<char>, p: int, streak: int) -> int {
    BASE_WEIGHT + STREAK_WEIGHT * streak - p + boundary_bonus(candidate, p)
}

/// The sum of what the first `n` matches of `placed` contribute.
pub open spec fn placement_score(candidate: Seq<char>, placed: Seq<int>, n: int) -> int
    decreases n,
{
    if n <= 0 {
        0
    } else {
        placement_score(candidate, placed, n - 1) + char_score(
            candidate,
            placed[n - 1],
            streak_before(placed, n - 1),
        )
    }
}

/// `v` raised to zero where it is negative and held at the largest `i32`
/// where it is larger.
pub open spec fn clamped(v: int) -> int {
    if v < 0 {
        0
    } else if v > i32::MAX {
        i32::MAX as int
    } else {
        v
    }
}

/// The score of `query` against `candidate`: `None` when the query, ASCII case
/// ignored, is no subsequence of the candidate; else the sum over the leftmost
/// match, never negative and never above the largest `i32`.
pub open spec fn fuzzy_score(query: Seq<char>, candidate: Seq<char>) -> Option<int> {
    match leftmost_match(ascii_lowered(query), ascii_lowered(candidate)) {
        None => None,
        Some(placed) => Some(clamped(placement_score(candidate, placed, placed.len() as int))),
    }
}

/// The small letter of an ASCII capital, any other character unchanged.
pub fn to_ascii_lower(c: char) -> (r: char)
    ensures
        r == ascii_lower(c),
{
    if c >= 'A' && c <= 'Z' {
        ((c as u8) + 32) as char
    } else {
        c
    }
}

/// Whether a new word of a path begins after `c`.
pub fn separator(c: char) -> (r: bool)
    ensures
        r == is_separator(c),
{
    c == '_' || c == '-' || c == '/' || c == '.' || c == '\\'
}

/// A placement is read from the front: a later match changes neither the
/// streak before an earlier one nor the sum up to it.
proof fn lemma_push_keeps_front(candidate: Seq<char>, placed: Seq<int>, p: int, n: int)
    requires
        0 <= n <= placed.len(),
    ensures
        n < placed.len() ==> streak_before(placed.push(p), n) == streak_before(placed, n),
        placement_score(candidate, placed.push(p), n) == placement_score(candidate, placed, n),
    decreases n,
{
    if n > 0 {
        lemma_push_keeps_front(candidate, placed, p, n - 1);
        assert(placed.push(p)[n - 1] == placed[n - 1]);
        if n < placed.len() {
            assert(placed.push(p)[n] == placed[n]);
        }
    }
}

/// A query whose beginning cannot be placed cannot be placed either.
proof fn lemma_unplaced_prefix(needle: Seq<char>, hay: Seq<char>, n: int)
    requires
        0 <= n <= needle.len(),
        leftmost_match(needle.take(n), hay) is None,
    ensures
        leftmost_match(needle, hay) is None,
    decreases needle.len() - n,
{
    if n < needle.len() {
        assert(needle.take(n + 1).drop_last() =~= needle.take(n));
        lemma_unplaced_prefix(needle, hay, n + 1);
    } else {
        assert(needle.take(n) =~= needle);
    }
}

/// The score as a machine integer, from the three sums that make it up:
/// `gains` of base weights and boundary bonuses, `runs` of streak lengths,
/// `dist` of positions. The sums are kept apart so that none of them can
/// overflow whatever the lengths of the texts are.
fn settle(gains: u128, runs: u128, dist: u128) -> (r: i32)
    requires
        gains <= 0xffff_ffff_ffff_ffff_ffff,
    ensures
        r == clamped(gains + STREAK_WEIGHT * runs - dist),
{
    let weight: u128 = STREAK_WEIGHT as u128;
    let whole: u128 = dist / weight;
    let rest: u128 = dist % weight;
    if runs > whole {
        let ahead: u128 = runs - whole;
        if ahead > 0x2000_0000 {
            i32::MAX
        } else {
            let total: u128 = gains + weight * ahead - rest;
            if total > i32::MAX as u128 {
                i32::MAX
            } else {
                total as i32
            }
        }
    } else {
        let behind: u128 = whole - runs;
        if behind > gains {
            0
        } else {
            let loss: u128 = weight * behind + rest;
            if loss >= gains {
                0
            } else {
                let total: u128 = gains - loss;
                if total > i32::MAX as u128 {
                    i32::MAX
                } else {
                    total as i32
                }
            }
        }
    }
}

/// The positions of a placement as a sequence of integers.
pub open spec fn as_positions(placed: Seq<usize>) -> Seq<int> {
    Seq::new(placed.len(), |k: int| placed[k] as int)
}

/// Matches `query` against `candidate` and returns the score together with the
/// position in `candidate` of every query character.
///
/// Returns `None` when the query, ASCII case ignored, is no subsequence of the
/// candidate. Otherwise every query character is placed at the first free
/// position of the candidate, and the placed characters' contributions are
/// summed; the sum is returned, raised to zero where it is negative and held
/// at `i32::MAX` where it is larger.
pub fn fuzzy_match(query: &str, candidate: &str) -> (r: Option<(i32, Vec<usize>)>)
    ensures
        r is Some <==> fuzzy_score(query@, candidate@) is Some,
        r matches Some(m) ==> fuzzy_score(query@, candidate@) == Some(m.0 as int) && leftmost_match(
            ascii_lowered(query@),
            ascii_lowered(candidate@),
        ) == Some(as_positions(m.1@)) && m.1@.len() == query@.len(),
{
    let q = chars_of(query);
    let c = chars_of(candidate);
    let ghost needle = ascii_lowered(q@);
    let ghost hay = ascii_lowered(c@);
    let mut placed: Vec<usize> = Vec::new();
    let mut streak: usize = 0;
    let mut gains: u128 = 0;
    let mut runs: u128 = 0;
    let mut dist: u128 = 0;
    let mut i: usize = 0;
    proof {
        assert(needle.take(0) =~= Seq::<char>::empty());
        assert(as_positions(placed@) =~= Seq::<int>::empty());
    }
    while i < c.len() && placed.len() < q.len()
        invariant
            q@ == query@,
            c@ == candidate@,
            needle == ascii_lowered(q@),
            hay == ascii_lowered(c@),
            i <= c.len(),
            placed.len() <= q.len(),
            placed.len() <= i,
            streak <= placed.len(),
            forall|j: int| 0 <= j < placed.len() ==> #[trigger] placed[j] < i,
            leftmost_match(needle.take(placed.len() as int), hay) == Some(as_positions(placed@)),
            placed.len() < q.len() ==> find_from(
                hay,
                needle[placed.len() as int],
                next_start(as_positions(placed@)),
            ) == find_from(hay, needle[placed.len() as int], i as int),
            streak == if placed.len() > 0 && placed[placed.len() - 1] == i - 1 {
                streak_before(as_positions(placed@), placed.len() - 1) + 1
            } else {
                0
            },
            gains + STREAK_WEIGHT * runs - dist == placement_score(
                c@,
                as_positions(placed@),
                placed.len() as int,
            ),
            gains <= 25 * i,
            runs <= i * i,
            dist <= i * i,
        decreases c.len() - i,
    {
        proof {
            assert(i * i + i <= (i + 1) * (i + 1)) by (nonlinear_arith);
            assert((i + 1) * (i + 1) <= 0xffff_ffff_ffff_ffff * 0xffff_ffff_ffff_ffff) by (nonlinear_arith)
                requires
                    0 <= i < 0xffff_ffff_ffff_ffff,
            ;
        }
        let k = placed.len();
        if to_ascii_lower(q[k]) == to_ascii_lower(c[i]) {
            let bonus: u128 = if i == 0 {
                PREFIX_BONUS as u128
            } else if separator(c[i - 1]) {
                SEPARATOR_BONUS as u128
            } else {
                0
            };
            let ghost before = as_positions(placed@);
            placed.push(i);
            proof {
                let grown = as_positions(placed@);
                assert(grown =~= before.push(i as int));
                lemma_push_keeps_front(c@, before, i as int, k as int);
                assert(needle.take(k + 1).drop_last() =~= needle.take(k as int));
                assert(needle.take(k + 1).last() == needle[k as int]);
                assert(hay[i as int] == needle[k as int]);
                if k > 0 {
                    lemma_push_keeps_front(c@, before, i as int, k - 1);
                    assert(grown[k - 1] == before[k - 1]);
                }
                assert(streak_before(grown, k as int) == streak);
                assert(placement_score(c@, grown, k + 1) == placement_score(c@, grown, k as int)
                    + char_score(c@, i as int, streak as int));
            }
            gains = gains + BASE_WEIGHT as u128 + bonus;
            runs = runs + streak as u128;
            dist = dist + i as u128;
            streak = streak + 1;
        } else {
            streak = 0;
        }
        i = i + 1;
    }
    if placed.len() == q.len() {
        proof {
            assert(needle.take(placed.len() as int) =~= needle);
            assert(as_positions(placed@).len() == placed@.len());
        }
        Some((settle(gains, runs, dist), placed))
    } else {
        proof {
            let k = placed.len() as int;
            assert(needle.take(k + 1).drop_last() =~= needle.take(k));
            assert(needle.take(k + 1).last() == needle[k]);
            lemma_unplaced_prefix(needle, hay, k + 1);
        }
        None
    }
}

/// Scores `query` against `candidate`: `None` when the query, ASCII case
/// ignored, is no subsequence of the candidate, else the score of the
/// leftmost match.
pub fn fuzzy_matcher(query: &str, candidate: &str) -> (r: Option<i32>)
    ensures
        r is Some <==> fuzzy_score(query@, candidate@) is Some,
        r matches Some(s) ==> fuzzy_score(query@, candidate@) == Some(s as int),
{
    match fuzzy_match(query, candidate) {
        Some(m) => Some(m.0),
        None => None,
    }
}

/// Whether `at` places `needle` in `hay`: one position for each character,
/// the positions strictly increasing, each holding its character.
pub open spec fn places(needle: Seq<char>, hay: Seq<char>, at: Seq<int>) -> bool {
    &&& at.len() == needle.len()
    &&& forall|k: int| 0 <= k < at.len() ==> 0 <= #[trigger] at[k] < hay.len() && hay[at[k]] == needle[k]
    &&& forall|j: int, k: int| 0 <= j < k < at.len() ==> at[j] < at[k]
}

/// `find_from` finds the first occurrence at or after `from`, and fails only
/// where there is none.
proof fn lemma_find_from(hay: Seq<char>, x: char, from: int)
    requires
        0 <= from,
    ensures
        match find_from(hay, x, from) {
            Some(p) => from <= p < hay.len() && hay[p] == x && forall|j: int|
                from <= j < p ==> hay[j] != x,
            None => forall|j: int| from <= j < hay.len() ==> hay[j] != x,
        },
    decreases hay.len() - from,
{
    if from < hay.len() && hay[from] != x {
        lemma_find_from(hay, x, from + 1);
    }
}

/// The leftmost match is a placement of the query: it has one position for
/// each query character, in increasing order, and each position holds its
/// character.
pub proof fn lemma_leftmost_match_places(needle: Seq<char>, hay: Seq<char>)
    ensures
        leftmost_match(needle, hay) matches Some(at) ==> places(needle, hay, at),
    decreases needle.len(),
{
    if needle.len() > 0 {
        lemma_leftmost_match_places(needle.drop_last(), hay);
        if let Some(placed) = leftmost_match(needle.drop_last(), hay) {
            lemma_find_from(hay, needle.last(), next_start(placed));
        }
    }
}

/// Where the query can be placed at all, the leftmost match exists, and none
/// of its positions lies after the corresponding one of the other placement.
pub proof fn lemma_leftmost_match_is_leftmost(needle: Seq<char>, hay: Seq<char>, other: Seq<int>)
    requires
        places(needle, hay, other),
    ensures
        leftmost_match(needle, hay) matches Some(at) && at.len() == other.len() && forall|k: int|
            0 <= k < at.len() ==> at[k] <= other[k],
    decreases needle.len(),
{
    if needle.len() > 0 {
        let front = other.drop_last();
        assert(places(needle.drop_last(), hay, front));
        lemma_leftmost_match_is_leftmost(needle.drop_last(), hay, front);
        lemma_leftmost_match_places(needle.drop_last(), hay);
        let placed = leftmost_match(needle.drop_last(), hay)->0;
        if placed.len() > 0 {
            assert(placed.last() <= front[placed.len() - 1]);
            assert(other[placed.len() - 1] < other[placed.len() as int]);
        }
        lemma_find_from(hay, needle.last(), next_start(placed));
        assert(hay[other.last()] == needle.last());
    }
}

/// A query matches exactly when it is a subsequence of the candidate.
pub proof fn lemma_matches_iff_subsequence(needle: Seq<char>, hay: Seq<char>)
    ensures
        leftmost_match(needle, hay) is Some <==> exists|at: Seq<int>| places(needle, hay, at),
{
    lemma_leftmost_match_places(needle, hay);
    if exists|at: Seq<int>| places(needle, hay, at) {
        let at = choose|at: Seq<int>| places(needle, hay, at);
        lemma_leftmost_match_is_leftmost(needle, hay, at);
    }
}

/// The empty query matches every candidate with the score zero.
pub proof fn lemma_empty_query_scores_zero(query: Seq<char>, candidate: Seq<char>)
    requires
        query.len() == 0,
    ensures
        fuzzy_score(query, candidate) == Some(0int),
{
    assert(ascii_lowered(query).len() == 0);
}

/// A score is never negative and never above the largest `i32`.
pub proof fn lemma_score_in_range(query: Seq<char>, candidate: Seq<char>)
    ensures
        fuzzy_score(query, candidate) matches Some(score) ==> 0 <= score <= i32::MAX,
{
}

/// A match on the first character of the candidate contributes strictly more
/// than a match at any later position with the same streak before it.
pub proof fn lemma_start_scores_highest(candidate: Seq<char>, p: int, streak: int)
    requires
        0 < p,
    ensures
        char_score(candidate, 0, streak) > char_score(candidate, p, streak),
{
}

/// With the same streak and the same boundary bonus, a later position
/// contributes less, by the distance between the two.
pub proof fn lemma_later_position_scores_less(candidate: Seq<char>, p: int, q: int, streak: int)
    requires
        p < q,
        boundary_bonus(candidate, p) == boundary_bonus(candidate, q),
    ensures
        char_score(candidate, q, streak) == char_score(candidate, p, streak) - (q - p),
        char_score(candidate, q, streak) < char_score(candidate, p, streak),
{
}

/// At the same position a longer streak contributes more.
pub proof fn lemma_longer_streak_scores_more(candidate: Seq<char>, p: int, short: int, long: int)
    requires
        short < long,
    ensures
        char_score(candidate, p, short) < char_score(candidate, p, long),
{
    assert(STREAK_WEIGHT * short < STREAK_WEIGHT * long) by (nonlinear_arith)
        requires
            short < long,
            STREAK_WEIGHT == 5,
    ;
}

/// Whether `later` is `first` moved to the right by `shift` with nothing else
/// changed: the same number of positions, each `shift` further on, and from
/// the second match on the same boundary bonus.
pub open spec fn shifted_match(candidate: Seq<char>, first: Seq<int>, later: Seq<int>, shift: int) -> bool {
    &&& first.len() == later.len()
    &&& forall|k: int| 0 <= k < first.len() ==> #[trigger] later[k] == first[k] + shift
    &&& forall|k: int|
        1 <= k < first.len() ==> boundary_bonus(candidate, #[trigger] later[k]) == boundary_bonus(
            candidate,
            first[k],
        )
}

/// Two matches of the same shape have the same streaks.
proof fn lemma_shift_keeps_streaks(candidate: Seq<char>, first: Seq<int>, later: Seq<int>, shift: int, k: int)
    requires
        shifted_match(candidate, first, later, shift),
    ensures
        streak_before(later, k) == streak_before(first, k),
    decreases k,
{
    if 0 < k < first.len() {
        lemma_shift_keeps_streaks(candidate, first, later, shift, k - 1);
        assert(later[k] == first[k] + shift);
        assert(later[k - 1] == first[k - 1] + shift);
    }
}

/// The sums of a match that starts at the first character and of the same
/// match moved to the right differ by at least five and the shift for each
/// match.
proof fn lemma_shift_costs(candidate: Seq<char>, first: Seq<int>, later: Seq<int>, shift: int, n: int)
    requires
        shifted_match(candidate, first, later, shift),
        shift > 0,
        1 <= n <= first.len(),
        first[0] == 0,
    ensures
        placement_score(candidate, first, n) - placement_score(candidate, later, n) >= 5 + n
            * shift,
    decreases n,
{
    lemma_shift_keeps_streaks(candidate, first, later, shift, n - 1);
    assert(later[n - 1] == first[n - 1] + shift);
    if n == 1 {
        assert(placement_score(candidate, first, 0) == 0);
        assert(placement_score(candidate, later, 0) == 0);
        assert(1 * shift == shift) by (nonlinear_arith);
    } else {
        lemma_shift_costs(candidate, first, later, shift, n - 1);
        assert(n * shift == (n - 1) * shift + shift) by (nonlinear_arith);
    }
}

/// The prefix bonus: a match that starts at the first character of the
/// candidate sums to strictly more than the same match moved to the right, so
/// its score is never lower, and strictly higher unless both scores are zero
/// or both are held at the largest `i32`.
pub proof fn lemma_match_at_start_outscores_shifted(
    candidate: Seq<char>,
    first: Seq<int>,
    later: Seq<int>,
    shift: int,
)
    requires
        shifted_match(candidate, first, later, shift),
        shift > 0,
        first.len() > 0,
        first[0] == 0,
    ensures
        placement_score(candidate, first, first.len() as int) > placement_score(
            candidate,
            later,
            later.len() as int,
        ),
        clamped(placement_score(candidate, first, first.len() as int)) >= clamped(
            placement_score(candidate, later, later.len() as int),
        ),
        0 < placement_score(candidate, first, first.len() as int) <= i32::MAX ==> clamped(
            placement_score(candidate, first, first.len() as int),
        ) > clamped(placement_score(candidate, later, later.len() as int)),
{
    lemma_shift_costs(candidate, first, later, shift, first.len() as int);
    assert(first.len() * shift > 0) by (nonlinear_arith)
        requires
            first.len() > 0,
            shift > 0,
    ;
}

/// The prefix bonus for two queries on one candidate: where the match of the
/// first query starts at the first character and the match of the second is
/// the same match moved to the right, the first query never scores lower, and
/// it scores strictly higher unless its score is zero or the other's is held
/// at the largest `i32`.
pub proof fn lemma_prefix_bonus(
    candidate: Seq<char>,
    at_start: Seq<char>,
    further_on: Seq<char>,
    shift: int,
)
    requires
        leftmost_match(ascii_lowered(at_start), ascii_lowered(candidate)) is Some,
        leftmost_match(ascii_lowered(further_on), ascii_lowered(candidate)) is Some,
        shifted_match(
            candidate,
            leftmost_match(ascii_lowered(at_start), ascii_lowered(candidate))->0,
            leftmost_match(ascii_lowered(further_on), ascii_lowered(candidate))->0,
            shift,
        ),
        shift > 0,
        at_start.len() > 0,
        leftmost_match(ascii_lowered(at_start), ascii_lowered(candidate))->0[0] == 0,
    ensures
        fuzzy_score(at_start, candidate)->0 >= fuzzy_score(further_on, candidate)->0,
        fuzzy_score(at_start, candidate)->0 > 0 && fuzzy_score(further_on, candidate)->0 < i32::MAX
            ==> fuzzy_score(at_start, candidate)->0 > fuzzy_score(further_on, candidate)->0,
{
    let first = leftmost_match(ascii_lowered(at_start), ascii_lowered(candidate))->0;
    let later = leftmost_match(ascii_lowered(further_on), ascii_lowered(candidate))->0;
    lemma_leftmost_match_places(ascii_lowered(at_start), ascii_lowered(candidate));
    lemma_match_at_start_outscores_shifted(candidate, first, later, shift);
}

} // verus!
