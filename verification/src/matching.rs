//! Scoring one candidate against the query with the `nucleo` matcher.

use crate::text::{has_ascii_capital, holds_ascii_capital, is_ascii_capital};
use vstd::prelude::*;
use vstd::string::StringSliceAdditionalSpecFns;

verus! {

/// The engine of the `nucleo` crate. Nothing of its inside is visible here.
#[verifier::external_type_specification]
#[verifier::external_body]
pub struct ExMatcher(nucleo::Matcher);

/// The longest name, in bytes, that is handed to the matcher.
pub const MAX_NAME_BYTES: usize = 0xffff_ffff;

/// The longest query, in bytes, that is handed to the matcher. The matcher
/// counts a text in bytes or in code points as `nucleo::Utf32Str::new` sees
/// fit, and in bytes even one that is not ASCII where every cluster of it
/// begins with an ASCII character; so only the bytes bound what it counts.
pub const MAX_QUERY_BYTES: usize = 2048;

/// What `str::to_lowercase` makes of a text.
pub uninterp spec fn lowercase(text: Seq<char>) -> Seq<char>;

/// What `nucleo::Matcher::fuzzy_indices` finds with the default configuration
/// for a needle in a haystack that holds no ASCII capital: `None` where the
/// needle does not match, else the score and the positions in the haystack
/// that it reports.
pub uninterp spec fn nucleo_match(haystack: Seq<char>, needle: Seq<char>) -> Option<(u16, Seq<u32>)>;

/// `str::to_lowercase`: the result is a function of the text alone, and the
/// empty text stays empty.
pub assume_specification[ str::to_lowercase ](text: &str) -> (lowered: String)
    ensures
        lowered@ == lowercase(text@),
        text@.len() == 0 ==> lowered@.len() == 0,
;

/// `<nucleo::Matcher as Default>::default`: a fresh engine.
pub assume_specification[ <nucleo::Matcher as core::default::Default>::default ]() -> (matcher: nucleo::Matcher);

/// What the matcher found, the positions as a sequence.
pub open spec fn found_view(found: Option<(u16, Vec<u32>)>) -> Option<(u16, Seq<u32>)> {
    match found {
        None => None,
        Some(hit) => Some((hit.0, hit.1@)),
    }
}

/// `nucleo::Matcher::fuzzy_indices`, called with the configuration
/// `nucleo::Config::DEFAULT`, both texts turned into `nucleo::Utf32Str` and
/// the positions collected in a fresh vector. The matcher's own configuration
/// is put back after the call.
///
/// The matcher's source shows a result that depends on the configuration and
/// the two texts only, and the score zero with no position for an empty
/// needle. Three kinds of input are kept from it:
/// - It panics on a haystack of more than `u32::MAX` code points.
/// - It lowers the haystack while it scores but not while it looks for the
///   needle's bytes beforehand, and panics where the two disagree: on an
///   ASCII capital of the needle that the haystack holds too. A haystack
///   without an ASCII capital leaves no room for that.
/// - Its score is a `u16` sum to which the first needle character adds at
///   most 36 and every further one at most 26, so a needle of up to 2048
///   characters cannot overflow it.
///
/// Neither text has more code points than bytes, so the lengths are bounded
/// in bytes.
#[verifier::external_body]
fn fuzzy_indices(matcher: &mut nucleo::Matcher, haystack: &str, needle: &str) -> (found: Option<(u16, Vec<u32>)>)
    requires
        haystack.spec_bytes().len() <= MAX_NAME_BYTES,
        needle.spec_bytes().len() <= MAX_QUERY_BYTES,
        forall|i: int| 0 <= i < haystack@.len() ==> !is_ascii_capital(#[trigger] haystack@[i]),
    ensures
        found_view(found) == nucleo_match(haystack@, needle@),
        needle@.len() == 0 ==> found_view(found) == Some((0u16, Seq::<u32>::empty())),
{
    let own = matcher.config.clone();
    matcher.config = nucleo::Config::DEFAULT;
    let mut haystack_buf = Vec::new();
    let mut needle_buf = Vec::new();
    let mut positions = Vec::new();
    let score = matcher.fuzzy_indices(
        nucleo::Utf32Str::new(haystack, &mut haystack_buf),
        nucleo::Utf32Str::new(needle, &mut needle_buf),
        &mut positions,
    );
    matcher.config = own;
    score.map(|s| (s, positions))
}

/// One entry of the list that is searched.
#[derive(Clone, Debug, PartialEq, Eq)]
pub struct Candidate {
    /// The path under which the file is opened and shown.
    pub path: String,
    /// The file's name, which the query is matched against. A path that
    /// ends in no file name has none, and is never a match.
    pub name: Option<String>,
}

/// A candidate that matched the query.
#[derive(Clone, Debug, PartialEq, Eq)]
pub struct ScoredMatch {
    /// The candidate's place in the list that was searched.
    pub id: usize,
    /// The candidate's path.
    pub path: String,
    /// The candidate's name in lower case, which is what was matched.
    pub name: String,
    /// The matcher's score; a higher one ranks earlier.
    pub score: u16,
    /// The positions in `name` that the matcher reports as matched.
    pub positions: Vec<u32>,
}

/// A candidate as plain values.
pub struct CandidateView {
    pub path: Seq<char>,
    pub name: Option<Seq<char>>,
}

/// A match as plain values.
pub struct MatchView {
    pub id: int,
    pub path: Seq<char>,
    pub name: Seq<char>,
    pub score: int,
    pub positions: Seq<u32>,
}

impl View for Candidate {
    type V = CandidateView;

    open spec fn view(&self) -> CandidateView {
        CandidateView {
            path: self.path@,
            name: match self.name {
                Some(name) => Some(name@),
                None => None,
            },
        }
    }
}

impl View for ScoredMatch {
    type V = MatchView;

    open spec fn view(&self) -> MatchView {
        MatchView {
            id: self.id as int,
            path: self.path@,
            name: self.name@,
            score: self.score as int,
            positions: self.positions@,
        }
    }
}

/// Whether a lowered name and a query are fit for the matcher: both are short
/// enough, and the name holds no ASCII capital.
pub open spec fn within_limits(name: Seq<char>, query: Seq<char>) -> bool {
    &&& vstd::utf8::encode_utf8(name).len() <= MAX_NAME_BYTES
    &&& vstd::utf8::encode_utf8(query).len() <= MAX_QUERY_BYTES
    &&& !holds_ascii_capital(name)
}

/// Whether a candidate has a name, and the lowered name and the query are
/// fit for the matcher.
pub open spec fn matchable(candidate: CandidateView, query: Seq<char>) -> bool {
    candidate.name matches Some(name) && within_limits(lowercase(name), query)
}

/// The match of the candidate at place `id` for `query`, if there is one: the
/// name is lowered, and it matches when both texts are within the matcher's
/// limits and the matcher finds the query in the lowered name. A candidate
/// without a name does not match.
pub open spec fn match_of(candidate: CandidateView, id: int, query: Seq<char>) -> Option<MatchView> {
    if matchable(candidate, query) {
        let name = lowercase(candidate.name->0);
        match nucleo_match(name, query) {
            Some(hit) => Some(
                MatchView { id, path: candidate.path, name, score: hit.0 as int, positions: hit.1 },
            ),
            None => None,
        }
    } else {
        None
    }
}

/// An optional match as plain values.
pub open spec fn found_match(found: Option<ScoredMatch>) -> Option<MatchView> {
    match found {
        Some(m) => Some(m@),
        None => None,
    }
}

/// A match with the score zero and no matched position: what the empty query
/// finds in every name.
pub open spec fn matches_blank(found: Option<MatchView>) -> bool {
    found matches Some(m) && m.score == 0 && m.positions.len() == 0
}

/// Scores the candidate at place `id` against `query`.
///
/// The name is lowered; the query is handed to the matcher as it stands, and
/// since the matcher expects it in lower case, callers lower it first. A
/// candidate without a name does not match, nor does a candidate or a query
/// beyond the matcher's limits. The lowered name is looked through for an
/// ASCII capital before it is handed to the matcher, and would not match if
/// it held one. The matcher works with `nucleo`'s default configuration and
/// keeps its own.
pub fn score_candidate(
    matcher: &mut nucleo::Matcher,
    candidate: &Candidate,
    id: usize,
    query: &str,
) -> (found: Option<ScoredMatch>)
    ensures
        found_match(found) == match_of(candidate@, id as int, query@),
        query@.len() == 0 && matchable(candidate@, query@) ==> matches_blank(found_match(found)),
{
    match &candidate.name {
        None => None,
        Some(raw) => {
            let name = raw.as_str().to_lowercase();
            if name.as_str().as_bytes().len() > MAX_NAME_BYTES || query.as_bytes().len()
                > MAX_QUERY_BYTES || has_ascii_capital(name.as_str()) {
                return None;
            }
            match fuzzy_indices(matcher, name.as_str(), query) {
                None => None,
                Some(hit) => Some(
                    ScoredMatch {
                        id,
                        path: candidate.path.clone(),
                        name,
                        score: hit.0,
                        positions: hit.1,
                    },
                ),
            }
        },
    }
}

} // verus!
