use vstd::prelude::*;

use fuzzy_matcher::skim::SkimMatcherV2;
use fuzzy_matcher::FuzzyMatcher;

verus! {

#[verifier::external_type_specification]
#[verifier::external_body]
pub struct ExSkimMatcherV2(SkimMatcherV2);

/// The score and matched character positions that the skim V2 matcher, in its
/// default configuration, gives to `choice` against `pattern`; `None` where the
/// pattern does not match.
pub uninterp spec fn skim_indices(choice: Seq<char>, pattern: Seq<char>) -> Option<(i64, Seq<usize>)>;

pub open spec fn view_match(r: Option<(i64, Vec<usize>)>) -> Option<(i64, Seq<usize>)> {
    match r {
        Some((score, indices)) => Some((score, indices@)),
        None => None,
    }
}

/// Whether the pattern holds an ASCII capital, which makes the match case sensitive.
pub open spec fn has_ascii_upper(s: Seq<char>) -> bool {
    exists|i: int| 0 <= i < s.len() && 'A' <= #[trigger] s[i] <= 'Z'
}

/// `a` and `b` are the same character, or, where case is ignored, the same ASCII
/// letter in two cases.
pub open spec fn same_char(a: char, b: char, case_sensitive: bool) -> bool {
    ||| a == b
    ||| !case_sensitive && 'A' <= a <= 'Z' && (a as u32) + 32 == (b as u32)
    ||| !case_sensitive && 'A' <= b <= 'Z' && (b as u32) + 32 == (a as u32)
}

/// `pattern` occurs in `choice` as a subsequence, characters compared by `same_char`.
pub open spec fn is_subsequence(pattern: Seq<char>, choice: Seq<char>, case_sensitive: bool) -> bool
    decreases choice.len(),
{
    if pattern.len() == 0 {
        true
    } else if choice.len() == 0 {
        false
    } else if same_char(choice[0], pattern[0], case_sensitive) {
        is_subsequence(pattern.drop_first(), choice.drop_first(), case_sensitive)
    } else {
        is_subsequence(pattern, choice.drop_first(), case_sensitive)
    }
}

/// The positions are strictly increasing and each is a character of a text of
/// `len` characters.
pub open spec fn positions_within(indices: Seq<usize>, len: nat) -> bool {
    &&& forall|k: int| 0 <= k < indices.len() ==> indices[k] < len
    &&& forall|i: int, j: int| 0 <= i < j < indices.len() ==> indices[i] < indices[j]
}

/// Relies on `SkimMatcherV2::default`: a matcher with smart case and the default
/// scoring, which holds no state that changes its results.
#[verifier::external_body]
fn default_skim_matcher() -> SkimMatcherV2 {
    SkimMatcherV2::default()
}

/// Relies on `SkimMatcherV2::fuzzy_indices` of a matcher in the default
/// configuration, which is the only one this crate builds: its result depends on
/// the choice and the pattern alone. An empty pattern matches with score 0 and no
/// positions. Otherwise there is a match exactly where the pattern is a
/// subsequence of the choice, ignoring ASCII case unless the pattern holds an
/// ASCII capital. The positions of a match are strictly increasing character
/// positions of the choice.
#[verifier::external_body]
fn skim_fuzzy_indices(m: &SkimMatcherV2, choice: &str, pattern: &str) -> (r: Option<
    (i64, Vec<usize>),
>)
    ensures
        view_match(r) == skim_indices(choice@, pattern@),
        pattern@.len() == 0 ==> view_match(r) == Some((0i64, Seq::<usize>::empty())),
        r is Some <==> is_subsequence(pattern@, choice@, has_ascii_upper(pattern@)),
        r matches Some((_, idx)) ==> positions_within(idx@, choice@.len()),
{
    m.fuzzy_indices(choice, pattern)
}

/// A query and the fuzzy matcher that scores names against it.
pub struct Matcher {
    query: String,
    fuzzy_matcher: SkimMatcherV2,
}

impl Matcher {
    pub closed spec fn query_view(&self) -> Seq<char> {
        self.query@
    }

    pub fn new(query: String) -> (r: Self)
        ensures
            r.query_view() == query@,
    {
        Matcher { query, fuzzy_matcher: default_skim_matcher() }
    }

    /// Scores `text` against the query: its score and the positions of the
    /// matched characters, or `None` where it does not match.
    pub fn fmatch(&self, text: &str) -> (r: Option<(i64, Vec<usize>)>)
        ensures
            view_match(r) == skim_indices(text@, self.query_view()),
            self.query_view().len() == 0 ==> view_match(r) == Some(
                (0i64, Seq::<usize>::empty()),
            ),
            r is Some <==> is_subsequence(
                self.query_view(),
                text@,
                has_ascii_upper(self.query_view()),
            ),
            r matches Some((_, idx)) ==> positions_within(idx@, text@.len()),
    {
        skim_fuzzy_indices(&self.fuzzy_matcher, text, self.query.as_str())
    }
}

} // verus!
