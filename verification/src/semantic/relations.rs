//! Relations between concepts: creating them, and finding them in free text.

use vstd::prelude::*;
use crate::text::chars_of;
use crate::text::lowercase;
use crate::text::lowercase_spec;
use crate::text::owned;
use crate::text::string_of;
use crate::text::trim;
use crate::text::trim_spec;

verus! {

/// The error of `regex`, carried through and never looked into.
#[verifier::external_type_specification]
#[verifier::external_body]
pub struct ExRegexError(regex::Error);

/// The confidence of a relation that was found in free text.
pub const EXTRACTED_CONFIDENCE: i64 = 700_000;

/// What the `regex` crate finds of a pattern in a text: for every match, from
/// left to right and without overlap, the texts of the first and of the
/// second group, each where the group took part in the match; or nothing
/// where the crate does not accept the pattern.
pub uninterp spec fn captured_spec(pattern: Seq<char>, text: Seq<char>) -> Option<
    Seq<(Option<Seq<char>>, Option<Seq<char>>)>,
>;

/// The value of a text that may be absent.
pub open spec fn group_view(group: Option<String>) -> Option<Seq<char>> {
    match group {
        Some(text) => Some(text@),
        None => None,
    }
}

/// The values of a list of pairs of groups.
pub open spec fn pair_views(pairs: Seq<(Option<String>, Option<String>)>) -> Seq<
    (Option<Seq<char>>, Option<Seq<char>>),
> {
    Seq::new(pairs.len(), |i: int| (group_view(pairs[i].0), group_view(pairs[i].1)))
}

/// Matches `pattern` against `text` by `regex::Regex::new` and
/// `Regex::captures_iter`, and hands out the first two groups of every match
/// as `Captures::get` gives them. The matching is the crate's and is only
/// named here.
#[verifier::external_body]
pub(crate) fn capture_pairs(pattern: &str, text: &str) -> (found: Result<
    Vec<(Option<String>, Option<String>)>,
    regex::Error,
>)
    ensures
        (found is Ok) == (captured_spec(pattern@, text@) is Some),
        found is Ok ==> pair_views(found->Ok_0@) == captured_spec(pattern@, text@)->0,
{
    let re = regex::Regex::new(pattern)?;
    let mut found = Vec::new();
    for caps in re.captures_iter(text) {
        let first = match caps.get(1) {
            Some(group) => Some(group.as_str().to_string()),
            None => None,
        };
        let second = match caps.get(2) {
            Some(group) => Some(group.as_str().to_string()),
            None => None,
        };
        found.push((first, second));
    }
    Ok(found)
}

/// A relation found in free text: the texts of its two ends, trimmed and in
/// lower case, and its predicate.
#[derive(Debug, Clone)]
pub struct RelationCandidate {
    pub subject: String,
    pub predicate: String,
    pub object: String,
}

/// The mathematical value of a `RelationCandidate`.
pub struct RelationCandidateView {
    pub subject: Seq<char>,
    pub predicate: Seq<char>,
    pub object: Seq<char>,
}

impl View for RelationCandidate {
    type V = RelationCandidateView;

    open spec fn view(&self) -> RelationCandidateView {
        RelationCandidateView {
            subject: self.subject@,
            predicate: self.predicate@,
            object: self.object@,
        }
    }
}

/// The values of a list of candidates.
pub open spec fn candidate_views(candidates: Seq<RelationCandidate>) -> Seq<RelationCandidateView> {
    Seq::new(candidates.len(), |i: int| candidates[i]@)
}

/// The surface patterns by which relations are found, each with the
/// predicate it stands for; in the order in which they are tried.
pub open spec fn patterns_spec() -> Seq<(Seq<char>, Seq<char>)> {
    seq![
        ("(.+)\\s+is\\s+a\\s+([a-z]+)"@, "is_a"@),
        ("(.+)\\s+likes\\s+(.+)"@, "likes"@),
        ("(.+)\\s+wants\\s+(.+)"@, "wants"@),
        ("(.+)\\s+has\\s+(.+)"@, "has"@),
        ("(.+)\\s+—\\s+это\\s+(.+)"@, "is_a"@),
        ("(.+)\\s+любит\\s+(.+)"@, "likes"@),
        ("(.+)\\s+хочет\\s+(.+)"@, "wants"@),
    ]
}

/// The candidates that the matches of one pattern give: one for every match
/// in which both groups took part, its ends trimmed and in lower case; a
/// match without one of the groups gives none.
pub open spec fn candidates_of_spec(
    pairs: Seq<(Option<Seq<char>>, Option<Seq<char>>)>,
    predicate: Seq<char>,
) -> Seq<RelationCandidateView>
    decreases pairs.len(),
{
    if pairs.len() == 0 {
        Seq::empty()
    } else {
        let earlier = candidates_of_spec(pairs.drop_last(), predicate);
        match pairs.last() {
            (Some(subject), Some(object)) => earlier.push(
                RelationCandidateView {
                    subject: lowercase_spec(trim_spec(subject)),
                    predicate,
                    object: lowercase_spec(trim_spec(object)),
                },
            ),
            _ => earlier,
        }
    }
}

/// The candidates that the first `count` patterns find in `text`.
pub open spec fn found_spec(text: Seq<char>, count: nat) -> Seq<RelationCandidateView>
    decreases count,
{
    if count == 0 || count > patterns_spec().len() {
        Seq::empty()
    } else {
        let pattern = patterns_spec()[count - 1];
        let earlier = found_spec(text, (count - 1) as nat);
        match captured_spec(pattern.0, text) {
            Some(pairs) => earlier + candidates_of_spec(pairs, pattern.1),
            None => earlier,
        }
    }
}

/// All relations that the surface patterns find in `text`.
pub open spec fn relation_candidates_spec(text: Seq<char>) -> Seq<RelationCandidateView> {
    found_spec(text, patterns_spec().len())
}

/// A text trimmed and in lower case.
fn normalized(text: &str) -> (normal: String)
    ensures
        normal@ == lowercase_spec(trim_spec(text@)),
{
    let chars = chars_of(text);
    let trimmed = trim(chars.as_slice());
    let lower = lowercase(trimmed.as_slice());
    string_of(lower.as_slice())
}

/// Adds what one pattern finds in `text` to `found`.
fn collect(found: &mut Vec<RelationCandidate>, pattern: &str, predicate: &str, text: &str)
    ensures
        candidate_views(final(found)@) == candidate_views(old(found)@) + match captured_spec(
            pattern@,
            text@,
        ) {
            Some(pairs) => candidates_of_spec(pairs, predicate@),
            None => Seq::empty(),
        },
{
    let ghost start = candidate_views(found@);
    match capture_pairs(pattern, text) {
        Ok(pairs) => {
            let ghost views = pair_views(pairs@);
            let mut i: usize = 0;
            assert(candidate_views(found@) =~= start + candidates_of_spec(
                views.take(0),
                predicate@,
            ));
            while i < pairs.len()
                invariant
                    i <= pairs.len(),
                    views == pair_views(pairs@),
                    candidate_views(found@) == start + candidates_of_spec(
                        views.take(i as int),
                        predicate@,
                    ),
                decreases pairs.len() - i,
            {
                proof {
                    assert(views.take(i + 1).drop_last() =~= views.take(i as int));
                    assert(views.take(i + 1).last() == views[i as int]);
                }
                match (&pairs[i].0, &pairs[i].1) {
                    (Some(subject), Some(object)) => {
                        let candidate = RelationCandidate {
                            subject: normalized(subject.as_str()),
                            predicate: owned(predicate),
                            object: normalized(object.as_str()),
                        };
                        let ghost before = candidate_views(found@);
                        let ghost earlier = candidates_of_spec(views.take(i as int), predicate@);
                        proof {
                            assert(start + earlier.push(candidate@) =~= (start + earlier).push(
                                candidate@,
                            ));
                        }
                        found.push(candidate);
                        proof {
                            assert(candidate_views(found@) =~= before.push(candidate@));
                        }
                    },
                    _ => {},
                }
                i = i + 1;
            }
            proof {
                assert(views.take(i as int) =~= views);
            }
        },
        Err(_) => {
            assert(start + Seq::<RelationCandidateView>::empty() =~= start);
        },
    }
}

/// Finds the relations that the surface patterns see in a text: for every
/// pattern in turn, for every match from left to right, the two ends trimmed
/// and in lower case, with the predicate of the pattern.
pub fn relation_candidates(text: &str) -> (found: Vec<RelationCandidate>)
    ensures
        candidate_views(found@) == relation_candidates_spec(text@),
{
    let mut found: Vec<RelationCandidate> = Vec::new();
    assert(candidate_views(found@) =~= found_spec(text@, 0));
    collect(&mut found, "(.+)\\s+is\\s+a\\s+([a-z]+)", "is_a", text);
    assert(candidate_views(found@) =~= found_spec(text@, 1));
    collect(&mut found, "(.+)\\s+likes\\s+(.+)", "likes", text);
    assert(candidate_views(found@) =~= found_spec(text@, 2));
    collect(&mut found, "(.+)\\s+wants\\s+(.+)", "wants", text);
    assert(candidate_views(found@) =~= found_spec(text@, 3));
    collect(&mut found, "(.+)\\s+has\\s+(.+)", "has", text);
    assert(candidate_views(found@) =~= found_spec(text@, 4));
    collect(&mut found, "(.+)\\s+—\\s+это\\s+(.+)", "is_a", text);
    assert(candidate_views(found@) =~= found_spec(text@, 5));
    collect(&mut found, "(.+)\\s+любит\\s+(.+)", "likes", text);
    assert(candidate_views(found@) =~= found_spec(text@, 6));
    collect(&mut found, "(.+)\\s+хочет\\s+(.+)", "wants", text);
    assert(candidate_views(found@) =~= found_spec(text@, 7));
    found
}

} // verus!
