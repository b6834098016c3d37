//! The negation heuristic: when two statements contradict each other.

use vstd::prelude::*;
use crate::text::chars_of;
use crate::text::contains_spec;
use crate::text::contains_str;
use crate::text::lowercase;
use crate::text::lowercase_spec;
use crate::text::replace;
use crate::text::replace_spec;
use crate::text::string_of;
use crate::text::trim;
use crate::text::trim_spec;

verus! {

/// `text` without the occurrences of `pattern`.
pub open spec fn without_spec(text: Seq<char>, pattern: Seq<char>) -> Seq<char> {
    replace_spec(text, pattern, Seq::empty())
}

/// A lower-case statement without its negation markers: the markers are
/// taken out one kind after the other, in this order, and what is left is
/// trimmed.
pub open spec fn remove_negation_spec(text: Seq<char>) -> Seq<char> {
    let a = without_spec(text, "don't "@);
    let b = without_spec(a, "don't "@);
    let c = without_spec(b, "doesn't "@);
    let d = without_spec(c, "didn't "@);
    let e = without_spec(d, "not "@);
    let f = without_spec(e, "n't "@);
    let g = without_spec(f, "не "@);
    let h = without_spec(g, "нельзя "@);
    let i = without_spec(h, "не люблю "@);
    let j = without_spec(i, "не нравится "@);
    trim_spec(j)
}

/// Whether a lower-case statement is negated.
pub open spec fn negated_spec(text: Seq<char>) -> bool {
    ||| contains_spec(text, "n't"@)
    ||| contains_spec(text, "not "@)
    ||| contains_spec(text, "не "@)
    ||| contains_spec(text, "нельзя"@)
    ||| contains_spec(text, "не люблю"@)
    ||| contains_spec(text, "не нравится"@)
}

/// The roots of sentiment that statements are compared by.
#[derive(Debug, Clone, Copy, PartialEq, Eq, Structural)]
pub enum SentimentRoot {
    Love,
    Like,
    Prefer,
    Hate,
    Enjoy,
}

/// Whether a lower-case statement holds a form of the given root.
pub open spec fn has_root_spec(text: Seq<char>, root: SentimentRoot) -> bool {
    match root {
        SentimentRoot::Love => {
            ||| contains_spec(text, "love"@)
            ||| contains_spec(text, "loves"@)
            ||| contains_spec(text, "loved"@)
            ||| contains_spec(text, "люблю"@)
            ||| contains_spec(text, "любит"@)
            ||| contains_spec(text, "любил"@)
        },
        SentimentRoot::Like => {
            ||| contains_spec(text, "like"@)
            ||| contains_spec(text, "likes"@)
            ||| contains_spec(text, "liked"@)
            ||| contains_spec(text, "нравится"@)
            ||| contains_spec(text, "нравилось"@)
            ||| contains_spec(text, "понравилось"@)
        },
        SentimentRoot::Prefer => {
            ||| contains_spec(text, "prefer"@)
            ||| contains_spec(text, "prefers"@)
            ||| contains_spec(text, "preferred"@)
            ||| contains_spec(text, "предпочитаю"@)
            ||| contains_spec(text, "предпочитает"@)
            ||| contains_spec(text, "предпочитал"@)
        },
        SentimentRoot::Hate => {
            ||| contains_spec(text, "hate"@)
            ||| contains_spec(text, "hates"@)
            ||| contains_spec(text, "hated"@)
            ||| contains_spec(text, "ненавижу"@)
            ||| contains_spec(text, "ненавидит"@)
            ||| contains_spec(text, "ненавидел"@)
        },
        SentimentRoot::Enjoy => {
            ||| contains_spec(text, "enjoy"@)
            ||| contains_spec(text, "enjoys"@)
            ||| contains_spec(text, "enjoyed"@)
        },
    }
}

/// Whether two lower-case statements hold forms of one and the same root.
pub open spec fn share_root_spec(first: Seq<char>, second: Seq<char>) -> bool {
    ||| has_root_spec(first, SentimentRoot::Love) && has_root_spec(second, SentimentRoot::Love)
    ||| has_root_spec(first, SentimentRoot::Like) && has_root_spec(second, SentimentRoot::Like)
    ||| has_root_spec(first, SentimentRoot::Prefer) && has_root_spec(second, SentimentRoot::Prefer)
    ||| has_root_spec(first, SentimentRoot::Hate) && has_root_spec(second, SentimentRoot::Hate)
    ||| has_root_spec(first, SentimentRoot::Enjoy) && has_root_spec(second, SentimentRoot::Enjoy)
}

/// Whether two lower-case statements contradict each other: exactly one of
/// them is negated, and without their negation markers both hold forms of the
/// same root of sentiment.
pub open spec fn contradiction_spec(first: Seq<char>, second: Seq<char>) -> bool {
    negated_spec(first) != negated_spec(second) && share_root_spec(
        remove_negation_spec(first),
        remove_negation_spec(second),
    )
}

/// Takes the occurrences of `pattern` out of `text`.
fn without(text: &Vec<char>, pattern: &str) -> (rest: Vec<char>)
    ensures
        rest@ == without_spec(text@, pattern@),
{
    let marker = chars_of(pattern);
    let nothing: Vec<char> = Vec::new();
    assert(nothing@ =~= Seq::<char>::empty());
    replace(text.as_slice(), marker.as_slice(), nothing.as_slice())
}

/// Takes the negation markers out of a lower-case statement.
pub fn remove_negation_chars(text: &[char]) -> (base: Vec<char>)
    ensures
        base@ == remove_negation_spec(text@),
{
    let start = crate::text::slice_chars(text, 0, text.len());
    assert(start@ =~= text@);
    let a = without(&start, "don't ");
    let b = without(&a, "don't ");
    let c = without(&b, "doesn't ");
    let d = without(&c, "didn't ");
    let e = without(&d, "not ");
    let f = without(&e, "n't ");
    let g = without(&f, "не ");
    let h = without(&g, "нельзя ");
    let i = without(&h, "не люблю ");
    let j = without(&i, "не нравится ");
    trim(j.as_slice())
}

/// Takes the negation markers out of a lower-case statement.
pub fn remove_negation(text: &str) -> (base: String)
    ensures
        base@ == remove_negation_spec(text@),
{
    let chars = chars_of(text);
    let base = remove_negation_chars(chars.as_slice());
    string_of(base.as_slice())
}

/// Whether a lower-case statement is negated.
pub fn is_negated(text: &[char]) -> (negated: bool)
    ensures
        negated == negated_spec(text@),
{
    contains_str(text, "n't") || contains_str(text, "not ") || contains_str(text, "не ")
        || contains_str(text, "нельзя") || contains_str(text, "не люблю") || contains_str(
        text,
        "не нравится",
    )
}

/// Whether a lower-case statement holds a form of the given root.
pub fn has_root(text: &[char], root: SentimentRoot) -> (found: bool)
    ensures
        found == has_root_spec(text@, root),
{
    match root {
        SentimentRoot::Love => {
            contains_str(text, "love") || contains_str(text, "loves") || contains_str(
                text,
                "loved",
            ) || contains_str(text, "люблю") || contains_str(text, "любит") || contains_str(
                text,
                "любил",
            )
        },
        SentimentRoot::Like => {
            contains_str(text, "like") || contains_str(text, "likes") || contains_str(
                text,
                "liked",
            ) || contains_str(text, "нравится") || contains_str(text, "нравилось")
                || contains_str(text, "понравилось")
        },
        SentimentRoot::Prefer => {
            contains_str(text, "prefer") || contains_str(text, "prefers") || contains_str(
                text,
                "preferred",
            ) || contains_str(text, "предпочитаю") || contains_str(text, "предпочитает")
                || contains_str(text, "предпочитал")
        },
        SentimentRoot::Hate => {
            contains_str(text, "hate") || contains_str(text, "hates") || contains_str(
                text,
                "hated",
            ) || contains_str(text, "ненавижу") || contains_str(text, "ненавидит")
                || contains_str(text, "ненавидел")
        },
        SentimentRoot::Enjoy => {
            contains_str(text, "enjoy") || contains_str(text, "enjoys") || contains_str(
                text,
                "enjoyed",
            )
        },
    }
}

/// Whether two lower-case statements contradict each other.
pub fn contradicts(first: &[char], second: &[char]) -> (contradiction: bool)
    ensures
        contradiction == contradiction_spec(first@, second@),
{
    if is_negated(first) == is_negated(second) {
        return false;
    }
    let base_first = remove_negation_chars(first);
    let base_second = remove_negation_chars(second);
    let one = base_first.as_slice();
    let other = base_second.as_slice();
    (has_root(one, SentimentRoot::Love) && has_root(other, SentimentRoot::Love)) || (has_root(
        one,
        SentimentRoot::Like,
    ) && has_root(other, SentimentRoot::Like)) || (has_root(one, SentimentRoot::Prefer)
        && has_root(other, SentimentRoot::Prefer)) || (has_root(one, SentimentRoot::Hate)
        && has_root(other, SentimentRoot::Hate)) || (has_root(one, SentimentRoot::Enjoy)
        && has_root(other, SentimentRoot::Enjoy))
}

/// Whether two statements contradict each other, whatever their case.
pub fn is_contradiction(text1: &str, text2: &str) -> (contradiction: bool)
    ensures
        contradiction == contradiction_spec(lowercase_spec(text1@), lowercase_spec(text2@)),
{
    let first = lowercase(chars_of(text1).as_slice());
    let second = lowercase(chars_of(text2).as_slice());
    contradicts(first.as_slice(), second.as_slice())
}

} // verus!
