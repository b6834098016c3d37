//! Similarity of wording: how many words two texts share.

use vstd::prelude::*;
use crate::fixed::UNIT;
use crate::text::same_chars;
use crate::text::split_whitespace;
use crate::text::words_spec;

verus! {

/// The words of `words`, each once, in the order in which they come first.
pub open spec fn distinct_spec(words: Seq<Seq<char>>) -> Seq<Seq<char>>
    decreases words.len(),
{
    if words.len() == 0 {
        Seq::empty()
    } else {
        let earlier = distinct_spec(words.drop_last());
        if words.drop_last().contains(words.last()) {
            earlier
        } else {
            earlier.push(words.last())
        }
    }
}

/// How many of `first` are among `second`.
pub open spec fn shared_spec(first: Seq<Seq<char>>, second: Seq<Seq<char>>) -> nat
    decreases first.len(),
{
    if first.len() == 0 {
        0
    } else {
        shared_spec(first.drop_last(), second) + if second.contains(first.last()) {
            1nat
        } else {
            0nat
        }
    }
}

/// The similarity of two texts by their words, in millionths: the share of
/// the different words of both that occur in both. Two texts without words
/// are as similar as can be; a text without words is similar to no other.
pub open spec fn text_similarity_spec(a: Seq<char>, b: Seq<char>) -> int {
    let first = distinct_spec(words_spec(a));
    let second = distinct_spec(words_spec(b));
    let shared = shared_spec(first, second);
    let either = first.len() + (second.len() - shared_spec(second, first));
    if first.len() == 0 && second.len() == 0 {
        UNIT as int
    } else if first.len() == 0 || second.len() == 0 {
        0
    } else {
        (shared * UNIT) / (either as int)
    }
}

/// The values of a list of words.
pub open spec fn word_views(words: Seq<Vec<char>>) -> Seq<Seq<char>> {
    Seq::new(words.len(), |i: int| words[i]@)
}

/// Whether one of the first `upto` of `words` is `word`.
fn among(words: &Vec<Vec<char>>, upto: usize, word: &Vec<char>) -> (found: bool)
    requires
        upto <= words@.len(),
    ensures
        found == word_views(words@).take(upto as int).contains(word@),
{
    let ghost views = word_views(words@);
    let mut i: usize = 0;
    while i < upto
        invariant
            i <= upto <= words@.len(),
            views == word_views(words@),
            forall|k: int| 0 <= k < i ==> views[k] != word@,
        decreases upto - i,
    {
        if same_chars(words[i].as_slice(), word.as_slice()) {
            proof {
                assert(views.take(upto as int)[i as int] == word@);
            }
            return true;
        }
        i = i + 1;
    }
    proof {
        assert forall|k: int| 0 <= k < views.take(upto as int).len() implies views.take(
            upto as int,
        )[k] != word@ by {
            assert(views.take(upto as int)[k] == views[k]);
        }
    }
    false
}

/// The words of a list, each once.
fn distinct(words: &Vec<Vec<char>>) -> (once: Vec<Vec<char>>)
    ensures
        word_views(once@) == distinct_spec(word_views(words@)),
{
    let ghost views = word_views(words@);
    let mut once: Vec<Vec<char>> = Vec::new();
    let mut i: usize = 0;
    assert(word_views(once@) =~= distinct_spec(views.take(0)));
    while i < words.len()
        invariant
            i <= words.len(),
            views == word_views(words@),
            word_views(once@) == distinct_spec(views.take(i as int)),
        decreases words.len() - i,
    {
        proof {
            assert(views.take(i + 1).drop_last() =~= views.take(i as int));
            assert(views.take(i + 1).last() == words@[i as int]@);
        }
        if !among(words, i, &words[i]) {
            let ghost before = word_views(once@);
            once.push(words[i].clone());
            proof {
                assert(once@.last()@ =~= words@[i as int]@);
                assert(word_views(once@) =~= before.push(words@[i as int]@));
            }
        }
        i = i + 1;
    }
    proof {
        assert(views.take(i as int) =~= views);
    }
    once
}

/// The similarity of two texts by their words, in millionths.
pub fn text_similarity(a: &[char], b: &[char]) -> (similarity: i64)
    ensures
        similarity == text_similarity_spec(a@, b@),
        0 <= similarity <= UNIT,
{
    let words_a = split_whitespace(a);
    let words_b = split_whitespace(b);
    proof {
        assert(word_views(words_a@) =~= words_spec(a@));
        assert(word_views(words_b@) =~= words_spec(b@));
    }
    let first = distinct(&words_a);
    let second = distinct(&words_b);
    if first.len() == 0 && second.len() == 0 {
        return UNIT;
    }
    if first.len() == 0 || second.len() == 0 {
        return 0;
    }
    let shared = count_shared(&first, &second);
    let back = count_shared(&second, &first);
    let either: u128 = first.len() as u128 + (second.len() - back) as u128;
    proof {
        assert(0 <= (shared * 1_000_000) / (either as int) <= 1_000_000) by (nonlinear_arith)
            requires
                0 <= shared <= either,
                either > 0,
        ;
    }
    ((shared as u128 * 1_000_000) / either) as i64
}

/// How many of `first` are among `second`.
fn count_shared(first: &Vec<Vec<char>>, second: &Vec<Vec<char>>) -> (shared: usize)
    ensures
        shared == shared_spec(word_views(first@), word_views(second@)),
        shared <= first@.len(),
{
    let ghost one = word_views(first@);
    let ghost other = word_views(second@);
    let mut shared: usize = 0;
    let mut i: usize = 0;
    while i < first.len()
        invariant
            i <= first.len(),
            one == word_views(first@),
            other == word_views(second@),
            shared == shared_spec(one.take(i as int), other),
            shared <= i,
        decreases first.len() - i,
    {
        proof {
            assert(one.take(i + 1).drop_last() =~= one.take(i as int));
            assert(one.take(i + 1).last() == first@[i as int]@);
            assert(other.take(other.len() as int) =~= other);
        }
        if among(second, second.len(), &first[i]) {
            shared = shared + 1;
        }
        i = i + 1;
    }
    proof {
        assert(one.take(i as int) =~= one);
    }
    shared
}

} // verus!
