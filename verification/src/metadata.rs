//! String-keyed annotations.

use vstd::prelude::*;
use crate::text::same_text;

verus! {

/// The value recorded last for `key`, if any.
pub open spec fn lookup_spec(pairs: Seq<(Seq<char>, Seq<char>)>, key: Seq<char>) -> Option<
    Seq<char>,
>
    decreases pairs.len(),
{
    if pairs.len() == 0 {
        None
    } else if pairs.last().0 == key {
        Some(pairs.last().1)
    } else {
        lookup_spec(pairs.drop_last(), key)
    }
}

/// A mapping from keys to values. Pairs are kept in the order in which they
/// were recorded; a later pair for the same key overrides an earlier one, so
/// what the mapping holds does not depend on the order of distinct keys.
#[derive(Debug, Clone)]
pub struct Metadata {
    pub pairs: Vec<(String, String)>,
}

impl View for Metadata {
    type V = Seq<(Seq<char>, Seq<char>)>;

    open spec fn view(&self) -> Seq<(Seq<char>, Seq<char>)> {
        Seq::new(self.pairs@.len(), |i: int| (self.pairs@[i].0@, self.pairs@[i].1@))
    }
}

impl Metadata {
    /// A mapping without entries.
    pub fn new() -> (empty: Metadata)
        ensures
            empty@ == Seq::<(Seq<char>, Seq<char>)>::empty(),
    {
        let empty = Metadata { pairs: Vec::new() };
        assert(empty@ =~= Seq::<(Seq<char>, Seq<char>)>::empty());
        empty
    }

    /// Records `value` for `key`, overriding any earlier value.
    pub fn insert(&mut self, key: String, value: String)
        ensures
            final(self)@ == old(self)@.push((key@, value@)),
            lookup_spec(final(self)@, key@) == Some(value@),
            forall|other: Seq<char>|
                other != key@ ==> lookup_spec(final(self)@, other) == lookup_spec(old(self)@, other),
    {
        let ghost before = self@;
        let ghost pair = (key@, value@);
        self.pairs.push((key, value));
        proof {
            assert(self@ =~= before.push(pair));
            assert(self@.drop_last() =~= before);
        }
    }

    /// The value recorded for `key`.
    pub fn get(&self, key: &str) -> (value: Option<&String>)
        ensures
            match value {
                Some(found) => lookup_spec(self@, key@) == Some(found@),
                None => lookup_spec(self@, key@) is None,
            },
    {
        let mut at: usize = self.pairs.len();
        assert(self@.take(at as int) =~= self@);
        while at > 0
            invariant
                at <= self.pairs.len(),
                lookup_spec(self@, key@) == lookup_spec(self@.take(at as int), key@),
            decreases at,
        {
            proof {
                assert(self@.take(at as int).drop_last() =~= self@.take(at - 1));
                assert(self@.take(at as int).last() == self@[at - 1]);
            }
            at = at - 1;
            if same_text(self.pairs[at].0.as_str(), key) {
                return Some(&self.pairs[at].1);
            }
        }
        None
    }

    /// Number of recorded pairs, overridden ones included.
    pub fn len(&self) -> (count: usize)
        ensures
            count == self@.len(),
    {
        self.pairs.len()
    }

    /// A copy of the mapping.
    pub fn duplicate(&self) -> (copy: Metadata)
        ensures
            copy@ == self@,
    {
        let mut pairs: Vec<(String, String)> = Vec::new();
        let mut i: usize = 0;
        while i < self.pairs.len()
            invariant
                i <= self.pairs.len(),
                pairs@.len() == i,
                forall|j: int|
                    0 <= j < i ==> (#[trigger] pairs@[j]).0@ == self.pairs@[j].0@ && pairs@[j].1@
                        == self.pairs@[j].1@,
            decreases self.pairs.len() - i,
        {
            pairs.push((self.pairs[i].0.clone(), self.pairs[i].1.clone()));
            i = i + 1;
        }
        let copy = Metadata { pairs };
        assert(copy@ =~= self@);
        copy
    }
}

} // verus!
