//! The category index: for every category, the identifiers of its concepts
//! in the order in which they were added.

use vstd::prelude::*;
use crate::semantic::concept::ConceptCategory;
use crate::semantic::concept::ConceptView;

verus! {

/// The identifiers of the concepts of one category, in order.
pub open spec fn ids_of_category_spec(concepts: Seq<ConceptView>, category: ConceptCategory) -> Seq<
    u128,
>
    decreases concepts.len(),
{
    if concepts.len() == 0 {
        Seq::empty()
    } else {
        let earlier = ids_of_category_spec(concepts.drop_last(), category);
        if concepts.last().category == category {
            earlier.push(concepts.last().id)
        } else {
            earlier
        }
    }
}

/// No two concepts share an identifier.
pub open spec fn concept_ids_distinct(concepts: Seq<ConceptView>) -> bool {
    forall|i: int, j: int|
        0 <= i < j < concepts.len() ==> (#[trigger] concepts[i]).id != (#[trigger] concepts[j]).id
}

/// `ids` without its first `id`.
pub open spec fn without_id_spec(ids: Seq<u128>, id: u128) -> Seq<u128>
    decreases ids.len(),
{
    if ids.len() == 0 {
        ids
    } else if ids[0] == id {
        ids.drop_first()
    } else {
        seq![ids[0]] + without_id_spec(ids.drop_first(), id)
    }
}

/// The identifiers listed for a category are those of concepts.
pub proof fn lemma_ids_are_concepts(concepts: Seq<ConceptView>, category: ConceptCategory, k: int)
    requires
        0 <= k < ids_of_category_spec(concepts, category).len(),
    ensures
        exists|i: int|
            0 <= i < concepts.len() && (#[trigger] concepts[i]).id == ids_of_category_spec(
                concepts,
                category,
            )[k] && concepts[i].category == category,
    decreases concepts.len(),
{
    let earlier = concepts.drop_last();
    let ids = ids_of_category_spec(earlier, category);
    if concepts.last().category == category && k == ids.len() {
        assert(concepts[concepts.len() - 1].id == ids_of_category_spec(concepts, category)[k]);
    } else {
        lemma_ids_are_concepts(earlier, category, k);
        let i = choose|i: int|
            0 <= i < earlier.len() && (#[trigger] earlier[i]).id == ids[k] && earlier[i].category
                == category;
        assert(concepts[i] == earlier[i]);
    }
}

/// An identifier that no concept has is not listed for any category.
pub proof fn lemma_unknown_id_not_listed(
    concepts: Seq<ConceptView>,
    category: ConceptCategory,
    id: u128,
)
    requires
        forall|i: int| 0 <= i < concepts.len() ==> (#[trigger] concepts[i]).id != id,
    ensures
        forall|k: int|
            0 <= k < ids_of_category_spec(concepts, category).len() ==> ids_of_category_spec(
                concepts,
                category,
            )[k] != id,
{
    assert forall|k: int| 0 <= k < ids_of_category_spec(concepts, category).len() implies
        ids_of_category_spec(concepts, category)[k] != id by {
        lemma_ids_are_concepts(concepts, category, k);
    }
}

/// Removing an identifier that is not listed changes nothing.
pub proof fn lemma_without_absent(ids: Seq<u128>, id: u128)
    requires
        forall|k: int| 0 <= k < ids.len() ==> ids[k] != id,
    ensures
        without_id_spec(ids, id) == ids,
    decreases ids.len(),
{
    if ids.len() > 0 {
        assert(ids[0] != id);
        assert forall|k: int| 0 <= k < ids.drop_first().len() implies ids.drop_first()[k]
            != id by {
            assert(ids.drop_first()[k] == ids[k + 1]);
        }
        lemma_without_absent(ids.drop_first(), id);
        assert(seq![ids[0]] + ids.drop_first() =~= ids);
    }
}

/// Removing the first `id` from a list that ends with an element other than
/// `id` leaves that last element in place.
proof fn lemma_without_push(ids: Seq<u128>, last: u128, id: u128)
    requires
        last != id,
    ensures
        without_id_spec(ids.push(last), id) == without_id_spec(ids, id).push(last),
    decreases ids.len(),
{
    let pushed = ids.push(last);
    if ids.len() == 0 {
        assert(pushed.drop_first() =~= Seq::<u128>::empty());
        assert(seq![last] + Seq::<u128>::empty() =~= Seq::<u128>::empty().push(last));
        assert(without_id_spec(pushed.drop_first(), id) =~= Seq::<u128>::empty());
    } else if ids[0] == id {
        assert(pushed.drop_first() =~= ids.drop_first().push(last));
    } else {
        assert(pushed.drop_first() =~= ids.drop_first().push(last));
        lemma_without_push(ids.drop_first(), last, id);
        assert(seq![ids[0]] + without_id_spec(ids.drop_first(), id).push(last) =~= (seq![ids[0]]
            + without_id_spec(ids.drop_first(), id)).push(last));
    }
}

/// Removing the last element of a list in which it occurs only once.
proof fn lemma_without_last(ids: Seq<u128>, id: u128)
    requires
        forall|k: int| 0 <= k < ids.len() ==> ids[k] != id,
    ensures
        without_id_spec(ids.push(id), id) == ids,
    decreases ids.len(),
{
    let pushed = ids.push(id);
    if ids.len() == 0 {
        assert(pushed.drop_first() =~= ids);
    } else {
        assert(ids[0] != id);
        assert(pushed.drop_first() =~= ids.drop_first().push(id));
        assert forall|k: int| 0 <= k < ids.drop_first().len() implies ids.drop_first()[k]
            != id by {
            assert(ids.drop_first()[k] == ids[k + 1]);
        }
        lemma_without_last(ids.drop_first(), id);
        assert(seq![ids[0]] + ids.drop_first() =~= ids);
    }
}

/// Taking a concept out of the list takes its identifier out of the list of
/// its category, and leaves the lists of the other categories as they are.
pub proof fn lemma_remove_concept(concepts: Seq<ConceptView>, at: int, category: ConceptCategory)
    requires
        0 <= at < concepts.len(),
        concept_ids_distinct(concepts),
    ensures
        ids_of_category_spec(concepts.remove(at), category) == if concepts[at].category
            == category {
            without_id_spec(ids_of_category_spec(concepts, category), concepts[at].id)
        } else {
            ids_of_category_spec(concepts, category)
        },
    decreases concepts.len(),
{
    let earlier = concepts.drop_last();
    let last = concepts.last();
    let id = concepts[at].id;
    if at == concepts.len() - 1 {
        assert(concepts.remove(at) =~= earlier);
        if last.category == category {
            assert forall|i: int| 0 <= i < earlier.len() implies (#[trigger] earlier[i]).id
                != id by {
                assert(earlier[i] == concepts[i]);
            }
            lemma_unknown_id_not_listed(earlier, category, id);
            lemma_without_last(ids_of_category_spec(earlier, category), id);
        }
    } else {
        assert(concepts.remove(at).drop_last() =~= earlier.remove(at));
        assert(concepts.remove(at).last() == last);
        assert(earlier[at] == concepts[at]);
        assert(concept_ids_distinct(earlier)) by {
            assert forall|i: int, j: int| 0 <= i < j < earlier.len() implies (
            #[trigger] earlier[i]).id != (#[trigger] earlier[j]).id by {
                assert(earlier[i] == concepts[i]);
                assert(earlier[j] == concepts[j]);
            }
        }
        lemma_remove_concept(earlier, at, category);
        if last.category == category && concepts[at].category == category {
            assert(concepts[at].id != concepts[concepts.len() - 1].id);
            lemma_without_push(ids_of_category_spec(earlier, category), last.id, id);
        }
    }
}

/// Changing concepts without touching identifiers and categories leaves the
/// lists of all categories as they are.
pub proof fn lemma_same_keys(
    concepts: Seq<ConceptView>,
    changed: Seq<ConceptView>,
    category: ConceptCategory,
)
    requires
        concepts.len() == changed.len(),
        forall|i: int|
            0 <= i < concepts.len() ==> (#[trigger] concepts[i]).id == changed[i].id
                && concepts[i].category == changed[i].category,
    ensures
        ids_of_category_spec(concepts, category) == ids_of_category_spec(changed, category),
    decreases concepts.len(),
{
    if concepts.len() > 0 {
        let a = concepts.drop_last();
        let b = changed.drop_last();
        assert forall|i: int| 0 <= i < a.len() implies (#[trigger] a[i]).id == b[i].id
            && a[i].category == b[i].category by {
            assert(a[i] == concepts[i]);
            assert(b[i] == changed[i]);
        }
        lemma_same_keys(a, b, category);
        assert(concepts[concepts.len() - 1].id == changed[concepts.len() - 1].id);
    }
}

/// The lists of identifiers, one per category, each in the order in which
/// its concepts were added. The categories are a closed set, so the index
/// has a list for every one of them and needs no hashing.
#[derive(Debug, Clone)]
pub struct CategoryIndex {
    facts: Vec<u128>,
    rules: Vec<u128>,
    preferences: Vec<u128>,
    skills: Vec<u128>,
    goals: Vec<u128>,
    general: Vec<u128>,
}

impl CategoryIndex {
    /// The identifiers listed for `category`.
    pub closed spec fn ids(&self, category: ConceptCategory) -> Seq<u128> {
        match category {
            ConceptCategory::Facts => self.facts@,
            ConceptCategory::Rules => self.rules@,
            ConceptCategory::Preferences => self.preferences@,
            ConceptCategory::Skills => self.skills@,
            ConceptCategory::Goals => self.goals@,
            ConceptCategory::General => self.general@,
        }
    }

    /// The index lists exactly the concepts of every category, in order.
    pub open spec fn lists(&self, concepts: Seq<ConceptView>) -> bool {
        forall|category: ConceptCategory|
            #[trigger] self.ids(category) == ids_of_category_spec(concepts, category)
    }

    /// An index that lists nothing.
    pub fn new() -> (index: CategoryIndex)
        ensures
            forall|category: ConceptCategory| (#[trigger] index.ids(category)).len() == 0,
            index.lists(Seq::empty()),
    {
        let index = CategoryIndex {
            facts: Vec::new(),
            rules: Vec::new(),
            preferences: Vec::new(),
            skills: Vec::new(),
            goals: Vec::new(),
            general: Vec::new(),
        };
        assert forall|category: ConceptCategory| #[trigger]
            index.ids(category) == ids_of_category_spec(Seq::empty(), category) by {
            assert(index.ids(category) =~= Seq::<u128>::empty());
        }
        index
    }

    /// The identifiers listed for `category`.
    pub fn get(&self, category: ConceptCategory) -> (ids: &Vec<u128>)
        ensures
            ids@ == self.ids(category),
    {
        match category {
            ConceptCategory::Facts => &self.facts,
            ConceptCategory::Rules => &self.rules,
            ConceptCategory::Preferences => &self.preferences,
            ConceptCategory::Skills => &self.skills,
            ConceptCategory::Goals => &self.goals,
            ConceptCategory::General => &self.general,
        }
    }

    /// Lists `id` for `category`, behind what is listed there already.
    pub fn push(&mut self, category: ConceptCategory, id: u128)
        ensures
            final(self).ids(category) == old(self).ids(category).push(id),
            forall|other: ConceptCategory|
                other != category ==> #[trigger] final(self).ids(other) == old(self).ids(other),
    {
        match category {
            ConceptCategory::Facts => self.facts.push(id),
            ConceptCategory::Rules => self.rules.push(id),
            ConceptCategory::Preferences => self.preferences.push(id),
            ConceptCategory::Skills => self.skills.push(id),
            ConceptCategory::Goals => self.goals.push(id),
            ConceptCategory::General => self.general.push(id),
        }
    }

    /// Takes the first `id` out of the list of `category`.
    pub fn remove(&mut self, category: ConceptCategory, id: u128)
        ensures
            final(self).ids(category) == without_id_spec(old(self).ids(category), id),
            forall|other: ConceptCategory|
                other != category ==> #[trigger] final(self).ids(other) == old(self).ids(other),
    {
        match category {
            ConceptCategory::Facts => remove_first(&mut self.facts, id),
            ConceptCategory::Rules => remove_first(&mut self.rules, id),
            ConceptCategory::Preferences => remove_first(&mut self.preferences, id),
            ConceptCategory::Skills => remove_first(&mut self.skills, id),
            ConceptCategory::Goals => remove_first(&mut self.goals, id),
            ConceptCategory::General => remove_first(&mut self.general, id),
        }
    }
}

/// Takes the first `id` out of `ids`.
fn remove_first(ids: &mut Vec<u128>, id: u128)
    ensures
        final(ids)@ == without_id_spec(old(ids)@, id),
{
    let mut i: usize = 0;
    let ghost at_start = ids@;
    assert(at_start.skip(0) =~= at_start);
    assert(at_start.take(0) + without_id_spec(at_start, id) =~= without_id_spec(at_start, id));
    while i < ids.len()
        invariant
            i <= ids.len(),
            ids@ == at_start,
            at_start == old(ids)@,
            without_id_spec(at_start, id) == at_start.take(i as int) + without_id_spec(
                at_start.skip(i as int),
                id,
            ),
        decreases ids.len() - i,
    {
        let ghost rest = at_start.skip(i as int);
        proof {
            assert(rest[0] == at_start[i as int]);
            assert(rest.drop_first() =~= at_start.skip(i + 1));
        }
        if ids[i] == id {
            ids.remove(i);
            proof {
                assert(ids@ =~= at_start.take(i as int) + at_start.skip(i + 1));
            }
            return ;
        }
        proof {
            assert(at_start.take(i as int) + (seq![rest[0]] + without_id_spec(
                rest.drop_first(),
                id,
            )) =~= at_start.take(i + 1) + without_id_spec(at_start.skip(i + 1), id));
        }
        i = i + 1;
    }
    proof {
        assert(at_start.skip(i as int).len() == 0);
        assert(at_start.take(i as int) + without_id_spec(at_start.skip(i as int), id)
            =~= at_start);
    }
}

} // verus!
