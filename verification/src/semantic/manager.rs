//! The semantic memory manager: concepts with duplicate merging,
//! contradiction resolution, a category index, decay, and relations.

use vstd::prelude::*;
use crate::clock::now;
use crate::error::MemoryError;
use crate::fixed::clamp_unit;
use crate::fixed::clamp_unit_spec;
use crate::fixed::UNIT;
use crate::ids::new_id;
use crate::semantic::concept::Concept;
use crate::semantic::concept::ConceptCategory;
use crate::semantic::concept::ConceptView;
use crate::semantic::concept::DEFAULT_CONFIDENCE;
use crate::semantic::graph::KnowledgeGraph;
use crate::semantic::graph::TripleView;
use crate::semantic::index::concept_ids_distinct;
use crate::semantic::index::ids_of_category_spec;
use crate::semantic::index::lemma_remove_concept;
use crate::semantic::index::lemma_same_keys;
use crate::semantic::index::CategoryIndex;
use crate::semantic::negation::contradiction_spec;
use crate::semantic::negation::contradicts;
use crate::similarity::cosine_similarity;
use crate::similarity::cosine_spec;
use crate::text::chars_of;
use crate::text::lowercase;
use crate::text::lowercase_spec;
use crate::text::replace;
use crate::text::replace_spec;
use crate::text::string_of;
use crate::text::trim;
use crate::text::trim_spec;

verus! {

/// Above this similarity two concepts are one and the same.
pub const DUPLICATE_THRESHOLD: i64 = 950_000;

/// The mathematical value of a manager.
pub struct SemanticMemoryView {
    pub concepts: Seq<ConceptView>,
    pub graph: Seq<TripleView>,
}

/// The values of a list of concepts.
pub open spec fn concept_views(concepts: Seq<Concept>) -> Seq<ConceptView> {
    Seq::new(concepts.len(), |i: int| concepts[i]@)
}

/// The values of a list of borrowed concepts.
pub open spec fn borrowed_concepts(concepts: Seq<&Concept>) -> Seq<ConceptView> {
    Seq::new(concepts.len(), |i: int| concepts[i]@)
}

/// The position of the concept `id`.
pub open spec fn concept_position_spec(concepts: Seq<ConceptView>, id: u128) -> Option<int>
    decreases concepts.len(),
{
    if concepts.len() == 0 {
        None
    } else if concepts.last().id == id {
        Some(concepts.len() - 1)
    } else {
        concept_position_spec(concepts.drop_last(), id)
    }
}

/// Where a position is found, it holds the identifier; where none is found,
/// no concept has it.
pub proof fn lemma_concept_position(concepts: Seq<ConceptView>, id: u128)
    ensures
        match concept_position_spec(concepts, id) {
            Some(at) => 0 <= at < concepts.len() && concepts[at].id == id,
            None => forall|i: int| 0 <= i < concepts.len() ==> (#[trigger] concepts[i]).id != id,
        },
    decreases concepts.len(),
{
    if concepts.len() > 0 && concepts.last().id != id {
        let shorter = concepts.drop_last();
        lemma_concept_position(shorter, id);
        if concept_position_spec(shorter, id) is None {
            assert forall|i: int| 0 <= i < concepts.len() implies (#[trigger] concepts[i]).id
                != id by {
                if i < shorter.len() {
                    assert(shorter[i] == concepts[i]);
                }
            }
        }
    }
}

/// A text as it is stored: trimmed, double spaces made single, and no space
/// before a full stop or a comma.
pub open spec fn clean_spec(text: Seq<char>) -> Seq<char> {
    replace_spec(
        replace_spec(replace_spec(trim_spec(text), "  "@, " "@), " ."@, "."@),
        " ,"@,
        ","@,
    )
}

/// The confidence that a new concept is given: the stated one, held within
/// nothing and one, or one half where none is stated.
pub open spec fn given_spec(confidence: Option<i64>) -> i64 {
    match confidence {
        Some(stated) => clamp_unit_spec(stated as int) as i64,
        None => DEFAULT_CONFIDENCE,
    }
}

/// Whether the lower-case statement `lower` contradicts what `concept` says.
pub open spec fn contradicts_spec(lower: Seq<char>, concept: ConceptView) -> bool {
    contradiction_spec(lower, lowercase_spec(concept.text))
}

/// The first concept that contradicts `lower` and is at least as sure as `given`.
pub open spec fn blocking_spec(concepts: Seq<ConceptView>, lower: Seq<char>, given: i64) -> Option<
    int,
>
    decreases concepts.len(),
{
    if concepts.len() == 0 {
        None
    } else {
        match blocking_spec(concepts.drop_last(), lower, given) {
            Some(at) => Some(at),
            None => if contradicts_spec(lower, concepts.last()) && concepts.last().confidence
                >= given {
                Some(concepts.len() - 1)
            } else {
                None
            },
        }
    }
}

/// The concepts that do not contradict `lower`.
pub open spec fn survivors_spec(concepts: Seq<ConceptView>, lower: Seq<char>) -> Seq<ConceptView> {
    concepts.filter(|concept: ConceptView| !contradicts_spec(lower, concept))
}

/// The first concept whose embedding is more similar to `embedding` than the
/// duplicate threshold.
pub open spec fn duplicate_spec(concepts: Seq<ConceptView>, embedding: Seq<u32>) -> Option<int>
    decreases concepts.len(),
{
    if concepts.len() == 0 {
        None
    } else {
        match duplicate_spec(concepts.drop_last(), embedding) {
            Some(at) => Some(at),
            None => if cosine_spec(embedding, concepts.last().embedding) > DUPLICATE_THRESHOLD {
                Some(concepts.len() - 1)
            } else {
                None
            },
        }
    }
}

/// What adding a concept does to the list, and the concept it gives back.
pub struct Addition {
    pub concepts: Seq<ConceptView>,
    pub returned: ConceptView,
}

/// Adding a concept.
///
/// 1. The first concept that contradicts the new statement and is at least as
///    sure stands: it is returned and nothing changes.
/// 2. Otherwise every concept that contradicts the new statement goes.
/// 3. The first remaining concept that the new one duplicates takes the new
///    confidence if one was stated and is higher, and is returned.
/// 4. Otherwise the new concept is added and returned; but where its
///    identifier is already in use, the concept that has it is returned.
pub open spec fn addition_spec(
    concepts: Seq<ConceptView>,
    text: Seq<char>,
    category: ConceptCategory,
    source: Seq<char>,
    confidence: Option<i64>,
    embedding: Seq<u32>,
    id: u128,
    now: i64,
) -> Addition {
    let cleaned = clean_spec(text);
    let lower = lowercase_spec(cleaned);
    let given = given_spec(confidence);
    match blocking_spec(concepts, lower, given) {
        Some(at) => Addition { concepts, returned: concepts[at] },
        None => {
            let survivors = survivors_spec(concepts, lower);
            match duplicate_spec(survivors, embedding) {
                Some(at) => {
                    let merged = if confidence is Some && given > survivors[at].confidence {
                        ConceptView { confidence: given, updated_at: now, ..survivors[at] }
                    } else {
                        survivors[at]
                    };
                    Addition { concepts: survivors.update(at, merged), returned: merged }
                },
                None => match concept_position_spec(survivors, id) {
                    Some(at) => Addition { concepts: survivors, returned: survivors[at] },
                    None => {
                        let fresh = ConceptView {
                            id,
                            text: cleaned,
                            category,
                            confidence: given,
                            source,
                            embedding,
                            metadata: Seq::empty(),
                            created_at: now,
                            updated_at: now,
                            usage_count: 0,
                            related_concepts: Seq::empty(),
                        };
                        Addition { concepts: survivors.push(fresh), returned: fresh }
                    },
                },
            }
        },
    }
}

/// Brings a text into the form in which it is stored.
pub fn clean_text(text: &str) -> (cleaned: Vec<char>)
    ensures
        cleaned@ == clean_spec(text@),
{
    let chars = chars_of(text);
    let trimmed = trim(chars.as_slice());
    let a = replace(trimmed.as_slice(), chars_of("  ").as_slice(), chars_of(" ").as_slice());
    let b = replace(a.as_slice(), chars_of(" .").as_slice(), chars_of(".").as_slice());
    replace(b.as_slice(), chars_of(" ,").as_slice(), chars_of(",").as_slice())
}

/// The semantic memory manager. The concepts are kept in the order in which
/// they were added, no two under one identifier: which of several
/// contradicting or similar concepts is met first, and how concepts of equal
/// score are ranked, is then the same on every run, which the walk of a hash
/// map would not give.
pub struct SemanticMemoryManager {
    concepts: Vec<Concept>,
    category_index: CategoryIndex,
    knowledge_graph: KnowledgeGraph,
}

impl View for SemanticMemoryManager {
    type V = SemanticMemoryView;

    closed spec fn view(&self) -> SemanticMemoryView {
        SemanticMemoryView {
            concepts: concept_views(self.concepts@),
            graph: self.knowledge_graph@,
        }
    }
}

impl SemanticMemoryView {
    /// Every confidence lies between nothing and one, and no two concepts
    /// share an identifier.
    pub open spec fn wf(self) -> bool {
        &&& forall|i: int| 0 <= i < self.concepts.len() ==> (#[trigger] self.concepts[i]).wf()
        &&& concept_ids_distinct(self.concepts)
        &&& forall|i: int| 0 <= i < self.graph.len() ==> (#[trigger] self.graph[i]).wf()
    }
}

impl SemanticMemoryManager {
    /// The manager's invariant: its value is well formed, and the category
    /// index lists exactly the concepts of every category.
    pub closed spec fn wf(&self) -> bool {
        &&& self@.wf()
        &&& self.category_index.lists(self@.concepts)
        &&& self.knowledge_graph.wf()
    }

    /// What the invariant says of the manager's value.
    pub proof fn lemma_wf(&self)
        requires
            self.wf(),
        ensures
            self@.wf(),
    {
    }

    /// The identifiers that the category index lists for `category`.
    pub closed spec fn indexed(&self, category: ConceptCategory) -> Seq<u128> {
        self.category_index.ids(category)
    }

    /// The category index lists exactly the concepts of every category.
    pub proof fn lemma_index(&self, category: ConceptCategory)
        requires
            self.wf(),
        ensures
            self.indexed(category) == ids_of_category_spec(self@.concepts, category),
    {
    }

    /// A manager that knows nothing.
    pub fn new() -> (manager: SemanticMemoryManager)
        ensures
            manager.wf(),
            manager@.concepts.len() == 0,
            manager@.graph.len() == 0,
    {
        let manager = SemanticMemoryManager {
            concepts: Vec::new(),
            category_index: CategoryIndex::new(),
            knowledge_graph: KnowledgeGraph::new(),
        };
        assert(manager@.concepts =~= Seq::<ConceptView>::empty());
        assert(manager@.graph =~= Seq::<TripleView>::empty());
        manager
    }

    /// Number of concepts.
    pub fn count(&self) -> (count: usize)
        ensures
            count == self@.concepts.len(),
    {
        self.concepts.len()
    }

    /// The concepts, in the order in which they were added.
    pub fn concepts(&self) -> (concepts: &Vec<Concept>)
        ensures
            concept_views(concepts@) == self@.concepts,
    {
        &self.concepts
    }

    /// The graph of relations.
    pub fn knowledge_graph(&self) -> (graph: &KnowledgeGraph)
        ensures
            graph@ == self@.graph,
    {
        &self.knowledge_graph
    }

    /// The position of the concept `id`.
    fn position(&self, id: u128) -> (found: Option<usize>)
        ensures
            match found {
                Some(at) => concept_position_spec(self@.concepts, id) == Some(at as int) && at
                    < self.concepts@.len() && self.concepts@[at as int].id == id,
                None => concept_position_spec(self@.concepts, id) is None,
            },
    {
        let mut at: usize = self.concepts.len();
        let ghost all = self@.concepts;
        assert(all.take(at as int) =~= all);
        while at > 0
            invariant
                at <= self.concepts.len(),
                all == self@.concepts,
                concept_position_spec(all, id) == concept_position_spec(all.take(at as int), id),
            decreases at,
        {
            proof {
                assert(all.take(at as int).drop_last() =~= all.take(at - 1));
                assert(all.take(at as int).last() == self.concepts@[at - 1]@);
            }
            at = at - 1;
            if self.concepts[at].id == id {
                return Some(at);
            }
        }
        None
    }

    /// The concept `id`.
    pub fn get_concept(&self, id: &u128) -> (concept: Option<&Concept>)
        ensures
            match concept {
                Some(found) => concept_position_spec(self@.concepts, *id) is Some && found@
                    == self@.concepts[concept_position_spec(self@.concepts, *id)->0],
                None => concept_position_spec(self@.concepts, *id) is None,
            },
    {
        match self.position(*id) {
            Some(at) => Some(&self.concepts[at]),
            None => None,
        }
    }

    /// Adds a concept whose identifier is not in use.
    fn insert(&mut self, concept: Concept)
        requires
            old(self).wf(),
            concept.wf(),
            forall|i: int|
                0 <= i < old(self)@.concepts.len() ==> (#[trigger] old(self)@.concepts[i]).id
                    != concept.id,
        ensures
            final(self).wf(),
            final(self)@ == (SemanticMemoryView {
                concepts: old(self)@.concepts.push(concept@),
                ..old(self)@
            }),
    {
        let ghost before = self@.concepts;
        self.category_index.push(concept.category, concept.id);
        self.concepts.push(concept);
        proof {
            let after = self@.concepts;
            assert(after =~= before.push(concept@));
            assert(after.drop_last() =~= before);
            assert forall|i: int, j: int| 0 <= i < j < after.len() implies (#[trigger] after[i]).id
                != (#[trigger] after[j]).id by {
                assert(after[i] == before[i]);
                if j < before.len() {
                    assert(after[j] == before[j]);
                }
            }
            assert forall|i: int| 0 <= i < after.len() implies (#[trigger] after[i]).wf() by {
                if i < before.len() {
                    assert(after[i] == before[i]);
                }
            }
            assert forall|category: ConceptCategory| #[trigger]
                self.category_index.ids(category) == ids_of_category_spec(after, category) by {}
        }
    }

    /// Takes the concept at position `at` out of the list and out of the index.
    fn remove_at(&mut self, at: usize) -> (removed: Concept)
        requires
            old(self).wf(),
            at < old(self)@.concepts.len(),
        ensures
            final(self).wf(),
            removed@ == old(self)@.concepts[at as int],
            final(self)@ == (SemanticMemoryView {
                concepts: old(self)@.concepts.remove(at as int),
                ..old(self)@
            }),
    {
        let ghost before = self@.concepts;
        let removed = self.concepts.remove(at);
        self.category_index.remove(removed.category, removed.id);
        proof {
            let after = self@.concepts;
            assert(after =~= before.remove(at as int));
            assert(removed@ == before[at as int]);
            assert forall|i: int| 0 <= i < after.len() implies (#[trigger] after[i]).wf() by {
                if i < at {
                    assert(after[i] == before[i]);
                } else {
                    assert(after[i] == before[i + 1]);
                }
            }
            assert forall|i: int, j: int| 0 <= i < j < after.len() implies (#[trigger] after[i]).id
                != (#[trigger] after[j]).id by {
                let a = if i < at {
                    i
                } else {
                    i + 1
                };
                let b = if j < at {
                    j
                } else {
                    j + 1
                };
                assert(after[i] == before[a]);
                assert(after[j] == before[b]);
            }
            assert forall|category: ConceptCategory| #[trigger]
                self.category_index.ids(category) == ids_of_category_spec(after, category) by {
                lemma_remove_concept(before, at as int, category);
            }
        }
        removed
    }

    /// Gives the concept at position `at` the confidence `confidence`, as of `now`.
    fn raise_confidence(&mut self, at: usize, confidence: i64, now: i64)
        requires
            old(self).wf(),
            at < old(self)@.concepts.len(),
            0 <= confidence <= UNIT,
        ensures
            final(self).wf(),
            final(self)@ == (SemanticMemoryView {
                concepts: old(self)@.concepts.update(
                    at as int,
                    ConceptView {
                        confidence,
                        updated_at: now,
                        ..old(self)@.concepts[at as int]
                    },
                ),
                ..old(self)@
            }),
    {
        let ghost before = self@.concepts;
        let mut concept = self.concepts.remove(at);
        concept.confidence = confidence;
        concept.updated_at = now;
        self.concepts.insert(at, concept);
        proof {
            let after = self@.concepts;
            assert(after =~= before.update(
                at as int,
                ConceptView { confidence, updated_at: now, ..before[at as int] },
            ));
            assert forall|i: int| 0 <= i < after.len() implies (#[trigger] after[i]).wf() by {
                if i != at {
                    assert(after[i] == before[i]);
                }
            }
            assert forall|i: int, j: int| 0 <= i < j < after.len() implies (#[trigger] after[i]).id
                != (#[trigger] after[j]).id by {
                assert(after[i].id == before[i].id);
                assert(after[j].id == before[j].id);
            }
            assert forall|category: ConceptCategory| #[trigger]
                self.category_index.ids(category) == ids_of_category_spec(after, category) by {
                assert forall|i: int| 0 <= i < before.len() implies (#[trigger] before[i]).id
                    == after[i].id && before[i].category == after[i].category by {}
                lemma_same_keys(before, after, category);
            }
        }
    }
}

impl SemanticMemoryManager {
    /// The first concept that contradicts `lower` and is at least as sure as `given`.
    fn blocking(&self, lower: &Vec<char>, given: i64) -> (found: Option<usize>)
        ensures
            match found {
                Some(at) => blocking_spec(self@.concepts, lower@, given) == Some(at as int) && at
                    < self@.concepts.len(),
                None => blocking_spec(self@.concepts, lower@, given) is None,
            },
    {
        let ghost all = self@.concepts;
        let mut i: usize = 0;
        while i < self.concepts.len()
            invariant
                i <= self.concepts.len(),
                all == self@.concepts,
                blocking_spec(all.take(i as int), lower@, given) is None,
            decreases self.concepts.len() - i,
        {
            proof {
                assert(all.take(i + 1).drop_last() =~= all.take(i as int));
                assert(all.take(i + 1).last() == self.concepts@[i as int]@);
            }
            let other = lowercase(chars_of(self.concepts[i].text.as_str()).as_slice());
            if contradicts(lower.as_slice(), other.as_slice()) && self.concepts[i].confidence
                >= given {
                proof {
                    lemma_blocking_stays(all, lower@, given, i + 1);
                }
                return Some(i);
            }
            i = i + 1;
        }
        proof {
            assert(all.take(i as int) =~= all);
        }
        None
    }

    /// Takes out every concept that contradicts `lower`.
    fn drop_contradicted(&mut self, lower: &Vec<char>)
        requires
            old(self).wf(),
        ensures
            final(self).wf(),
            final(self)@ == (SemanticMemoryView {
                concepts: survivors_spec(old(self)@.concepts, lower@),
                ..old(self)@
            }),
    {
        let ghost at_start = self@.concepts;
        let ghost keep = |concept: ConceptView| !contradicts_spec(lower@, concept);
        let mut i: usize = 0;
        let ghost mut seen: int = 0;
        proof {
            reveal(Seq::filter);
            assert(at_start.take(0).filter(keep) =~= self@.concepts.take(0));
            assert(self@.concepts.skip(0) =~= at_start.skip(0));
        }
        while i < self.concepts.len()
            invariant
                i <= self.concepts.len(),
                i <= seen <= at_start.len(),
                at_start == old(self)@.concepts,
                self@.graph == old(self)@.graph,
                self.wf(),
                keep == (|concept: ConceptView| !contradicts_spec(lower@, concept)),
                self@.concepts.take(i as int) == at_start.take(seen).filter(keep),
                self@.concepts.skip(i as int) == at_start.skip(seen),
            decreases self.concepts.len() - i,
        {
            let ghost current = self@.concepts;
            proof {
                reveal(Seq::filter);
                assert(current.skip(i as int).len() == at_start.skip(seen).len());
                assert(current.skip(i as int)[0] == at_start.skip(seen)[0]);
                assert(at_start.take(seen + 1).drop_last() =~= at_start.take(seen));
                assert(at_start.take(seen + 1).last() == at_start[seen]);
                assert(current[i as int] == at_start[seen]);
                assert(current[i as int] == self.concepts@[i as int]@);
            }
            let other = lowercase(chars_of(self.concepts[i].text.as_str()).as_slice());
            if !contradicts(lower.as_slice(), other.as_slice()) {
                proof {
                    assert(current.take(i + 1) =~= current.take(i as int).push(current[i as int]));
                    assert(current.skip(i + 1) =~= current.skip(i as int).drop_first());
                    assert(at_start.skip(seen + 1) =~= at_start.skip(seen).drop_first());
                }
                i = i + 1;
            } else {
                self.remove_at(i);
                proof {
                    assert(self@.concepts.take(i as int) =~= current.take(i as int));
                    assert(self@.concepts.skip(i as int) =~= current.skip(i as int).drop_first());
                    assert(at_start.skip(seen + 1) =~= at_start.skip(seen).drop_first());
                }
            }
            proof {
                seen = seen + 1;
            }
        }
        proof {
            assert(self@.concepts.skip(i as int).len() == 0);
            assert(at_start.skip(seen).len() == 0);
            assert(at_start.take(seen) =~= at_start);
            assert(self@.concepts.take(i as int) =~= self@.concepts);
        }
    }

    /// The first concept that `embedding` duplicates.
    fn duplicate_of(&self, embedding: &Vec<u32>) -> (found: Option<usize>)
        ensures
            match found {
                Some(at) => duplicate_spec(self@.concepts, embedding@) == Some(at as int) && at
                    < self@.concepts.len(),
                None => duplicate_spec(self@.concepts, embedding@) is None,
            },
    {
        let ghost all = self@.concepts;
        let mut i: usize = 0;
        while i < self.concepts.len()
            invariant
                i <= self.concepts.len(),
                all == self@.concepts,
                duplicate_spec(all.take(i as int), embedding@) is None,
            decreases self.concepts.len() - i,
        {
            proof {
                assert(all.take(i + 1).drop_last() =~= all.take(i as int));
                assert(all.take(i + 1).last() == self.concepts@[i as int]@);
            }
            let similarity = cosine_similarity(
                embedding.as_slice(),
                self.concepts[i].embedding.as_slice(),
            );
            if similarity > DUPLICATE_THRESHOLD {
                proof {
                    lemma_duplicate_stays(all, embedding@, i + 1);
                }
                return Some(i);
            }
            i = i + 1;
        }
        proof {
            assert(all.take(i as int) =~= all);
        }
        None
    }

    /// Adds a concept under the identifier `id` at the instant `now`, given
    /// the embedding of its text, and returns the concept that now stands for
    /// the statement: the new one, the one it merged into, or the one that
    /// contradicts it and stands.
    pub fn add_concept_at(
        &mut self,
        text: String,
        category: ConceptCategory,
        source: String,
        confidence: Option<i64>,
        embedding: Vec<u32>,
        id: u128,
        now: i64,
    ) -> (concept: Concept)
        requires
            old(self).wf(),
        ensures
            final(self).wf(),
            final(self)@.graph == old(self)@.graph,
            final(self)@.concepts == addition_spec(
                old(self)@.concepts,
                text@,
                category,
                source@,
                confidence,
                embedding@,
                id,
                now,
            ).concepts,
            concept@ == addition_spec(
                old(self)@.concepts,
                text@,
                category,
                source@,
                confidence,
                embedding@,
                id,
                now,
            ).returned,
            concept.wf(),
    {
        let cleaned = clean_text(text.as_str());
        let lower = lowercase(cleaned.as_slice());
        let given = match confidence {
            Some(stated) => clamp_unit(stated),
            None => DEFAULT_CONFIDENCE,
        };
        match self.blocking(&lower, given) {
            Some(at) => {
                proof {
                    assert(self@.concepts[at as int] == self.concepts@[at as int]@);
                }
                return self.concepts[at].duplicate();
            },
            None => {},
        }
        self.drop_contradicted(&lower);
        match self.duplicate_of(&embedding) {
            Some(at) => {
                proof {
                    assert(self@.concepts[at as int] == self.concepts@[at as int]@);
                }
                if confidence.is_some() && given > self.concepts[at].confidence {
                    self.raise_confidence(at, given, now);
                }
                proof {
                    assert(self@.concepts[at as int] == self.concepts@[at as int]@);
                }
                return self.concepts[at].duplicate();
            },
            None => {},
        }
        match self.position(id) {
            Some(at) => {
                proof {
                    assert(self@.concepts[at as int] == self.concepts@[at as int]@);
                }
                return self.concepts[at].duplicate();
            },
            None => {},
        }
        proof {
            lemma_concept_position(self@.concepts, id);
        }
        let mut fresh = Concept::with_identity(
            id,
            now,
            string_of(cleaned.as_slice()),
            category,
            source,
        );
        fresh.confidence = given;
        fresh.embedding = embedding;
        let copy = fresh.duplicate();
        self.insert(fresh);
        copy
    }

    /// Adds a concept with a fresh identifier, now.
    pub fn add_concept_embedded(
        &mut self,
        text: String,
        category: ConceptCategory,
        source: String,
        confidence: Option<i64>,
        embedding: Vec<u32>,
    ) -> (concept: Concept)
        requires
            old(self).wf(),
        ensures
            final(self).wf(),
            final(self)@.graph == old(self)@.graph,
            concept.wf(),
            exists|id: u128, now: i64|
                {
                    let addition = #[trigger] addition_spec(
                        old(self)@.concepts,
                        text@,
                        category,
                        source@,
                        confidence,
                        embedding@,
                        id,
                        now,
                    );
                    final(self)@.concepts == addition.concepts && concept@ == addition.returned
                },
    {
        let id = new_id();
        let instant = now();
        let concept = self.add_concept_at(
            text,
            category,
            source,
            confidence,
            embedding,
            id,
            instant,
        );
        concept
    }
}

/// Once a blocking concept is found among the first concepts, it stays the
/// one found among all.
proof fn lemma_blocking_stays(concepts: Seq<ConceptView>, lower: Seq<char>, given: i64, upto: int)
    requires
        0 <= upto <= concepts.len(),
        blocking_spec(concepts.take(upto), lower, given) is Some,
    ensures
        blocking_spec(concepts, lower, given) == blocking_spec(concepts.take(upto), lower, given),
    decreases concepts.len() - upto,
{
    if upto < concepts.len() {
        assert(concepts.take(upto + 1).drop_last() =~= concepts.take(upto));
        lemma_blocking_stays(concepts, lower, given, upto + 1);
    } else {
        assert(concepts.take(upto) =~= concepts);
    }
}

/// Once a duplicate is found among the first concepts, it stays the one
/// found among all.
proof fn lemma_duplicate_stays(concepts: Seq<ConceptView>, embedding: Seq<u32>, upto: int)
    requires
        0 <= upto <= concepts.len(),
        duplicate_spec(concepts.take(upto), embedding) is Some,
    ensures
        duplicate_spec(concepts, embedding) == duplicate_spec(concepts.take(upto), embedding),
    decreases concepts.len() - upto,
{
    if upto < concepts.len() {
        assert(concepts.take(upto + 1).drop_last() =~= concepts.take(upto));
        lemma_duplicate_stays(concepts, embedding, upto + 1);
    } else {
        assert(concepts.take(upto) =~= concepts);
    }
}

/// The concept that an addition to an empty store creates.
pub open spec fn first_concept_spec(
    text: Seq<char>,
    category: ConceptCategory,
    source: Seq<char>,
    confidence: Option<i64>,
    embedding: Seq<u32>,
    id: u128,
    now: i64,
) -> ConceptView {
    ConceptView {
        id,
        text: clean_spec(text),
        category,
        confidence: given_spec(confidence),
        source,
        embedding,
        metadata: Seq::empty(),
        created_at: now,
        updated_at: now,
        usage_count: 0,
        related_concepts: Seq::empty(),
    }
}

/// Adding to an empty store stores exactly the new concept.
pub proof fn lemma_first_addition(
    text: Seq<char>,
    category: ConceptCategory,
    source: Seq<char>,
    confidence: Option<i64>,
    embedding: Seq<u32>,
    id: u128,
    now: i64,
)
    ensures
        addition_spec(
            Seq::empty(),
            text,
            category,
            source,
            confidence,
            embedding,
            id,
            now,
        ).concepts == seq![
            first_concept_spec(text, category, source, confidence, embedding, id, now),
        ],
{
    reveal(Seq::filter);
    let lower = lowercase_spec(clean_spec(text));
    let none = Seq::<ConceptView>::empty();
    assert(survivors_spec(none, lower) =~= none);
    let fresh = first_concept_spec(text, category, source, confidence, embedding, id, now);
    assert(none.push(fresh) =~= seq![fresh]);
}

/// Adding a statement and then one that duplicates it leaves exactly one
/// concept: the first, with the higher of the two confidences where the
/// second states one.
pub proof fn lemma_duplicate_merges(
    first: ConceptView,
    text: Seq<char>,
    category: ConceptCategory,
    source: Seq<char>,
    confidence: Option<i64>,
    embedding: Seq<u32>,
    id: u128,
    now: i64,
)
    requires
        cosine_spec(embedding, first.embedding) > DUPLICATE_THRESHOLD,
        !contradicts_spec(lowercase_spec(clean_spec(text)), first),
    ensures
        addition_spec(seq![first], text, category, source, confidence, embedding, id, now).concepts
            == seq![
            if confidence is Some && given_spec(confidence) > first.confidence {
                ConceptView { confidence: given_spec(confidence), updated_at: now, ..first }
            } else {
                first
            },
        ],
{
    reveal(Seq::filter);
    let lower = lowercase_spec(clean_spec(text));
    let given = given_spec(confidence);
    let one = seq![first];
    let none = Seq::<ConceptView>::empty();
    assert(one.drop_last() =~= none);
    assert(one.last() == first);
    assert(blocking_spec(none, lower, given) is None);
    assert(blocking_spec(one, lower, given) is None);
    assert(survivors_spec(none, lower) =~= none);
    assert(survivors_spec(one, lower) =~= one);
    assert(duplicate_spec(none, embedding) is None);
    assert(duplicate_spec(one, embedding) == Some(0int));
    let merged = if confidence is Some && given > first.confidence {
        ConceptView { confidence: given, updated_at: now, ..first }
    } else {
        first
    };
    assert(one.update(0, merged) =~= seq![merged]);
}

/// Adding the same statement twice, with an embedding that is not a zero
/// vector, leaves exactly one concept, whose confidence is the higher of the
/// two where the second addition states one.
pub proof fn lemma_same_statement_twice(
    text: Seq<char>,
    category: ConceptCategory,
    source: Seq<char>,
    first_confidence: Option<i64>,
    second_confidence: Option<i64>,
    embedding: Seq<u32>,
    first_id: u128,
    second_id: u128,
    earlier: i64,
    later: i64,
)
    requires
        !crate::similarity::is_zero_vector(embedding),
    ensures
        ({
            let once = addition_spec(
                Seq::empty(),
                text,
                category,
                source,
                first_confidence,
                embedding,
                first_id,
                earlier,
            ).concepts;
            let twice = addition_spec(
                once,
                text,
                category,
                source,
                second_confidence,
                embedding,
                second_id,
                later,
            ).concepts;
            &&& once.len() == 1
            &&& twice.len() == 1
            &&& twice[0].id == first_id
            &&& twice[0].confidence == if second_confidence is Some && given_spec(
                second_confidence,
            ) > given_spec(first_confidence) {
                given_spec(second_confidence)
            } else {
                given_spec(first_confidence)
            }
        }),
{
    lemma_first_addition(text, category, source, first_confidence, embedding, first_id, earlier);
    let first = first_concept_spec(
        text,
        category,
        source,
        first_confidence,
        embedding,
        first_id,
        earlier,
    );
    crate::similarity::lemma_cosine_of_self(embedding);
    lemma_duplicate_merges(
        first,
        text,
        category,
        source,
        second_confidence,
        embedding,
        second_id,
        later,
    );
}

/// Adding a statement and then one that contradicts it leaves exactly one
/// concept, whose confidence is the higher of the two: the first statement
/// stands unless the second is strictly surer.
pub proof fn lemma_contradiction_keeps_one(
    first: ConceptView,
    text: Seq<char>,
    category: ConceptCategory,
    source: Seq<char>,
    confidence: Option<i64>,
    embedding: Seq<u32>,
    id: u128,
    now: i64,
)
    requires
        contradicts_spec(lowercase_spec(clean_spec(text)), first),
    ensures
        ({
            let after = addition_spec(
                seq![first],
                text,
                category,
                source,
                confidence,
                embedding,
                id,
                now,
            ).concepts;
            &&& after.len() == 1
            &&& after[0].confidence == if given_spec(confidence) > first.confidence {
                given_spec(confidence)
            } else {
                first.confidence
            }
            &&& given_spec(confidence) <= first.confidence ==> after[0] == first
            &&& given_spec(confidence) > first.confidence ==> after[0] == first_concept_spec(
                text,
                category,
                source,
                confidence,
                embedding,
                id,
                now,
            )
        }),
{
    reveal(Seq::filter);
    let lower = lowercase_spec(clean_spec(text));
    let given = given_spec(confidence);
    let one = seq![first];
    let none = Seq::<ConceptView>::empty();
    assert(one.drop_last() =~= none);
    assert(one.last() == first);
    assert(blocking_spec(none, lower, given) is None);
    assert(survivors_spec(none, lower) =~= none);
    assert(survivors_spec(one, lower) =~= none);
    if given > first.confidence {
        assert(blocking_spec(one, lower, given) is None);
        let fresh = first_concept_spec(text, category, source, confidence, embedding, id, now);
        assert(none.push(fresh) =~= seq![fresh]);
    } else {
        assert(blocking_spec(one, lower, given) == Some(0int));
    }
}

/// The positions of the concepts that a search considers: all, or those of
/// one category; in order.
pub open spec fn candidates_spec(concepts: Seq<ConceptView>, category: Option<ConceptCategory>)
    -> Seq<usize>
    decreases concepts.len(),
{
    if concepts.len() == 0 {
        Seq::empty()
    } else {
        let earlier = candidates_spec(concepts.drop_last(), category);
        if category is None || category == Some(concepts.last().category) {
            earlier.push((concepts.len() - 1) as usize)
        } else {
            earlier
        }
    }
}

/// What a search finds: the positions of the best `top_k` candidates, by
/// descending similarity to `query`, equally similar ones in the order in
/// which they were added.
pub open spec fn concept_search_spec(
    concepts: Seq<ConceptView>,
    query: Seq<u32>,
    top_k: nat,
    category: Option<ConceptCategory>,
) -> Seq<usize> {
    let positions = candidates_spec(concepts, category);
    let scores = Seq::new(
        positions.len(),
        |i: int| cosine_spec(query, concepts[positions[i] as int].embedding) as i64,
    );
    let order = crate::ranking::ranking_spec(scores);
    let count = if top_k < positions.len() {
        top_k
    } else {
        positions.len()
    };
    Seq::new(count, |i: int| positions[order[i] as int])
}

/// `found` are the concepts at `positions`, each with its similarity to `query`.
pub open spec fn found_are(
    found: Seq<(i64, &Concept)>,
    concepts: Seq<ConceptView>,
    query: Seq<u32>,
    positions: Seq<usize>,
) -> bool {
    &&& found.len() == positions.len()
    &&& forall|i: int|
        0 <= i < found.len() ==> {
            &&& 0 <= positions[i] < concepts.len()
            &&& (#[trigger] found[i]).1@ == concepts[positions[i] as int]
            &&& found[i].0 == cosine_spec(query, concepts[positions[i] as int].embedding)
        }
}

impl SemanticMemoryManager {
    /// The `top_k` concepts most similar to a query, given the query's
    /// embedding; of all concepts, or of one category.
    pub fn search_embedded(&self, query_embedding: &[u32], top_k: usize, category: Option<
        ConceptCategory,
    >) -> (found: Vec<(i64, &Concept)>)
        ensures
            found_are(
                found@,
                self@.concepts,
                query_embedding@,
                concept_search_spec(self@.concepts, query_embedding@, top_k as nat, category),
            ),
    {
        let ghost all = self@.concepts;
        let mut positions: Vec<usize> = Vec::new();
        let mut scores: Vec<i64> = Vec::new();
        let mut i: usize = 0;
        while i < self.concepts.len()
            invariant
                i <= self.concepts.len(),
                all == self@.concepts,
                positions@ == candidates_spec(all.take(i as int), category),
                forall|j: int| 0 <= j < positions@.len() ==> (#[trigger] positions@[j]) < i,
                scores@.len() == positions@.len(),
                forall|j: int|
                    0 <= j < scores@.len() ==> (#[trigger] scores@[j]) == cosine_spec(
                        query_embedding@,
                        all[positions@[j] as int].embedding,
                    ),
            decreases self.concepts.len() - i,
        {
            proof {
                assert(all.take(i + 1).drop_last() =~= all.take(i as int));
                assert(all.take(i + 1).last() == self.concepts@[i as int]@);
            }
            let wanted = match category {
                Some(only) => self.concepts[i].category.ordinal() == only.ordinal(),
                None => true,
            };
            if wanted {
                let score = cosine_similarity(
                    query_embedding,
                    self.concepts[i].embedding.as_slice(),
                );
                proof {
                    assert(all[i as int] == self.concepts@[i as int]@);
                }
                positions.push(i);
                scores.push(score);
            }
            i = i + 1;
        }
        let ghost wanted = Seq::new(
            positions@.len(),
            |i: int| cosine_spec(query_embedding@, all[positions@[i] as int].embedding) as i64,
        );
        proof {
            assert(all.take(i as int) =~= all);
            assert(scores@ =~= wanted) by {
                assert forall|j: int| 0 <= j < scores@.len() implies scores@[j] == wanted[j] by {
                    crate::similarity::lemma_cosine_bounds(
                        query_embedding@,
                        all[positions@[j] as int].embedding,
                    );
                }
            }
        }
        let considered = scores.len();
        proof {
            assert(wanted.len() == considered);
            crate::ranking::lemma_ranking_is_ranked(wanted);
        }
        let order = crate::ranking::rank(&scores);
        let count = if top_k < positions.len() {
            top_k
        } else {
            positions.len()
        };
        let ghost ranked = concept_search_spec(all, query_embedding@, top_k as nat, category);
        let mut found: Vec<(i64, &Concept)> = Vec::new();
        let mut k: usize = 0;
        while k < count
            invariant
                k <= count <= positions.len(),
                all == self@.concepts,
                order@ == crate::ranking::ranking_spec(wanted),
                order@.len() == positions@.len(),
                scores@ == wanted,
                positions@ == candidates_spec(all, category),
                ranked == concept_search_spec(all, query_embedding@, top_k as nat, category),
                ranked.len() == count,
                wanted == Seq::new(
                    positions@.len(),
                    |i: int|
                        cosine_spec(query_embedding@, all[positions@[i] as int].embedding) as i64,
                ),
                forall|j: int| 0 <= j < order@.len() ==> (#[trigger] order@[j]) < positions@.len(),
                forall|j: int|
                    0 <= j < positions@.len() ==> (#[trigger] positions@[j]) < self.concepts@.len(),
                found@.len() == k,
                forall|j: int|
                    0 <= j < k ==> {
                        &&& (#[trigger] found@[j]).1@ == all[ranked[j] as int]
                        &&& found@[j].0 == cosine_spec(
                            query_embedding@,
                            all[ranked[j] as int].embedding,
                        )
                    },
            decreases count - k,
        {
            let slot = order[k];
            let at = positions[slot];
            proof {
                assert(ranked[k as int] == at);
                assert(all[at as int] == self.concepts@[at as int]@);
                crate::similarity::lemma_cosine_bounds(
                    query_embedding@,
                    all[at as int].embedding,
                );
                assert(scores@[slot as int] == wanted[slot as int]);
            }
            let ghost before = found@;
            found.push((scores[slot], &self.concepts[at]));
            proof {
                assert forall|j: int| 0 <= j < k + 1 implies {
                    &&& (#[trigger] found@[j]).1@ == all[ranked[j] as int]
                    &&& found@[j].0 == cosine_spec(query_embedding@, all[ranked[j] as int].embedding)
                } by {
                    if j < k {
                        assert(found@[j] == before[j]);
                    }
                }
            }
            k = k + 1;
        }
        proof {
            assert forall|j: int| 0 <= j < ranked.len() implies (#[trigger] ranked[j])
                < all.len() by {
                assert(order@[j] < positions@.len());
                assert(positions@[order@[j] as int] < self.concepts@.len());
            }
        }
        found
    }

    /// The `top_k` concepts most similar to a query, of all concepts.
    pub fn search_by_text_embedded(&self, query_embedding: &[u32], top_k: usize) -> (found: Vec<
        (i64, &Concept),
    >)
        ensures
            found_are(
                found@,
                self@.concepts,
                query_embedding@,
                concept_search_spec(self@.concepts, query_embedding@, top_k as nat, None),
            ),
    {
        self.search_embedded(query_embedding, top_k, None)
    }

    /// The `top_k` concepts of one category most similar to a query.
    pub fn search_by_category_embedded(
        &self,
        query_embedding: &[u32],
        category: ConceptCategory,
        top_k: usize,
    ) -> (found: Vec<(i64, &Concept)>)
        ensures
            found_are(
                found@,
                self@.concepts,
                query_embedding@,
                concept_search_spec(
                    self@.concepts,
                    query_embedding@,
                    top_k as nat,
                    Some(category),
                ),
            ),
    {
        self.search_embedded(query_embedding, top_k, Some(category))
    }

    /// The concepts of one category, in the order in which they were added,
    /// as the category index lists them.
    pub fn get_concepts_by_category(&self, category: &ConceptCategory) -> (found: Vec<&Concept>)
        requires
            self.wf(),
        ensures
            found@.len() == ids_of_category_spec(self@.concepts, *category).len(),
            forall|i: int|
                0 <= i < found@.len() ==> (#[trigger] found@[i])@.id == ids_of_category_spec(
                    self@.concepts,
                    *category,
                )[i] && found@[i]@.category == *category && concept_position_spec(
                    self@.concepts,
                    found@[i]@.id,
                ) is Some && found@[i]@ == self@.concepts[concept_position_spec(
                    self@.concepts,
                    found@[i]@.id,
                )->0],
    {
        let ids = self.category_index.get(*category);
        let ghost listed = ids_of_category_spec(self@.concepts, *category);
        let mut found: Vec<&Concept> = Vec::new();
        let mut i: usize = 0;
        while i < ids.len()
            invariant
                i <= ids.len(),
                self.wf(),
                ids@ == listed,
                listed == ids_of_category_spec(self@.concepts, *category),
                found@.len() == i,
                forall|j: int|
                    0 <= j < i ==> (#[trigger] found@[j])@.id == listed[j] && found@[j]@.category
                        == *category && concept_position_spec(self@.concepts, found@[j]@.id)
                        is Some && found@[j]@ == self@.concepts[concept_position_spec(
                        self@.concepts,
                        found@[j]@.id,
                    )->0],
            decreases ids.len() - i,
        {
            proof {
                crate::semantic::index::lemma_ids_are_concepts(
                    self@.concepts,
                    *category,
                    i as int,
                );
                lemma_concept_position(self@.concepts, listed[i as int]);
                let known = choose|n: int|
                    0 <= n < self@.concepts.len() && (#[trigger] self@.concepts[n]).id
                        == listed[i as int] && self@.concepts[n].category == *category;
                let at = concept_position_spec(self@.concepts, listed[i as int])->0;
                // identifiers are distinct: the position found is the listed concept's
                assert(known == at);
            }
            match self.position(ids[i]) {
                Some(at) => {
                    proof {
                        assert(self@.concepts[at as int] == self.concepts@[at as int]@);
                    }
                    found.push(&self.concepts[at]);
                },
                None => {
                    assert(false);
                },
            }
            i = i + 1;
        }
        found
    }
}

/// What the decay due at `now` leaves of `concepts`: every concept that is
/// still worth keeping, with its decayed confidence.
pub open spec fn decayed_spec(concepts: Seq<ConceptView>, now: i64) -> Seq<ConceptView>
    decreases concepts.len(),
{
    if concepts.len() == 0 {
        Seq::empty()
    } else {
        let earlier = decayed_spec(concepts.drop_last(), now);
        if concepts.last().survives_decay(now) {
            earlier.push(concepts.last().after_decay(now))
        } else {
            earlier
        }
    }
}

/// Below this effective confidence a concept is not worth listing.
pub const LISTING_FLOOR: i64 = 10_000;

/// Below this effective confidence a concept counts as low in confidence.
pub const LOW_CONFIDENCE: i64 = 300_000;

/// The positions of the concepts whose effective confidence at `now` is
/// above the listing floor.
pub open spec fn listed_spec(concepts: Seq<ConceptView>, now: i64) -> Seq<usize>
    decreases concepts.len(),
{
    if concepts.len() == 0 {
        Seq::empty()
    } else {
        let earlier = listed_spec(concepts.drop_last(), now);
        if concepts.last().effective_confidence(now) > LISTING_FLOOR {
            earlier.push((concepts.len() - 1) as usize)
        } else {
            earlier
        }
    }
}

/// The positions of the `top_k` concepts that count most at `now`: by
/// descending effective confidence, equal ones in the order in which they
/// were added.
pub open spec fn strongest_spec(concepts: Seq<ConceptView>, top_k: nat, now: i64) -> Seq<usize> {
    let positions = listed_spec(concepts, now);
    let scores = Seq::new(
        positions.len(),
        |i: int| concepts[positions[i] as int].effective_confidence(now) as i64,
    );
    let order = crate::ranking::ranking_spec(scores);
    let count = if top_k < positions.len() {
        top_k
    } else {
        positions.len()
    };
    Seq::new(count, |i: int| positions[order[i] as int])
}

/// `found` are the concepts that count most at `now`, each with its
/// effective confidence.
pub open spec fn strongest_are(
    found: Seq<(i64, &Concept)>,
    concepts: Seq<ConceptView>,
    top_k: nat,
    now: i64,
) -> bool {
    &&& found.len() == strongest_spec(concepts, top_k, now).len()
    &&& forall|i: int|
        0 <= i < found.len() ==> {
            let at = strongest_spec(concepts, top_k, now)[i];
            &&& at < concepts.len()
            &&& (#[trigger] found[i]).1@ == concepts[at as int]
            &&& found[i].0 == concepts[at as int].effective_confidence(now)
        }
}

/// Whether a concept has lost more than a tenth of its confidence to decay.
pub open spec fn has_decayed_spec(concept: ConceptView, now: i64) -> bool {
    concept.effective_confidence(now) * 10 < concept.confidence * 9
}

/// Whether a concept counts as low in confidence at `now`.
pub open spec fn is_low_spec(concept: ConceptView, now: i64) -> bool {
    concept.effective_confidence(now) < LOW_CONFIDENCE
}

/// The sum of the effective confidences of the concepts of one category.
pub open spec fn confidence_sum_spec(
    concepts: Seq<ConceptView>,
    category: ConceptCategory,
    now: i64,
) -> int
    decreases concepts.len(),
{
    if concepts.len() == 0 {
        0
    } else {
        confidence_sum_spec(concepts.drop_last(), category, now) + if concepts.last().category
            == category {
            concepts.last().effective_confidence(now)
        } else {
            0
        }
    }
}

/// How the concepts of one category fare under decay. The average is the
/// mean effective confidence, rounded down, or nothing for an empty category.
#[derive(Debug, Clone, Copy, PartialEq, Eq, Structural)]
pub struct CategoryDecayStats {
    pub total: usize,
    pub low_confidence: usize,
    pub avg_confidence: i64,
}

impl Default for CategoryDecayStats {
    fn default() -> (stats: CategoryDecayStats)
        ensures
            stats == (CategoryDecayStats { total: 0, low_confidence: 0, avg_confidence: 0 }),
    {
        CategoryDecayStats { total: 0, low_confidence: 0, avg_confidence: 0 }
    }
}

/// How all concepts fare under decay; the categories in the order facts,
/// rules, preferences, skills, goals, general.
#[derive(Debug, Clone)]
pub struct DecayStats {
    pub total_concepts: usize,
    pub decayed_concepts: usize,
    pub low_confidence_concepts: usize,
    pub category_stats: Vec<CategoryDecayStats>,
}

/// What the statistics say of one category.
pub open spec fn category_stats_spec(
    concepts: Seq<ConceptView>,
    category: ConceptCategory,
    now: i64,
) -> CategoryDecayStats {
    let members = concepts.filter(|c: ConceptView| c.category == category);
    let low = concepts.filter(|c: ConceptView| c.category == category && is_low_spec(c, now));
    CategoryDecayStats {
        total: members.len() as usize,
        low_confidence: low.len() as usize,
        avg_confidence: if members.len() == 0 {
            0
        } else {
            (confidence_sum_spec(concepts, category, now) / (members.len() as int)) as i64
        },
    }
}

/// `stats` are the statistics of `concepts` at `now`.
pub open spec fn decay_stats_are(stats: DecayStats, concepts: Seq<ConceptView>, now: i64) -> bool {
    &&& stats.total_concepts == concepts.len()
    &&& stats.decayed_concepts == concepts.filter(
        |c: ConceptView| has_decayed_spec(c, now),
    ).len()
    &&& stats.low_confidence_concepts == concepts.filter(|c: ConceptView| is_low_spec(c, now)).len()
    &&& stats.category_stats@.len() == 6
    &&& forall|position: int|
        0 <= position < 6 ==> (#[trigger] stats.category_stats@[position]) == category_stats_spec(
            concepts,
            category_at_spec(position),
            now,
        )
}

/// The category at a position of the category statistics.
pub open spec fn category_at_spec(position: int) -> ConceptCategory {
    if position == 0 {
        ConceptCategory::Facts
    } else if position == 1 {
        ConceptCategory::Rules
    } else if position == 2 {
        ConceptCategory::Preferences
    } else if position == 3 {
        ConceptCategory::Skills
    } else if position == 4 {
        ConceptCategory::Goals
    } else {
        ConceptCategory::General
    }
}

/// The category at a position of the category statistics.
pub fn category_at(position: usize) -> (category: ConceptCategory)
    ensures
        category == category_at_spec(position as int),
        position < 6 ==> category.ordinal_spec() == position,
{
    if position == 0 {
        ConceptCategory::Facts
    } else if position == 1 {
        ConceptCategory::Rules
    } else if position == 2 {
        ConceptCategory::Preferences
    } else if position == 3 {
        ConceptCategory::Skills
    } else if position == 4 {
        ConceptCategory::Goals
    } else {
        ConceptCategory::General
    }
}

impl SemanticMemoryManager {
    /// Applies the decay due at `now` to the concept at position `at` and
    /// says whether it is still worth keeping.
    fn fade_at(&mut self, at: usize, now: i64) -> (keep: bool)
        requires
            old(self).wf(),
            at < old(self)@.concepts.len(),
        ensures
            final(self).wf(),
            keep == old(self)@.concepts[at as int].survives_decay(now),
            final(self)@ == (SemanticMemoryView {
                concepts: old(self)@.concepts.update(
                    at as int,
                    old(self)@.concepts[at as int].after_decay(now),
                ),
                ..old(self)@
            }),
    {
        let ghost before = self@.concepts;
        let mut concept = self.concepts.remove(at);
        proof {
            assert(concept@ == before[at as int]);
        }
        let keep = concept.apply_temporal_decay_at(now);
        self.concepts.insert(at, concept);
        proof {
            let after = self@.concepts;
            assert(after =~= before.update(at as int, before[at as int].after_decay(now)));
            assert forall|i: int| 0 <= i < after.len() implies (#[trigger] after[i]).wf() by {
                if i != at {
                    assert(after[i] == before[i]);
                }
            }
            assert forall|i: int, j: int| 0 <= i < j < after.len() implies (#[trigger] after[i]).id
                != (#[trigger] after[j]).id by {
                assert(after[i].id == before[i].id);
                assert(after[j].id == before[j].id);
            }
            assert forall|category: ConceptCategory| #[trigger]
                self.category_index.ids(category) == ids_of_category_spec(after, category) by {
                assert forall|i: int| 0 <= i < before.len() implies (#[trigger] before[i]).id
                    == after[i].id && before[i].category == after[i].category by {}
                lemma_same_keys(before, after, category);
            }
        }
        keep
    }

    /// Applies the decay due at the instant `now` to every concept, forgets
    /// the concepts that have fallen below the floor of their category, and
    /// says how many concepts are kept.
    pub fn apply_temporal_decay_at(&mut self, now: i64) -> (kept: usize)
        requires
            old(self).wf(),
        ensures
            final(self).wf(),
            final(self)@ == (SemanticMemoryView {
                concepts: decayed_spec(old(self)@.concepts, now),
                ..old(self)@
            }),
            kept == final(self)@.concepts.len(),
    {
        let ghost at_start = self@.concepts;
        let mut i: usize = 0;
        let ghost mut seen: int = 0;
        proof {
            assert(decayed_spec(at_start.take(0), now) =~= self@.concepts.take(0));
            assert(self@.concepts.skip(0) =~= at_start.skip(0));
        }
        while i < self.concepts.len()
            invariant
                i <= self.concepts.len(),
                i <= seen <= at_start.len(),
                at_start == old(self)@.concepts,
                self@.graph == old(self)@.graph,
                self.wf(),
                self@.concepts.take(i as int) == decayed_spec(at_start.take(seen), now),
                self@.concepts.skip(i as int) == at_start.skip(seen),
            decreases self.concepts.len() - i,
        {
            let ghost current = self@.concepts;
            proof {
                assert(current.skip(i as int).len() == at_start.skip(seen).len());
                assert(current.skip(i as int)[0] == at_start.skip(seen)[0]);
                assert(at_start.take(seen + 1).drop_last() =~= at_start.take(seen));
                assert(at_start.take(seen + 1).last() == at_start[seen]);
                assert(current[i as int] == at_start[seen]);
            }
            let keep = self.fade_at(i, now);
            let ghost faded = self@.concepts;
            proof {
                assert(faded.take(i as int) =~= current.take(i as int));
                assert(faded.skip(i + 1) =~= current.skip(i + 1));
            }
            if keep {
                proof {
                    assert(faded.take(i + 1) =~= faded.take(i as int).push(faded[i as int]));
                    assert(current.skip(i + 1) =~= current.skip(i as int).drop_first());
                    assert(at_start.skip(seen + 1) =~= at_start.skip(seen).drop_first());
                }
                i = i + 1;
            } else {
                self.remove_at(i);
                proof {
                    assert(self@.concepts.take(i as int) =~= faded.take(i as int));
                    assert(self@.concepts.skip(i as int) =~= faded.skip(i + 1));
                    assert(current.skip(i + 1) =~= current.skip(i as int).drop_first());
                    assert(at_start.skip(seen + 1) =~= at_start.skip(seen).drop_first());
                }
            }
            proof {
                seen = seen + 1;
            }
        }
        proof {
            assert(self@.concepts.skip(i as int).len() == 0);
            assert(at_start.skip(seen).len() == 0);
            assert(at_start.take(seen) =~= at_start);
            assert(self@.concepts.take(i as int) =~= self@.concepts);
        }
        self.concepts.len()
    }

    /// Applies the decay due now.
    pub fn apply_temporal_decay(&mut self) -> (kept: usize)
        requires
            old(self).wf(),
        ensures
            final(self).wf(),
            exists|now: i64|
                final(self)@ == (SemanticMemoryView {
                    concepts: #[trigger] decayed_spec(old(self)@.concepts, now),
                    ..old(self)@
                }),
            kept == final(self)@.concepts.len(),
    {
        let instant = now();
        self.apply_temporal_decay_at(instant)
    }

    /// The `top_k` concepts that count most at the instant `now`, each with
    /// its effective confidence; nothing is changed.
    pub fn get_concepts_with_decay_at(&self, top_k: usize, now: i64) -> (found: Vec<(i64, &Concept)>)
        requires
            self.wf(),
        ensures
            strongest_are(found@, self@.concepts, top_k as nat, now),
    {
        let ghost all = self@.concepts;
        let mut positions: Vec<usize> = Vec::new();
        let mut scores: Vec<i64> = Vec::new();
        let mut i: usize = 0;
        while i < self.concepts.len()
            invariant
                i <= self.concepts.len(),
                self.wf(),
                all == self@.concepts,
                positions@ == listed_spec(all.take(i as int), now),
                forall|j: int| 0 <= j < positions@.len() ==> (#[trigger] positions@[j]) < i,
                scores@.len() == positions@.len(),
                forall|j: int|
                    0 <= j < scores@.len() ==> (#[trigger] scores@[j])
                        == all[positions@[j] as int].effective_confidence(now),
            decreases self.concepts.len() - i,
        {
            proof {
                assert(all.take(i + 1).drop_last() =~= all.take(i as int));
                assert(all.take(i + 1).last() == self.concepts@[i as int]@);
                assert(all[i as int] == self.concepts@[i as int]@);
                assert(all[i as int].wf());
            }
            let score = self.concepts[i].effective_confidence_at(now);
            if score > LISTING_FLOOR {
                positions.push(i);
                scores.push(score);
            }
            i = i + 1;
        }
        let ghost wanted = Seq::new(
            positions@.len(),
            |i: int| all[positions@[i] as int].effective_confidence(now) as i64,
        );
        let considered = scores.len();
        proof {
            assert(all.take(i as int) =~= all);
            assert(scores@ =~= wanted);
            assert(wanted.len() == considered);
            crate::ranking::lemma_ranking_is_ranked(wanted);
        }
        let order = crate::ranking::rank(&scores);
        let count = if top_k < positions.len() {
            top_k
        } else {
            positions.len()
        };
        let ghost ranked = strongest_spec(all, top_k as nat, now);
        let mut found: Vec<(i64, &Concept)> = Vec::new();
        let mut k: usize = 0;
        while k < count
            invariant
                k <= count <= positions.len(),
                all == self@.concepts,
                order@ == crate::ranking::ranking_spec(wanted),
                order@.len() == positions@.len(),
                scores@ == wanted,
                positions@ == listed_spec(all, now),
                ranked == strongest_spec(all, top_k as nat, now),
                ranked.len() == count,
                wanted == Seq::new(
                    positions@.len(),
                    |i: int| all[positions@[i] as int].effective_confidence(now) as i64,
                ),
                forall|j: int| 0 <= j < order@.len() ==> (#[trigger] order@[j]) < positions@.len(),
                forall|j: int|
                    0 <= j < positions@.len() ==> (#[trigger] positions@[j]) < self.concepts@.len(),
                forall|j: int|
                    0 <= j < scores@.len() ==> (#[trigger] scores@[j])
                        == all[positions@[j] as int].effective_confidence(now),
                found@.len() == k,
                forall|j: int|
                    0 <= j < k ==> {
                        &&& ranked[j] < all.len()
                        &&& (#[trigger] found@[j]).1@ == all[ranked[j] as int]
                        &&& found@[j].0 == all[ranked[j] as int].effective_confidence(now)
                    },
            decreases count - k,
        {
            let slot = order[k];
            let at = positions[slot];
            proof {
                assert(ranked[k as int] == at);
                assert(all[at as int] == self.concepts@[at as int]@);
                assert(scores@[slot as int] == all[positions@[slot as int] as int].effective_confidence(
                    now,
                ));
            }
            let ghost before = found@;
            found.push((scores[slot], &self.concepts[at]));
            proof {
                assert forall|j: int| 0 <= j < k + 1 implies {
                    &&& ranked[j] < all.len()
                    &&& (#[trigger] found@[j]).1@ == all[ranked[j] as int]
                    &&& found@[j].0 == all[ranked[j] as int].effective_confidence(now)
                } by {
                    if j < k {
                        assert(found@[j] == before[j]);
                    }
                }
            }
            k = k + 1;
        }
        found
    }

    /// The `top_k` concepts that count most now.
    pub fn get_concepts_with_decay(&self, top_k: usize) -> (found: Vec<(i64, &Concept)>)
        requires
            self.wf(),
        ensures
            found@.len() <= top_k,
            found@.len() <= self@.concepts.len(),
            exists|now: i64| #[trigger] strongest_are(found@, self@.concepts, top_k as nat, now),
    {
        let instant = now();
        let found = self.get_concepts_with_decay_at(top_k, instant);
        proof {
            lemma_listed_len(self@.concepts, instant);
        }
        found
    }

    /// How the concepts of one category fare under decay at `now`.
    fn category_stats(&self, category: ConceptCategory, now: i64) -> (stats: CategoryDecayStats)
        requires
            self.wf(),
        ensures
            stats == category_stats_spec(self@.concepts, category, now),
    {
        let ghost all = self@.concepts;
        let ghost member = |c: ConceptView| c.category == category;
        let ghost low_member = |c: ConceptView| c.category == category && is_low_spec(c, now);
        let mut total: usize = 0;
        let mut low: usize = 0;
        let mut sum: u128 = 0;
        let mut i: usize = 0;
        proof {
            reveal(Seq::filter);
            assert(all.take(0).filter(member).len() == 0);
            assert(all.take(0).filter(low_member).len() == 0);
        }
        while i < self.concepts.len()
            invariant
                i <= self.concepts.len(),
                self.wf(),
                all == self@.concepts,
                member == (|c: ConceptView| c.category == category),
                low_member == (|c: ConceptView| c.category == category && is_low_spec(c, now)),
                total == all.take(i as int).filter(member).len(),
                low == all.take(i as int).filter(low_member).len(),
                sum == confidence_sum_spec(all.take(i as int), category, now),
                total <= i,
                low <= i,
                sum <= total * 1_000_000,
            decreases self.concepts.len() - i,
        {
            proof {
                reveal(Seq::filter);
                assert(all.take(i + 1).drop_last() =~= all.take(i as int));
                assert(all.take(i + 1).last() == self.concepts@[i as int]@);
                assert(all[i as int] == self.concepts@[i as int]@);
                assert(all[i as int].wf());
                crate::semantic::concept::lemma_effective_confidence_bounds(all[i as int], now);
                assert((total + 1) * 1_000_000 == total * 1_000_000 + 1_000_000)
                    by (nonlinear_arith);
                assert(total * 1_000_000 <= usize::MAX * 1_000_000) by (nonlinear_arith)
                    requires
                        total <= usize::MAX,
                ;
            }
            if self.concepts[i].category.ordinal() == category.ordinal() {
                let effective = self.concepts[i].effective_confidence_at(now);
                total = total + 1;
                sum = sum + effective as u128;
                if effective < LOW_CONFIDENCE {
                    low = low + 1;
                }
            }
            i = i + 1;
        }
        proof {
            assert(all.take(i as int) =~= all);
        }
        let avg_confidence: i64 = if total == 0 {
            0
        } else {
            proof {
                assert(sum / (total as u128) <= sum) by (nonlinear_arith)
                    requires
                        total >= 1,
                        sum >= 0,
                ;
                assert(sum / (total as u128) <= 1_000_000) by (nonlinear_arith)
                    requires
                        total >= 1,
                        0 <= sum <= total * 1_000_000,
                ;
            }
            (sum / (total as u128)) as i64
        };
        CategoryDecayStats { total, low_confidence: low, avg_confidence }
    }

    /// How all concepts fare under decay at the instant `now`.
    pub fn get_decay_stats_at(&self, now: i64) -> (stats: DecayStats)
        requires
            self.wf(),
        ensures
            decay_stats_are(stats, self@.concepts, now),
    {
        let ghost all = self@.concepts;
        let ghost decayed = |c: ConceptView| has_decayed_spec(c, now);
        let ghost low = |c: ConceptView| is_low_spec(c, now);
        let mut decayed_concepts: usize = 0;
        let mut low_confidence_concepts: usize = 0;
        let mut i: usize = 0;
        proof {
            reveal(Seq::filter);
            assert(all.take(0).filter(decayed).len() == 0);
            assert(all.take(0).filter(low).len() == 0);
        }
        while i < self.concepts.len()
            invariant
                i <= self.concepts.len(),
                self.wf(),
                all == self@.concepts,
                decayed == (|c: ConceptView| has_decayed_spec(c, now)),
                low == (|c: ConceptView| is_low_spec(c, now)),
                decayed_concepts == all.take(i as int).filter(decayed).len(),
                low_confidence_concepts == all.take(i as int).filter(low).len(),
                decayed_concepts <= i,
                low_confidence_concepts <= i,
            decreases self.concepts.len() - i,
        {
            proof {
                reveal(Seq::filter);
                assert(all.take(i + 1).drop_last() =~= all.take(i as int));
                assert(all.take(i + 1).last() == self.concepts@[i as int]@);
                assert(all[i as int] == self.concepts@[i as int]@);
                assert(all[i as int].wf());
                crate::semantic::concept::lemma_effective_confidence_bounds(all[i as int], now);
            }
            let effective = self.concepts[i].effective_confidence_at(now);
            if effective * 10 < self.concepts[i].confidence * 9 {
                decayed_concepts = decayed_concepts + 1;
            }
            if effective < LOW_CONFIDENCE {
                low_confidence_concepts = low_confidence_concepts + 1;
            }
            i = i + 1;
        }
        proof {
            assert(all.take(i as int) =~= all);
        }
        let mut category_stats: Vec<CategoryDecayStats> = Vec::new();
        let mut position: usize = 0;
        while position < 6
            invariant
                position <= 6,
                self.wf(),
                all == self@.concepts,
                category_stats@.len() == position,
                forall|p: int|
                    0 <= p < position ==> (#[trigger] category_stats@[p]) == category_stats_spec(
                        all,
                        category_at_spec(p),
                        now,
                    ),
            decreases 6 - position,
        {
            let stats = self.category_stats(category_at(position), now);
            category_stats.push(stats);
            position = position + 1;
        }
        DecayStats {
            total_concepts: self.concepts.len(),
            decayed_concepts,
            low_confidence_concepts,
            category_stats,
        }
    }

    /// How all concepts fare under decay now.
    pub fn get_decay_stats(&self) -> (stats: DecayStats)
        requires
            self.wf(),
        ensures
            exists|now: i64| #[trigger] decay_stats_are(stats, self@.concepts, now),
    {
        let instant = now();
        self.get_decay_stats_at(instant)
    }
}

/// No more concepts are listed than there are.
pub proof fn lemma_listed_len(concepts: Seq<ConceptView>, now: i64)
    ensures
        listed_spec(concepts, now).len() <= concepts.len(),
    decreases concepts.len(),
{
    if concepts.len() > 0 {
        lemma_listed_len(concepts.drop_last(), now);
    }
}

/// `related` with `id`, unless it is there already.
pub open spec fn with_related_spec(related: Seq<u128>, id: u128) -> Seq<u128> {
    if related.contains(id) {
        related
    } else {
        related.push(id)
    }
}

/// `concepts` with `id` noted as related to the concept at position `at`.
pub open spec fn related_at_spec(concepts: Seq<ConceptView>, at: int, id: u128) -> Seq<ConceptView> {
    concepts.update(
        at,
        ConceptView {
            related_concepts: with_related_spec(concepts[at].related_concepts, id),
            ..concepts[at]
        },
    )
}

/// The confidence that a new relation is given: the stated one, held within
/// nothing and one, or one half where none is stated.
pub open spec fn relation_confidence_spec(confidence: Option<i64>) -> i64 {
    match confidence {
        Some(stated) => clamp_unit_spec(stated as int) as i64,
        None => crate::semantic::graph::DEFAULT_RELATION_CONFIDENCE,
    }
}

/// The manager after the relation has been added: the relation stands in the
/// graph, and each of its ends has the other noted as related.
pub open spec fn after_relation_spec(
    manager: SemanticMemoryView,
    subject: u128,
    predicate: Seq<char>,
    object: u128,
    confidence: Option<i64>,
    now: i64,
) -> SemanticMemoryView {
    let subject_at = concept_position_spec(manager.concepts, subject)->0;
    let object_at = concept_position_spec(manager.concepts, object)->0;
    SemanticMemoryView {
        concepts: related_at_spec(
            related_at_spec(manager.concepts, subject_at, object),
            object_at,
            subject,
        ),
        graph: manager.graph.push(
            TripleView {
                subject,
                predicate,
                object,
                confidence: relation_confidence_spec(confidence),
                created_at: now,
                updated_at: now,
                metadata: Seq::empty(),
            },
        ),
    }
}

/// The first concept with the lower-case text `text` and the source `source`.
pub open spec fn known_spec(concepts: Seq<ConceptView>, text: Seq<char>, source: Seq<char>) -> Option<
    int,
>
    decreases concepts.len(),
{
    if concepts.len() == 0 {
        None
    } else {
        match known_spec(concepts.drop_last(), text, source) {
            Some(at) => Some(at),
            None => if lowercase_spec(concepts.last().text) == text && concepts.last().source
                == source {
                Some(concepts.len() - 1)
            } else {
                None
            },
        }
    }
}

/// Once a concept is known among the first concepts, it stays the one known
/// among all.
proof fn lemma_known_stays(concepts: Seq<ConceptView>, text: Seq<char>, source: Seq<char>, upto: int)
    requires
        0 <= upto <= concepts.len(),
        known_spec(concepts.take(upto), text, source) is Some,
    ensures
        known_spec(concepts, text, source) == known_spec(concepts.take(upto), text, source),
    decreases concepts.len() - upto,
{
    if upto < concepts.len() {
        assert(concepts.take(upto + 1).drop_last() =~= concepts.take(upto));
        lemma_known_stays(concepts, text, source, upto + 1);
    } else {
        assert(concepts.take(upto) =~= concepts);
    }
}

/// What finding or creating a concept does to the list, and the identifier
/// it gives back: that of the first concept with the text and the source, or
/// else that of a new general concept; but where the new identifier is
/// already in use, nothing is added.
pub open spec fn found_or_created_spec(
    concepts: Seq<ConceptView>,
    text: Seq<char>,
    source: Seq<char>,
    embedding: Seq<u32>,
    id: u128,
    now: i64,
) -> (Seq<ConceptView>, u128) {
    match known_spec(concepts, text, source) {
        Some(at) => (concepts, concepts[at].id),
        None => if concept_position_spec(concepts, id) is Some {
            (concepts, id)
        } else {
            (
                concepts.push(
                    ConceptView {
                        id,
                        text,
                        category: ConceptCategory::General,
                        confidence: DEFAULT_CONFIDENCE,
                        source,
                        embedding,
                        metadata: Seq::empty(),
                        created_at: now,
                        updated_at: now,
                        usage_count: 0,
                        related_concepts: Seq::empty(),
                    },
                ),
                id,
            )
        },
    }
}

impl SemanticMemoryManager {
    /// The graph of a well-formed manager is well formed.
    proof fn lemma_graph_wf(&self)
        requires
            self.wf(),
        ensures
            self.knowledge_graph.wf(),
    {
    }

    /// Notes `id` as related to the concept at position `at`.
    fn relate_at(&mut self, at: usize, id: u128)
        requires
            old(self).wf(),
            at < old(self)@.concepts.len(),
        ensures
            final(self).wf(),
            final(self)@ == (SemanticMemoryView {
                concepts: related_at_spec(old(self)@.concepts, at as int, id),
                ..old(self)@
            }),
    {
        let ghost before = self@.concepts;
        let mut concept = self.concepts.remove(at);
        let mut known = false;
        let mut i: usize = 0;
        while i < concept.related_concepts.len()
            invariant
                i <= concept.related_concepts.len(),
                concept@ == before[at as int],
                known ==> concept.related_concepts@.contains(id),
                !known ==> forall|k: int| 0 <= k < i ==> concept.related_concepts@[k] != id,
            decreases concept.related_concepts.len() - i,
        {
            if concept.related_concepts[i] == id {
                proof {
                    assert(concept.related_concepts@[i as int] == id);
                }
                known = true;
            }
            i = i + 1;
        }
        if !known {
            concept.related_concepts.push(id);
        }
        self.concepts.insert(at, concept);
        proof {
            let after = self@.concepts;
            assert(after =~= related_at_spec(before, at as int, id));
            assert forall|i: int| 0 <= i < after.len() implies (#[trigger] after[i]).wf() by {
                if i != at {
                    assert(after[i] == before[i]);
                } else {
                    assert(before[at as int].wf());
                }
            }
            assert forall|i: int, j: int| 0 <= i < j < after.len() implies (#[trigger] after[i]).id
                != (#[trigger] after[j]).id by {
                assert(after[i].id == before[i].id);
                assert(after[j].id == before[j].id);
            }
            assert forall|category: ConceptCategory| #[trigger]
                self.category_index.ids(category) == ids_of_category_spec(after, category) by {
                assert forall|i: int| 0 <= i < before.len() implies (#[trigger] before[i]).id
                    == after[i].id && before[i].category == after[i].category by {}
                lemma_same_keys(before, after, category);
            }
        }
    }

    /// Relates two concepts at the instant `now`. Fails, changing nothing,
    /// where the subject or else the object is not a known concept;
    /// otherwise adds the relation and returns the identifier of its subject.
    pub fn add_relation_at(
        &mut self,
        subject_id: &u128,
        predicate: &str,
        object_id: &u128,
        confidence: Option<i64>,
        now: i64,
    ) -> (outcome: Result<u128, MemoryError>)
        requires
            old(self).wf(),
        ensures
            final(self).wf(),
            concept_position_spec(old(self)@.concepts, *subject_id) is None ==> outcome == Err::<
                u128,
                MemoryError,
            >(MemoryError::SubjectNotFound { id: *subject_id }) && final(self)@ == old(self)@,
            concept_position_spec(old(self)@.concepts, *subject_id) is Some
                && concept_position_spec(old(self)@.concepts, *object_id) is None ==> outcome
                == Err::<u128, MemoryError>(MemoryError::ObjectNotFound { id: *object_id })
                && final(self)@ == old(self)@,
            concept_position_spec(old(self)@.concepts, *subject_id) is Some
                && concept_position_spec(old(self)@.concepts, *object_id) is Some ==> outcome
                == Ok::<u128, MemoryError>(*subject_id) && final(self)@ == after_relation_spec(
                old(self)@,
                *subject_id,
                predicate@,
                *object_id,
                confidence,
                now,
            ),
    {
        let subject_at = match self.position(*subject_id) {
            Some(at) => at,
            None => {
                return Err(MemoryError::SubjectNotFound { id: *subject_id });
            },
        };
        let object_at = match self.position(*object_id) {
            Some(at) => at,
            None => {
                return Err(MemoryError::ObjectNotFound { id: *object_id });
            },
        };
        let mut triple = crate::semantic::graph::Triple::at(
            now,
            *subject_id,
            crate::text::owned(predicate),
            *object_id,
        );
        match confidence {
            Some(stated) => {
                triple = triple.with_confidence(stated);
            },
            None => {},
        }
        proof {
            self.lemma_graph_wf();
        }
        self.knowledge_graph.add_triple(triple);
        proof {
            self.knowledge_graph.lemma_confidences();
        }
        self.relate_at(subject_at, *object_id);
        self.relate_at(object_at, *subject_id);
        Ok(*subject_id)
    }

    /// Relates two concepts, now.
    pub fn add_relation(
        &mut self,
        subject_id: &u128,
        predicate: &str,
        object_id: &u128,
        confidence: Option<i64>,
    ) -> (outcome: Result<u128, MemoryError>)
        requires
            old(self).wf(),
        ensures
            final(self).wf(),
            outcome is Ok <==> concept_position_spec(old(self)@.concepts, *subject_id) is Some
                && concept_position_spec(old(self)@.concepts, *object_id) is Some,
            outcome is Err ==> final(self)@ == old(self)@,
            outcome is Ok ==> outcome->Ok_0 == *subject_id && exists|now: i64|
                final(self)@ == #[trigger] after_relation_spec(
                    old(self)@,
                    *subject_id,
                    predicate@,
                    *object_id,
                    confidence,
                    now,
                ),
    {
        let instant = now();
        self.add_relation_at(subject_id, predicate, object_id, confidence, instant)
    }

    /// The relations that start at the concept `concept_id`.
    pub fn find_outgoing_relations(&self, concept_id: &u128) -> (found: Vec<
        &crate::semantic::graph::Triple,
    >)
        requires
            self.wf(),
        ensures
            crate::semantic::graph::borrowed_views(found@) == crate::semantic::graph::selected_spec(
                self@.graph,
                crate::semantic::graph::Selector::Subject(*concept_id),
            ),
    {
        self.knowledge_graph.find_by_subject(concept_id)
    }

    /// The relations that end at the concept `concept_id`.
    pub fn find_incoming_relations(&self, concept_id: &u128) -> (found: Vec<
        &crate::semantic::graph::Triple,
    >)
        requires
            self.wf(),
        ensures
            crate::semantic::graph::borrowed_views(found@) == crate::semantic::graph::selected_spec(
                self@.graph,
                crate::semantic::graph::Selector::Object(*concept_id),
            ),
    {
        self.knowledge_graph.find_by_object(concept_id)
    }

    /// Everything related to the concept `concept_id`, as it counts at `now`.
    pub fn find_related_concepts_at(&self, concept_id: &u128, now: i64) -> (related: Vec<
        crate::semantic::graph::Related,
    >)
        requires
            self.wf(),
        ensures
            crate::semantic::graph::related_views(related@) == crate::semantic::graph::related_spec(
                self@.graph,
                *concept_id,
                now,
            ),
    {
        proof {
            self.lemma_graph_wf();
        }
        self.knowledge_graph.find_related_concepts_at(concept_id, now)
    }

    /// Everything related to the concept `concept_id`, as it counts now.
    pub fn find_related_concepts(&self, concept_id: &u128) -> (related: Vec<
        crate::semantic::graph::Related,
    >)
        requires
            self.wf(),
        ensures
            exists|now: i64|
                crate::semantic::graph::related_views(related@)
                    == crate::semantic::graph::related_spec(self@.graph, *concept_id, now),
    {
        let instant = now();
        self.find_related_concepts_at(concept_id, instant)
    }

    /// Counts of the graph.
    pub fn get_graph_stats(&self) -> (stats: crate::semantic::graph::GraphStats)
        ensures
            stats.total_triples == self@.graph.len(),
            stats.total_predicates == crate::semantic::graph::distinct_predicates_spec(
                self@.graph,
            ),
    {
        self.knowledge_graph.get_stats()
    }

    /// The identifier of the first concept with the lower-case text `text`
    /// and the source `source`; where there is none, a general concept with
    /// that text is created under the identifier `id` at the instant `now`,
    /// given the embedding of the text.
    pub fn find_or_create_concept_at(
        &mut self,
        text: &str,
        source: &str,
        embedding: Vec<u32>,
        id: u128,
        now: i64,
    ) -> (found: u128)
        requires
            old(self).wf(),
        ensures
            final(self).wf(),
            final(self)@.graph == old(self)@.graph,
            final(self)@.concepts == found_or_created_spec(
                old(self)@.concepts,
                text@,
                source@,
                embedding@,
                id,
                now,
            ).0,
            found == found_or_created_spec(
                old(self)@.concepts,
                text@,
                source@,
                embedding@,
                id,
                now,
            ).1,
            concept_position_spec(final(self)@.concepts, found) is Some,
    {
        let ghost all = self@.concepts;
        let wanted = chars_of(text);
        let mut i: usize = 0;
        while i < self.concepts.len()
            invariant
                i <= self.concepts.len(),
                self.wf(),
                self@ == old(self)@,
                all == self@.concepts,
                wanted@ == text@,
                known_spec(all.take(i as int), text@, source@) is None,
            decreases self.concepts.len() - i,
        {
            proof {
                assert(all.take(i + 1).drop_last() =~= all.take(i as int));
                assert(all.take(i + 1).last() == self.concepts@[i as int]@);
                assert(all[i as int] == self.concepts@[i as int]@);
            }
            let lower = lowercase(chars_of(self.concepts[i].text.as_str()).as_slice());
            if crate::text::same_chars(lower.as_slice(), wanted.as_slice()) && crate::text::same_text(
                self.concepts[i].source.as_str(),
                source,
            ) {
                proof {
                    lemma_known_stays(all, text@, source@, i + 1);
                    lemma_position_of_member(all, i as int);
                }
                return self.concepts[i].id;
            }
            i = i + 1;
        }
        proof {
            assert(all.take(i as int) =~= all);
            lemma_concept_position(all, id);
        }
        match self.position(id) {
            Some(_) => {
                return id;
            },
            None => {},
        }
        let mut fresh = Concept::with_identity(
            id,
            now,
            crate::text::owned(text),
            ConceptCategory::General,
            crate::text::owned(source),
        );
        fresh.embedding = embedding;
        self.insert(fresh);
        proof {
            let after = self@.concepts;
            assert(after.last().id == id);
            assert(concept_position_spec(after, id) == Some(after.len() - 1));
        }
        id
    }

    /// Links the two ends of a relation found in free text: each end is the
    /// known concept with that text and source, or else a new general
    /// concept; the relation between them is given the confidence of
    /// extracted relations.
    pub fn link_relation_at(
        &mut self,
        candidate: &crate::semantic::relations::RelationCandidate,
        source: &str,
        subject_embedding: Vec<u32>,
        object_embedding: Vec<u32>,
        subject_id: u128,
        object_id: u128,
        now: i64,
    ) -> (subject: u128)
        requires
            old(self).wf(),
        ensures
            final(self).wf(),
            ({
                let first = found_or_created_spec(
                    old(self)@.concepts,
                    candidate@.subject,
                    source@,
                    subject_embedding@,
                    subject_id,
                    now,
                );
                let second = found_or_created_spec(
                    first.0,
                    candidate@.object,
                    source@,
                    object_embedding@,
                    object_id,
                    now,
                );
                &&& subject == first.1
                &&& final(self)@ == after_relation_spec(
                    SemanticMemoryView { concepts: second.0, graph: old(self)@.graph },
                    first.1,
                    candidate@.predicate,
                    second.1,
                    Some(crate::semantic::relations::EXTRACTED_CONFIDENCE),
                    now,
                )
            }),
    {
        let subject = self.find_or_create_concept_at(
            candidate.subject.as_str(),
            source,
            subject_embedding,
            subject_id,
            now,
        );
        let ghost between = self@.concepts;
        let object = self.find_or_create_concept_at(
            candidate.object.as_str(),
            source,
            object_embedding,
            object_id,
            now,
        );
        proof {
            lemma_position_survives(
                between,
                candidate@.object,
                source@,
                object_embedding@,
                object_id,
                now,
                subject,
            );
        }
        let _ = self.add_relation_at(
            &subject,
            candidate.predicate.as_str(),
            &object,
            Some(crate::semantic::relations::EXTRACTED_CONFIDENCE),
            now,
        );
        subject
    }
}

/// A concept of the list is found under its identifier.
proof fn lemma_position_of_member(concepts: Seq<ConceptView>, at: int)
    requires
        0 <= at < concepts.len(),
    ensures
        concept_position_spec(concepts, concepts[at].id) is Some,
{
    lemma_concept_position(concepts, concepts[at].id);
}

/// Finding or creating a concept keeps every identifier that was in use.
proof fn lemma_position_survives(
    concepts: Seq<ConceptView>,
    text: Seq<char>,
    source: Seq<char>,
    embedding: Seq<u32>,
    id: u128,
    now: i64,
    kept: u128,
)
    requires
        concept_position_spec(concepts, kept) is Some,
    ensures
        concept_position_spec(
            found_or_created_spec(concepts, text, source, embedding, id, now).0,
            kept,
        ) is Some,
{
    let after = found_or_created_spec(concepts, text, source, embedding, id, now).0;
    if after != concepts {
        assert(after.drop_last() =~= concepts);
    }
}

/// The list after the concept has been taken in: behind the others, and in
/// the place of a concept with the same identifier.
pub open spec fn taken_in_spec(concepts: Seq<ConceptView>, concept: ConceptView) -> Seq<ConceptView> {
    match concept_position_spec(concepts, concept.id) {
        Some(at) => concepts.remove(at).push(concept),
        None => concepts.push(concept),
    }
}

/// The list that taking in the first `count` of `concepts` leads to.
pub open spec fn taken_in_all_spec(concepts: Seq<ConceptView>, count: nat) -> Seq<ConceptView>
    decreases count,
{
    if count == 0 || count > concepts.len() {
        Seq::empty()
    } else {
        taken_in_spec(taken_in_all_spec(concepts, (count - 1) as nat), concepts[count - 1])
    }
}

impl SemanticMemoryManager {
    /// Takes a concept in as it is, without looking for duplicates or
    /// contradictions; a concept with the same identifier gives way.
    pub fn take_in(&mut self, concept: Concept)
        requires
            old(self).wf(),
            concept.wf(),
        ensures
            final(self).wf(),
            final(self)@ == (SemanticMemoryView {
                concepts: taken_in_spec(old(self)@.concepts, concept@),
                ..old(self)@
            }),
    {
        proof {
            lemma_concept_position(self@.concepts, concept.id);
        }
        match self.position(concept.id) {
            Some(at) => {
                let ghost before = self@.concepts;
                self.remove_at(at);
                proof {
                    let after = self@.concepts;
                    assert forall|i: int| 0 <= i < after.len() implies (#[trigger] after[i]).id
                        != concept.id by {
                        let k = if i < at {
                            i
                        } else {
                            i + 1
                        };
                        assert(after[i] == before[k]);
                        if k < at {
                            assert(before[k].id != before[at as int].id);
                        } else {
                            assert(before[at as int].id != before[k].id);
                        }
                    }
                }
            },
            None => {},
        }
        self.insert(concept);
    }

    /// A manager that knows the given concepts, each with its embedding.
    pub fn with_concepts(concepts: Vec<Concept>) -> (manager: SemanticMemoryManager)
        requires
            forall|i: int| 0 <= i < concepts@.len() ==> (#[trigger] concepts@[i]).wf(),
        ensures
            manager.wf(),
            manager@.graph.len() == 0,
            manager@.concepts == taken_in_all_spec(concept_views(concepts@), concepts@.len()),
    {
        let ghost views = concept_views(concepts@);
        let mut manager = SemanticMemoryManager::new();
        let mut rest = concepts;
        let ghost mut seen: nat = 0;
        assert(manager@.concepts =~= taken_in_all_spec(views, 0));
        assert(views.skip(0) =~= views);
        while rest.len() > 0
            invariant
                manager.wf(),
                manager@.graph.len() == 0,
                seen <= views.len(),
                views == concept_views(concepts@),
                concept_views(rest@) == views.skip(seen as int),
                forall|i: int| 0 <= i < rest@.len() ==> (#[trigger] rest@[i]).wf(),
                manager@.concepts == taken_in_all_spec(views, seen),
            decreases rest.len(),
        {
            let ghost before = concept_views(rest@);
            let ghost old_rest = rest@;
            assert(old_rest[0].wf());
            let concept = rest.remove(0);
            proof {
                assert(before.len() == views.skip(seen as int).len());
                assert(before[0] == views.skip(seen as int)[0]);
                assert(concept@ == views[seen as int]);
                assert(concept_views(rest@) =~= before.drop_first());
                assert(views.skip(seen as int).drop_first() =~= views.skip((seen + 1) as int));
                assert forall|i: int| 0 <= i < rest@.len() implies (#[trigger] rest@[i]).wf() by {
                    assert(rest@[i] == old_rest[i + 1]);
                }
            }
            manager.take_in(concept);
            proof {
                seen = seen + 1;
            }
        }
        proof {
            assert(views.skip(seen as int).len() == 0);
        }
        manager
    }
}

/// Whether two concepts say the same, letter for letter, whatever the case.
pub open spec fn same_statement_spec(a: ConceptView, b: ConceptView) -> bool {
    lowercase_spec(a.text) == lowercase_spec(b.text)
}

/// Whether one of the first `upto` concepts says the same as the concept at `at`.
pub open spec fn said_before_spec(concepts: Seq<ConceptView>, at: int, upto: int) -> bool
    decreases upto,
{
    if upto <= 0 {
        false
    } else {
        same_statement_spec(concepts[upto - 1], concepts[at]) || said_before_spec(
            concepts,
            at,
            upto - 1,
        )
    }
}

/// Two usage counts together, or the largest count there is.
pub open spec fn usage_sum_spec(a: u32, b: u32) -> u32 {
    if a + b > u32::MAX {
        u32::MAX
    } else {
        (a + b) as u32
    }
}

/// Two concepts that say the same, merged: the surer one is kept (the first
/// where both are equally sure), with the usage counts of both.
pub open spec fn absorbed_spec(kept: ConceptView, other: ConceptView) -> ConceptView {
    if other.confidence > kept.confidence {
        ConceptView { usage_count: usage_sum_spec(kept.usage_count, other.usage_count), ..other }
    } else {
        ConceptView { usage_count: usage_sum_spec(kept.usage_count, other.usage_count), ..kept }
    }
}

/// The concept at `at` merged with all concepts between it and `upto` that
/// say the same.
pub open spec fn group_spec(concepts: Seq<ConceptView>, at: int, upto: int) -> ConceptView
    decreases upto - at,
{
    if upto <= at + 1 {
        concepts[at]
    } else {
        let so_far = group_spec(concepts, at, upto - 1);
        if same_statement_spec(concepts[upto - 1], concepts[at]) {
            absorbed_spec(so_far, concepts[upto - 1])
        } else {
            so_far
        }
    }
}

/// What merging leaves of the first `count` concepts: for every statement,
/// at the place where it is made first, the merged concept of all that make it.
pub open spec fn merged_spec(concepts: Seq<ConceptView>, count: nat) -> Seq<ConceptView>
    decreases count,
{
    if count == 0 || count > concepts.len() {
        Seq::empty()
    } else {
        let earlier = merged_spec(concepts, (count - 1) as nat);
        if said_before_spec(concepts, count - 1, count - 1) {
            earlier
        } else {
            earlier.push(group_spec(concepts, count - 1, concepts.len() as int))
        }
    }
}

/// A merged concept is one of its group, up to the usage count.
proof fn lemma_group_member(concepts: Seq<ConceptView>, at: int, upto: int)
    requires
        0 <= at < upto <= concepts.len(),
        forall|i: int| 0 <= i < concepts.len() ==> (#[trigger] concepts[i]).wf(),
    ensures
        group_spec(concepts, at, upto).wf(),
        exists|member: int|
            at <= member < upto && same_statement_spec(#[trigger] concepts[member], concepts[at])
                && group_spec(concepts, at, upto).id == concepts[member].id,
    decreases upto,
{
    if upto <= at + 1 {
        assert(same_statement_spec(concepts[at], concepts[at]));
    } else {
        lemma_group_member(concepts, at, upto - 1);
        let so_far = group_spec(concepts, at, upto - 1);
        let member = choose|member: int|
            at <= member < upto - 1 && same_statement_spec(
                #[trigger] concepts[member],
                concepts[at],
            ) && so_far.id == concepts[member].id;
        if same_statement_spec(concepts[upto - 1], concepts[at]) {
            assert(concepts[upto - 1].wf());
            if concepts[upto - 1].confidence > so_far.confidence {
                assert(group_spec(concepts, at, upto).id == concepts[upto - 1].id);
            } else {
                assert(group_spec(concepts, at, upto).id == concepts[member].id);
            }
        } else {
            assert(group_spec(concepts, at, upto).id == concepts[member].id);
        }
    }
}

/// A concept that says what an earlier one says has it said before.
proof fn lemma_said_before(concepts: Seq<ConceptView>, at: int, upto: int, earlier: int)
    requires
        0 <= earlier < upto <= concepts.len(),
        0 <= at < concepts.len(),
        same_statement_spec(concepts[earlier], concepts[at]),
    ensures
        said_before_spec(concepts, at, upto),
    decreases upto,
{
    if earlier < upto - 1 {
        lemma_said_before(concepts, at, upto - 1, earlier);
    }
}

/// Whether `id` is the identifier of a concept that says what one of the
/// first `count` concepts is the first to say.
spec fn from_group_spec(concepts: Seq<ConceptView>, count: nat, id: u128) -> bool {
    exists|leader: int, member: int|
        #![trigger concepts[member], concepts[leader]]
        0 <= leader < count && leader <= member < concepts.len() && !said_before_spec(
            concepts,
            leader,
            leader,
        ) && same_statement_spec(concepts[member], concepts[leader]) && concepts[member].id == id
}

/// What merging leaves is well formed and has no two concepts with one
/// identifier.
proof fn lemma_merged(concepts: Seq<ConceptView>, count: nat)
    requires
        count <= concepts.len(),
        forall|i: int| 0 <= i < concepts.len() ==> (#[trigger] concepts[i]).wf(),
        concept_ids_distinct(concepts),
    ensures
        merged_spec(concepts, count).len() <= count,
        forall|k: int|
            0 <= k < merged_spec(concepts, count).len() ==> (#[trigger] merged_spec(
                concepts,
                count,
            )[k]).wf(),
        forall|k: int|
            0 <= k < merged_spec(concepts, count).len() ==> from_group_spec(
                concepts,
                count,
                (#[trigger] merged_spec(concepts, count)[k]).id,
            ),
        concept_ids_distinct(merged_spec(concepts, count)),
    decreases count,
{
    if count > 0 {
        lemma_merged(concepts, (count - 1) as nat);
        let earlier = merged_spec(concepts, (count - 1) as nat);
        let all = merged_spec(concepts, count);
        let at = count - 1;
        assert forall|k: int| 0 <= k < earlier.len() implies from_group_spec(
            concepts,
            count,
            (#[trigger] earlier[k]).id,
        ) by {
            assert(from_group_spec(concepts, (count - 1) as nat, earlier[k].id));
            let (leader, member) = choose|leader: int, member: int|
                #![trigger concepts[member], concepts[leader]]
                0 <= leader < count - 1 && leader <= member < concepts.len() && !said_before_spec(
                    concepts,
                    leader,
                    leader,
                ) && same_statement_spec(concepts[member], concepts[leader])
                    && concepts[member].id == earlier[k].id;
            assert(same_statement_spec(concepts[member], concepts[leader]));
        }
        if !said_before_spec(concepts, at, at) {
            lemma_group_member(concepts, at, concepts.len() as int);
            let group = group_spec(concepts, at, concepts.len() as int);
            let own = choose|member: int|
                at <= member < concepts.len() && same_statement_spec(
                    #[trigger] concepts[member],
                    concepts[at],
                ) && group.id == concepts[member].id;
            assert(same_statement_spec(concepts[own], concepts[at]));
            assert(from_group_spec(concepts, count, group.id));
            assert forall|k: int| 0 <= k < all.len() implies from_group_spec(
                concepts,
                count,
                (#[trigger] all[k]).id,
            ) && all[k].wf() by {
                if k < earlier.len() {
                    assert(all[k] == earlier[k]);
                }
            }
            assert forall|i: int, j: int| 0 <= i < j < all.len() implies (#[trigger] all[i]).id != (
            #[trigger] all[j]).id by {
                assert(all[i] == earlier[i]);
                if j < earlier.len() {
                    assert(all[j] == earlier[j]);
                } else {
                    assert(from_group_spec(concepts, (count - 1) as nat, earlier[i].id));
                    let (leader, member) = choose|leader: int, member: int|
                        #![trigger concepts[member], concepts[leader]]
                        0 <= leader < count - 1 && leader <= member < concepts.len()
                            && !said_before_spec(concepts, leader, leader) && same_statement_spec(
                            concepts[member],
                            concepts[leader],
                        ) && concepts[member].id == earlier[i].id;
                    // the two members say different things, so they differ
                    if member == own {
                        lemma_said_before(concepts, at, at, leader);
                    } else if member < own {
                        assert(concepts[member].id != concepts[own].id);
                    } else {
                        assert(concepts[own].id != concepts[member].id);
                    }
                }
            }
        }
    }
}

/// Taking in concepts with distinct identifiers, one after the other, gives
/// the list of them.
proof fn lemma_taken_in_distinct(concepts: Seq<ConceptView>, count: nat)
    requires
        count <= concepts.len(),
        concept_ids_distinct(concepts),
    ensures
        taken_in_all_spec(concepts, count) == concepts.take(count as int),
    decreases count,
{
    if count == 0 {
        assert(concepts.take(0) =~= Seq::<ConceptView>::empty());
    } else {
        lemma_taken_in_distinct(concepts, (count - 1) as nat);
        let earlier = concepts.take(count - 1);
        lemma_concept_position(earlier, concepts[count - 1].id);
        if concept_position_spec(earlier, concepts[count - 1].id) is Some {
            let at = concept_position_spec(earlier, concepts[count - 1].id)->0;
            assert(earlier[at] == concepts[at]);
            assert(concepts[at].id != concepts[count - 1].id);
        }
        assert(earlier.push(concepts[count - 1]) =~= concepts.take(count as int));
    }
}

impl SemanticMemoryManager {
    /// The concept at `at` merged with all later concepts that say the same;
    /// `lowered` holds the statements in lower case.
    fn group(&self, lowered: &Vec<Vec<char>>, at: usize) -> (merged: Concept)
        requires
            at < self@.concepts.len(),
            lowered@.len() == self@.concepts.len(),
            forall|i: int|
                0 <= i < lowered@.len() ==> (#[trigger] lowered@[i])@ == lowercase_spec(
                    self@.concepts[i].text,
                ),
        ensures
            merged@ == group_spec(self@.concepts, at as int, self@.concepts.len() as int),
    {
        let ghost all = self@.concepts;
        let total = self.concepts.len();
        assert(at < total);
        let mut merged = self.concepts[at].duplicate();
        let mut next: usize = at + 1;
        proof {
            assert(all[at as int] == self.concepts@[at as int]@);
        }
        while next < self.concepts.len()
            invariant
                at < next <= self.concepts.len(),
                all == self@.concepts,
                lowered@.len() == all.len(),
                forall|i: int|
                    0 <= i < lowered@.len() ==> (#[trigger] lowered@[i])@ == lowercase_spec(
                        all[i].text,
                    ),
                merged@ == group_spec(all, at as int, next as int),
            decreases self.concepts.len() - next,
        {
            proof {
                assert(all[next as int] == self.concepts@[next as int]@);
            }
            if crate::text::same_chars(lowered[next].as_slice(), lowered[at].as_slice()) {
                let other = &self.concepts[next];
                let total: u32 = if merged.usage_count > u32::MAX - other.usage_count {
                    u32::MAX
                } else {
                    merged.usage_count + other.usage_count
                };
                if other.confidence > merged.confidence {
                    merged = other.duplicate();
                }
                merged.usage_count = total;
            }
            next = next + 1;
        }
        merged
    }

    /// Merges the concepts that say the same, letter for letter and whatever
    /// the case: of each such group the surest is kept, at the place of the
    /// first, with the usage counts of all. Says how many concepts went. The
    /// threshold plays no part.
    pub fn merge_similar(&mut self, threshold: i64) -> (removed: usize)
        requires
            old(self).wf(),
        ensures
            final(self).wf(),
            final(self)@ == (SemanticMemoryView {
                concepts: merged_spec(old(self)@.concepts, old(self)@.concepts.len()),
                ..old(self)@
            }),
            removed == old(self)@.concepts.len() - final(self)@.concepts.len(),
    {
        let ghost all = self@.concepts;
        let mut lowered: Vec<Vec<char>> = Vec::new();
        let mut i: usize = 0;
        while i < self.concepts.len()
            invariant
                i <= self.concepts.len(),
                all == self@.concepts,
                lowered@.len() == i,
                forall|j: int|
                    0 <= j < i ==> (#[trigger] lowered@[j])@ == lowercase_spec(all[j].text),
            decreases self.concepts.len() - i,
        {
            proof {
                assert(all[i as int] == self.concepts@[i as int]@);
            }
            lowered.push(lowercase(chars_of(self.concepts[i].text.as_str()).as_slice()));
            i = i + 1;
        }
        let mut merged: Vec<Concept> = Vec::new();
        let mut at: usize = 0;
        assert(concept_views(merged@) =~= merged_spec(all, 0));
        while at < self.concepts.len()
            invariant
                at <= self.concepts.len(),
                all == self@.concepts,
                self@ == old(self)@,
                lowered@.len() == all.len(),
                forall|j: int|
                    0 <= j < lowered@.len() ==> (#[trigger] lowered@[j])@ == lowercase_spec(
                        all[j].text,
                    ),
                concept_views(merged@) == merged_spec(all, at as nat),
            decreases self.concepts.len() - at,
        {
            let mut said = false;
            let mut earlier: usize = 0;
            while earlier < at
                invariant
                    earlier <= at < self.concepts.len(),
                    all == self@.concepts,
                    lowered@.len() == all.len(),
                    forall|j: int|
                        0 <= j < lowered@.len() ==> (#[trigger] lowered@[j])@ == lowercase_spec(
                            all[j].text,
                        ),
                    said == said_before_spec(all, at as int, earlier as int),
                decreases at - earlier,
            {
                if crate::text::same_chars(lowered[earlier].as_slice(), lowered[at].as_slice()) {
                    said = true;
                }
                earlier = earlier + 1;
            }
            if !said {
                let group = self.group(&lowered, at);
                let ghost before = concept_views(merged@);
                merged.push(group);
                proof {
                    assert(concept_views(merged@) =~= before.push(group@));
                }
            }
            at = at + 1;
        }
        let before = self.concepts.len();
        proof {
            self.lemma_wf();
            lemma_merged(all, all.len());
        }
        let ghost wanted = merged_spec(all, all.len());
        let ghost graph = self@.graph;
        self.concepts = Vec::new();
        self.category_index = CategoryIndex::new();
        proof {
            assert(self@.concepts =~= Seq::<ConceptView>::empty());
            assert(self@.concepts =~= taken_in_all_spec(wanted, 0));
        }
        let ghost mut taken: nat = 0;
        assert(wanted.skip(0) =~= wanted);
        while merged.len() > 0
            invariant
                self.wf(),
                self@.graph == graph,
                taken <= wanted.len(),
                wanted.len() <= before,
                concept_views(merged@) == wanted.skip(taken as int),
                forall|k: int| 0 <= k < wanted.len() ==> (#[trigger] wanted[k]).wf(),
                self@.concepts == taken_in_all_spec(wanted, taken),
            decreases merged.len(),
        {
            let ghost rest = concept_views(merged@);
            let concept = merged.remove(0);
            proof {
                assert(rest.len() == wanted.skip(taken as int).len());
                assert(rest[0] == wanted.skip(taken as int)[0]);
                assert(concept@ == wanted[taken as int]);
                assert(concept_views(merged@) =~= rest.drop_first());
                assert(wanted.skip(taken as int).drop_first() =~= wanted.skip((taken + 1) as int));
            }
            self.take_in(concept);
            proof {
                taken = taken + 1;
            }
        }
        proof {
            assert(wanted.skip(taken as int).len() == 0);
            lemma_taken_in_distinct(wanted, wanted.len());
            assert(wanted.take(wanted.len() as int) =~= wanted);
        }
        before - self.concepts.len()
    }
}

/// What an extractor hands over for one concept: the text, the name of the
/// category as the extractor puts it, and the confidence in millionths.
#[derive(Debug, Clone)]
pub struct ExtractedConcept {
    pub text: String,
    pub category: String,
    pub confidence: i64,
}

/// An extractor of concepts from an exchange: for what the user said and
/// what the assistant answered in a session, the concepts found, or a
/// message that says why there are none.
pub trait ConceptExtractor {
    fn extract(&mut self, user_query: &str, assistant_response: &str, session_id: &str) -> Result<
        Vec<ExtractedConcept>,
        String,
    >;
}

/// An extracted concept as it is handed on to the store.
#[derive(Debug, Clone)]
pub struct AcceptedConcept {
    pub text: String,
    pub category: ConceptCategory,
    pub confidence: i64,
}

/// The mathematical value of an `ExtractedConcept`.
pub struct ExtractedConceptView {
    pub text: Seq<char>,
    pub category: Seq<char>,
    pub confidence: i64,
}

/// The mathematical value of an `AcceptedConcept`.
pub struct AcceptedConceptView {
    pub text: Seq<char>,
    pub category: ConceptCategory,
    pub confidence: i64,
}

impl View for ExtractedConcept {
    type V = ExtractedConceptView;

    open spec fn view(&self) -> ExtractedConceptView {
        ExtractedConceptView {
            text: self.text@,
            category: self.category@,
            confidence: self.confidence,
        }
    }
}

impl View for AcceptedConcept {
    type V = AcceptedConceptView;

    open spec fn view(&self) -> AcceptedConceptView {
        AcceptedConceptView {
            text: self.text@,
            category: self.category,
            confidence: self.confidence,
        }
    }
}

/// The values of a list of extracted concepts.
pub open spec fn extracted_views(results: Seq<ExtractedConcept>) -> Seq<ExtractedConceptView> {
    Seq::new(results.len(), |i: int| results[i]@)
}

/// The values of a list of accepted concepts.
pub open spec fn accepted_views(results: Seq<AcceptedConcept>) -> Seq<AcceptedConceptView> {
    Seq::new(results.len(), |i: int| results[i]@)
}

/// What is handed on of what an extractor found: every concept whose text
/// is not blank, with its text trimmed; a category that is not known counts
/// as general.
pub open spec fn accepted_spec(results: Seq<ExtractedConceptView>) -> Seq<AcceptedConceptView>
    decreases results.len(),
{
    if results.len() == 0 {
        Seq::empty()
    } else {
        let earlier = accepted_spec(results.drop_last());
        let last = results.last();
        if trim_spec(last.text).len() == 0 {
            earlier
        } else {
            earlier.push(
                AcceptedConceptView {
                    text: trim_spec(last.text),
                    category: match ConceptCategory::of_name_spec(lowercase_spec(last.category)) {
                        Some(category) => category,
                        None => ConceptCategory::General,
                    },
                    confidence: last.confidence,
                },
            )
        }
    }
}

/// Sorts out what an extractor found.
pub fn accept_extraction(results: &Vec<ExtractedConcept>) -> (accepted: Vec<AcceptedConcept>)
    ensures
        accepted_views(accepted@) == accepted_spec(extracted_views(results@)),
{
    let ghost views = extracted_views(results@);
    let mut accepted: Vec<AcceptedConcept> = Vec::new();
    let mut i: usize = 0;
    assert(accepted_views(accepted@) =~= accepted_spec(views.take(0)));
    while i < results.len()
        invariant
            i <= results.len(),
            views == extracted_views(results@),
            accepted_views(accepted@) == accepted_spec(views.take(i as int)),
        decreases results.len() - i,
    {
        proof {
            assert(views.take(i + 1).drop_last() =~= views.take(i as int));
            assert(views.take(i + 1).last() == results@[i as int]@);
        }
        let trimmed = trim(chars_of(results[i].text.as_str()).as_slice());
        if trimmed.len() > 0 {
            let category = match ConceptCategory::parse(results[i].category.as_str()) {
                Some(category) => category,
                None => ConceptCategory::General,
            };
            let ghost before = accepted_views(accepted@);
            let concept = AcceptedConcept {
                text: string_of(trimmed.as_slice()),
                category,
                confidence: results[i].confidence,
            };
            accepted.push(concept);
            proof {
                assert(accepted_views(accepted@) =~= before.push(concept@));
            }
        }
        i = i + 1;
    }
    proof {
        assert(views.take(i as int) =~= views);
    }
    accepted
}

impl SemanticMemoryManager {
    /// The concepts whose wording is more similar to `text` than `threshold`,
    /// whatever the case.
    pub fn find_similar_text(&self, text: &str, threshold: i64) -> (found: Vec<&Concept>)
        ensures
            borrowed_concepts(found@) == self@.concepts.filter(
                |concept: ConceptView|
                    crate::semantic::wording::text_similarity_spec(
                        lowercase_spec(text@),
                        lowercase_spec(concept.text),
                    ) > threshold,
            ),
    {
        let ghost all = self@.concepts;
        let ghost wanted = |concept: ConceptView|
            crate::semantic::wording::text_similarity_spec(
                lowercase_spec(text@),
                lowercase_spec(concept.text),
            ) > threshold;
        let target = lowercase(chars_of(text).as_slice());
        let mut found: Vec<&Concept> = Vec::new();
        let mut i: usize = 0;
        proof {
            reveal(Seq::filter);
            assert(borrowed_concepts(found@) =~= all.take(0).filter(wanted));
        }
        while i < self.concepts.len()
            invariant
                i <= self.concepts.len(),
                all == self@.concepts,
                target@ == lowercase_spec(text@),
                wanted == (|concept: ConceptView|
                    crate::semantic::wording::text_similarity_spec(
                        lowercase_spec(text@),
                        lowercase_spec(concept.text),
                    ) > threshold),
                borrowed_concepts(found@) == all.take(i as int).filter(wanted),
            decreases self.concepts.len() - i,
        {
            proof {
                reveal(Seq::filter);
                assert(all.take(i + 1).drop_last() =~= all.take(i as int));
                assert(all.take(i + 1).last() == self.concepts@[i as int]@);
            }
            let other = lowercase(chars_of(self.concepts[i].text.as_str()).as_slice());
            if crate::semantic::wording::text_similarity(target.as_slice(), other.as_slice())
                > threshold {
                let ghost before = borrowed_concepts(found@);
                found.push(&self.concepts[i]);
                proof {
                    assert(borrowed_concepts(found@) =~= before.push(self.concepts@[i as int]@));
                }
            }
            i = i + 1;
        }
        proof {
            assert(all.take(i as int) =~= all);
        }
        found
    }
}

/// By how much a vote moves the confidence in a concept: a tenth.
pub const VOTE_STEP: i64 = 100_000;

/// The list without the concept `id`.
pub open spec fn without_concept_spec(concepts: Seq<ConceptView>, id: u128) -> Seq<ConceptView> {
    match concept_position_spec(concepts, id) {
        Some(at) => concepts.remove(at),
        None => concepts,
    }
}

/// The list with the confidence in the concept `id` moved by `delta`, as of `now`.
pub open spec fn voted_spec(concepts: Seq<ConceptView>, id: u128, delta: i64, now: i64) -> Seq<
    ConceptView,
> {
    match concept_position_spec(concepts, id) {
        Some(at) => concepts.update(
            at,
            ConceptView {
                confidence: clamp_unit_spec(concepts[at].confidence + delta) as i64,
                updated_at: now,
                ..concepts[at]
            },
        ),
        None => concepts,
    }
}

/// The part of a list that a listing shows: `limit` concepts from `offset` on.
pub open spec fn listed_part_spec(concepts: Seq<ConceptView>, limit: nat, offset: nat) -> Seq<
    ConceptView,
> {
    if offset >= concepts.len() {
        Seq::empty()
    } else if offset + limit >= concepts.len() {
        concepts.skip(offset as int)
    } else {
        concepts.subrange(offset as int, (offset + limit) as int)
    }
}

impl SemanticMemoryManager {
    /// Removes the concept `id` and says whether there was one. Relations
    /// that mention the concept stay as they are.
    pub fn remove_concept(&mut self, id: u128) -> (removed: bool)
        requires
            old(self).wf(),
        ensures
            final(self).wf(),
            removed == (concept_position_spec(old(self)@.concepts, id) is Some),
            final(self)@ == (SemanticMemoryView {
                concepts: without_concept_spec(old(self)@.concepts, id),
                ..old(self)@
            }),
    {
        match self.position(id) {
            Some(at) => {
                self.remove_at(at);
                true
            },
            None => false,
        }
    }

    /// Moves the confidence in the concept `id` by `delta` at the instant
    /// `now`, holding it within nothing and one, and says whether there is
    /// such a concept.
    pub fn update_concept_confidence_at(&mut self, id: u128, delta: i64, now: i64) -> (found: bool)
        requires
            old(self).wf(),
        ensures
            final(self).wf(),
            found == (concept_position_spec(old(self)@.concepts, id) is Some),
            final(self)@ == (SemanticMemoryView {
                concepts: voted_spec(old(self)@.concepts, id, delta, now),
                ..old(self)@
            }),
    {
        match self.position(id) {
            Some(at) => {
                proof {
                    assert(self@.concepts[at as int] == self.concepts@[at as int]@);
                    assert(self@.concepts[at as int].wf());
                }
                let moved: i128 = self.concepts[at].confidence as i128 + delta as i128;
                let confidence: i64 = if moved < 0 {
                    0
                } else if moved > UNIT as i128 {
                    UNIT
                } else {
                    moved as i64
                };
                self.raise_confidence(at, confidence, now);
                true
            },
            None => false,
        }
    }

    /// Moves the confidence in the concept `id` by `delta`, now.
    pub fn update_concept_confidence(&mut self, id: u128, delta: i64) -> (found: bool)
        requires
            old(self).wf(),
        ensures
            final(self).wf(),
            found == (concept_position_spec(old(self)@.concepts, id) is Some),
            exists|now: i64|
                final(self)@ == (SemanticMemoryView {
                    concepts: #[trigger] voted_spec(old(self)@.concepts, id, delta, now),
                    ..old(self)@
                }),
    {
        let instant = now();
        self.update_concept_confidence_at(id, delta, instant)
    }

    /// Up to `limit` concepts from the `offset`-th on, in the order in which
    /// they were added.
    pub fn list_concepts(&self, limit: usize, offset: usize) -> (listed: Vec<&Concept>)
        ensures
            borrowed_concepts(listed@) == listed_part_spec(
                self@.concepts,
                limit as nat,
                offset as nat,
            ),
    {
        let mut listed: Vec<&Concept> = Vec::new();
        let total = self.concepts.len();
        if offset >= total {
            assert(borrowed_concepts(listed@) =~= Seq::<ConceptView>::empty());
            return listed;
        }
        let end = if limit >= total - offset {
            total
        } else {
            offset + limit
        };
        let mut i: usize = offset;
        while i < end
            invariant
                offset <= i <= end <= self.concepts.len(),
                borrowed_concepts(listed@) == self@.concepts.subrange(offset as int, i as int),
            decreases end - i,
        {
            let ghost before = borrowed_concepts(listed@);
            listed.push(&self.concepts[i]);
            proof {
                assert(borrowed_concepts(listed@) =~= before.push(self.concepts@[i as int]@));
                assert(self@.concepts.subrange(offset as int, i + 1) =~= self@.concepts.subrange(
                    offset as int,
                    i as int,
                ).push(self@.concepts[i as int]));
            }
            i = i + 1;
        }
        proof {
            assert(self@.concepts.skip(offset as int) =~= self@.concepts.subrange(
                offset as int,
                total as int,
            ));
        }
        listed
    }

    /// Up to `limit` concepts of one category, in the order in which they
    /// were added.
    pub fn list_by_category(&self, category: &ConceptCategory, limit: usize) -> (listed: Vec<
        &Concept,
    >)
        requires
            self.wf(),
        ensures
            listed@.len() == if limit < ids_of_category_spec(self@.concepts, *category).len() {
                limit as nat
            } else {
                ids_of_category_spec(self@.concepts, *category).len()
            },
            forall|i: int|
                0 <= i < listed@.len() ==> (#[trigger] listed@[i])@.id == ids_of_category_spec(
                    self@.concepts,
                    *category,
                )[i] && listed@[i]@.category == *category && concept_position_spec(
                    self@.concepts,
                    listed@[i]@.id,
                ) is Some && listed@[i]@ == self@.concepts[concept_position_spec(
                    self@.concepts,
                    listed@[i]@.id,
                )->0],
    {
        let mut listed = self.get_concepts_by_category(category);
        if limit < listed.len() {
            let ghost all = listed@;
            listed.truncate(limit);
            proof {
                assert forall|i: int| 0 <= i < listed@.len() implies listed@[i] == all[i] by {}
            }
        }
        listed
    }
}

impl SemanticMemoryManager {
    /// Puts the given relations in the place of the graph, as when a graph
    /// that was written out is read back. The ends of the relations are
    /// taken as they are, known or not.
    pub fn load_graph(&mut self, triples: Vec<crate::semantic::graph::Triple>)
        requires
            old(self).wf(),
            forall|i: int| 0 <= i < triples@.len() ==> (#[trigger] triples@[i]).wf(),
        ensures
            final(self).wf(),
            final(self)@ == (SemanticMemoryView {
                graph: crate::semantic::graph::triple_views(triples@),
                ..old(self)@
            }),
    {
        self.knowledge_graph = KnowledgeGraph::from_triples(triples);
        proof {
            self.knowledge_graph.lemma_confidences();
        }
    }
}

/// `found` are the concepts that a search for the embedding `query` finds.
pub open spec fn search_found(
    found: Seq<(i64, &Concept)>,
    concepts: Seq<ConceptView>,
    query: Seq<u32>,
    top_k: nat,
    category: Option<ConceptCategory>,
) -> bool {
    found_are(found, concepts, query, concept_search_spec(concepts, query, top_k, category))
}

/// The manager after one relation found in free text has been linked: each
/// end is found or created, given an embedding, an identifier and an instant
/// for it, and the relation between them is added at the instant `now` with
/// the confidence of extracted relations.
pub open spec fn linked_spec(
    manager: SemanticMemoryView,
    candidate: crate::semantic::relations::RelationCandidateView,
    source: Seq<char>,
    subject_embedding: Seq<u32>,
    subject_id: u128,
    subject_now: i64,
    object_embedding: Seq<u32>,
    object_id: u128,
    object_now: i64,
    now: i64,
) -> SemanticMemoryView {
    let first = found_or_created_spec(
        manager.concepts,
        candidate.subject,
        source,
        subject_embedding,
        subject_id,
        subject_now,
    );
    let second = found_or_created_spec(
        first.0,
        candidate.object,
        source,
        object_embedding,
        object_id,
        object_now,
    );
    after_relation_spec(
        SemanticMemoryView { concepts: second.0, graph: manager.graph },
        first.1,
        candidate.predicate,
        second.1,
        Some(crate::semantic::relations::EXTRACTED_CONFIDENCE),
        now,
    )
}

/// Whether `after` is `before` with the relation `candidate` linked, for some
/// embeddings, identifiers and instants.
pub open spec fn one_linked(
    before: SemanticMemoryView,
    candidate: crate::semantic::relations::RelationCandidateView,
    source: Seq<char>,
    after: SemanticMemoryView,
) -> bool {
    exists|
        subject_embedding: Seq<u32>,
        subject_id: u128,
        subject_now: i64,
        object_embedding: Seq<u32>,
        object_id: u128,
        object_now: i64,
        now: i64,
    |
        after == #[trigger] linked_spec(
            before,
            candidate,
            source,
            subject_embedding,
            subject_id,
            subject_now,
            object_embedding,
            object_id,
            object_now,
            now,
        )
}

/// Whether `after` is what linking the relations `candidates`, one after
/// another and in order, makes of `before`.
pub open spec fn relations_linked(
    before: SemanticMemoryView,
    candidates: Seq<crate::semantic::relations::RelationCandidateView>,
    source: Seq<char>,
    after: SemanticMemoryView,
) -> bool
    decreases candidates.len(),
{
    if candidates.len() == 0 {
        after == before
    } else {
        exists|mid: SemanticMemoryView|
            #![trigger one_linked(mid, candidates.last(), source, after)]
            relations_linked(before, candidates.drop_last(), source, mid) && one_linked(
                mid,
                candidates.last(),
                source,
                after,
            )
    }
}

/// Whether `after` is the list `before` once the extracted concept `item`
/// has been dealt with: added, for some embedding, identifier and instant,
/// where it counts; passed over, the list unchanged, where it does not.
pub open spec fn one_taken(
    before: Seq<ConceptView>,
    item: AcceptedConceptView,
    source: Seq<char>,
    after: Seq<ConceptView>,
    counted: bool,
) -> bool {
    if counted {
        exists|embedding: Seq<u32>, id: u128, now: i64|
            after == (#[trigger] addition_spec(
                before,
                item.text,
                item.category,
                source,
                Some(item.confidence),
                embedding,
                id,
                now,
            )).concepts
    } else {
        after == before
    }
}

/// Whether `after` is what dealing with the extracted concepts `items`, one
/// after another and in order, makes of the list `before`, `taken` of them
/// counting.
pub open spec fn concepts_taken(
    before: Seq<ConceptView>,
    items: Seq<AcceptedConceptView>,
    source: Seq<char>,
    after: Seq<ConceptView>,
    taken: nat,
) -> bool
    decreases items.len(),
{
    if items.len() == 0 {
        after == before && taken == 0
    } else {
        exists|mid: Seq<ConceptView>, counted: bool|
            #![trigger one_taken(mid, items.last(), source, after, counted)]
            one_taken(mid, items.last(), source, after, counted) && if counted {
                taken >= 1 && concepts_taken(
                    before,
                    items.drop_last(),
                    source,
                    mid,
                    (taken - 1) as nat,
                )
            } else {
                concepts_taken(before, items.drop_last(), source, mid, taken)
            }
    }
}

/// Whether `after` is what an exchange makes of the manager `before`, given
/// what the extractor `found` in it: first the concepts found are dealt
/// with, which leads to the list `mid` with `taken` of them counting; then
/// the relations that the surface patterns see in `text` are linked.
pub open spec fn extraction_done(
    before: SemanticMemoryView,
    found: Seq<ExtractedConceptView>,
    text: Seq<char>,
    source: Seq<char>,
    mid: Seq<ConceptView>,
    after: SemanticMemoryView,
    taken: nat,
) -> bool {
    concepts_taken(before.concepts, accepted_spec(found), source, mid, taken) && relations_linked(
        SemanticMemoryView { concepts: mid, graph: before.graph },
        crate::semantic::relations::relation_candidates_spec(text),
        source,
        after,
    )
}

/// The text in which the relations of an exchange are looked for: what the
/// user said, a space, and what the assistant answered.
pub open spec fn exchange_text_spec(user_query: Seq<char>, assistant_response: Seq<char>) -> Seq<
    char,
> {
    user_query + " "@ + assistant_response
}

impl SemanticMemoryManager {
    /// Adds a concept with a fresh identifier, now. The text is embedded in
    /// the form in which it is stored; where the embedder gives no
    /// embedding, nothing is added.
    pub fn add_concept<E: crate::embedder::Embedder>(
        &mut self,
        embedder: &E,
        text: String,
        category: ConceptCategory,
        source: String,
        confidence: Option<i64>,
    ) -> (outcome: Result<Concept, crate::embedder::MemoryFailure>)
        requires
            old(self).wf(),
        ensures
            final(self).wf(),
            final(self)@.graph == old(self)@.graph,
            outcome is Err ==> final(self)@ == old(self)@ && outcome->Err_0 is Embedder,
            outcome is Ok ==> outcome->Ok_0.wf() && exists|
                embedding: Seq<u32>,
                id: u128,
                now: i64,
            |
                {
                    let addition = #[trigger] addition_spec(
                        old(self)@.concepts,
                        text@,
                        category,
                        source@,
                        confidence,
                        embedding,
                        id,
                        now,
                    );
                    final(self)@.concepts == addition.concepts && outcome->Ok_0@
                        == addition.returned
                },
    {
        let cleaned = string_of(clean_text(text.as_str()).as_slice());
        match embedder.embed(cleaned.as_str()) {
            Ok(embedding) => {
                let id = new_id();
                let instant = now();
                let concept = self.add_concept_at(
                    text,
                    category,
                    source,
                    confidence,
                    embedding,
                    id,
                    instant,
                );
                Ok(concept)
            },
            Err(message) => Err(crate::embedder::MemoryFailure::Embedder { message }),
        }
    }

    /// The `top_k` concepts most similar to a query, of all concepts or of
    /// one category. The query is embedded first; where the embedder gives
    /// no embedding, nothing is found.
    pub fn search<E: crate::embedder::Embedder>(
        &self,
        embedder: &E,
        query: &str,
        top_k: usize,
        category: Option<ConceptCategory>,
    ) -> (found: Vec<(i64, &Concept)>)
        ensures
            found@.len() == 0 || exists|embedding: Seq<u32>|
                #[trigger] search_found(found@, self@.concepts, embedding, top_k as nat, category),
    {
        match embedder.embed(query) {
            Ok(embedding) => {
                let found = self.search_embedded(embedding.as_slice(), top_k, category);
                proof {
                    assert(search_found(
                        found@,
                        self@.concepts,
                        embedding@,
                        top_k as nat,
                        category,
                    ));
                }
                found
            },
            Err(_) => Vec::new(),
        }
    }

    /// The `top_k` concepts most similar to a query, of all concepts.
    pub fn search_by_text<E: crate::embedder::Embedder>(&self, embedder: &E, query: &str, top_k: usize) -> (found:
        Vec<(i64, &Concept)>)
        ensures
            found@.len() == 0 || exists|embedding: Seq<u32>|
                #[trigger] search_found(found@, self@.concepts, embedding, top_k as nat, None),
    {
        self.search(embedder, query, top_k, None)
    }

    /// The `top_k` concepts of one category most similar to a query.
    pub fn search_by_category<E: crate::embedder::Embedder>(
        &self,
        embedder: &E,
        query: &str,
        category: ConceptCategory,
        top_k: usize,
    ) -> (found: Vec<(i64, &Concept)>)
        ensures
            found@.len() == 0 || exists|embedding: Seq<u32>|
                #[trigger] search_found(
                    found@,
                    self@.concepts,
                    embedding,
                    top_k as nat,
                    Some(category),
                ),
    {
        self.search(embedder, query, top_k, Some(category))
    }

    /// The identifier of the first concept with the lower-case text `text`
    /// and the source `source`.
    pub fn known_concept(&self, text: &str, source: &str) -> (found: Option<u128>)
        ensures
            match found {
                Some(id) => known_spec(self@.concepts, text@, source@) is Some && id
                    == self@.concepts[known_spec(self@.concepts, text@, source@)->0].id,
                None => known_spec(self@.concepts, text@, source@) is None,
            },
    {
        let ghost all = self@.concepts;
        let wanted = chars_of(text);
        let mut i: usize = 0;
        while i < self.concepts.len()
            invariant
                i <= self.concepts.len(),
                all == self@.concepts,
                wanted@ == text@,
                known_spec(all.take(i as int), text@, source@) is None,
            decreases self.concepts.len() - i,
        {
            proof {
                assert(all.take(i + 1).drop_last() =~= all.take(i as int));
                assert(all.take(i + 1).last() == self.concepts@[i as int]@);
                assert(all[i as int] == self.concepts@[i as int]@);
            }
            let lower = lowercase(chars_of(self.concepts[i].text.as_str()).as_slice());
            if crate::text::same_chars(lower.as_slice(), wanted.as_slice()) && crate::text::same_text(
                self.concepts[i].source.as_str(),
                source,
            ) {
                proof {
                    lemma_known_stays(all, text@, source@, i + 1);
                }
                return Some(self.concepts[i].id);
            }
            i = i + 1;
        }
        proof {
            assert(all.take(i as int) =~= all);
        }
        None
    }

    /// The identifier of the first concept with the lower-case text `text`
    /// and the source `source`; where there is none, the text is embedded
    /// and a general concept with it is created now.
    pub fn find_or_create_concept<E: crate::embedder::Embedder>(
        &mut self,
        embedder: &E,
        text: &str,
        source: &str,
    ) -> (outcome: Result<u128, crate::embedder::MemoryFailure>)
        requires
            old(self).wf(),
        ensures
            final(self).wf(),
            final(self)@.graph == old(self)@.graph,
            outcome is Err ==> final(self)@ == old(self)@ && outcome->Err_0 is Embedder
                && known_spec(old(self)@.concepts, text@, source@) is None,
            outcome is Ok ==> concept_position_spec(final(self)@.concepts, outcome->Ok_0) is Some
                && exists|embedding: Seq<u32>, id: u128, now: i64|
                (final(self)@.concepts, outcome->Ok_0) == #[trigger] found_or_created_spec(
                    old(self)@.concepts,
                    text@,
                    source@,
                    embedding,
                    id,
                    now,
                ),
    {
        match self.known_concept(text, source) {
            Some(id) => {
                proof {
                    let at = known_spec(self@.concepts, text@, source@)->0;
                    lemma_known_in_range(self@.concepts, text@, source@);
                    lemma_position_of_member(self@.concepts, at);
                    assert((self@.concepts, id) == found_or_created_spec(
                        self@.concepts,
                        text@,
                        source@,
                        Seq::<u32>::empty(),
                        0,
                        0,
                    ));
                }
                Ok(id)
            },
            None => match embedder.embed(text) {
                Ok(embedding) => {
                    let id = new_id();
                    let instant = now();
                    Ok(self.find_or_create_concept_at(text, source, embedding, id, instant))
                },
                Err(message) => Err(crate::embedder::MemoryFailure::Embedder { message }),
            },
        }
    }

    /// Finds the relations that the surface patterns see in a text, links
    /// their ends to known or new concepts from the source, and says how
    /// many relations were added. Stops at the first text that the embedder
    /// gives no embedding for; what was added before stays.
    pub fn extract_relations_from_text<E: crate::embedder::Embedder>(
        &mut self,
        embedder: &E,
        text: &str,
        source_session: &str,
    ) -> (outcome: Result<usize, crate::embedder::MemoryFailure>)
        requires
            old(self).wf(),
        ensures
            final(self).wf(),
            outcome is Ok ==> outcome->Ok_0 == crate::semantic::relations::relation_candidates_spec(
                text@,
            ).len() && final(self)@.graph.len() == old(self)@.graph.len() + outcome->Ok_0,
            outcome is Ok ==> relations_linked(
                old(self)@,
                crate::semantic::relations::relation_candidates_spec(text@),
                source_session@,
                final(self)@,
            ),
            outcome is Err ==> outcome->Err_0 is Embedder && final(self)@.graph.len() <= old(self)@.graph.len() + crate::semantic::relations::relation_candidates_spec(text@).len(),
            final(self)@.graph.len() >= old(self)@.graph.len(),
            final(self)@.graph.take(old(self)@.graph.len() as int) == old(self)@.graph,
    {
        let candidates = crate::semantic::relations::relation_candidates(text);
        let ghost start = self@.graph;
        let ghost wanted = crate::semantic::relations::relation_candidates_spec(text@);
        let mut added: usize = 0;
        let mut i: usize = 0;
        assert(self@.graph.take(start.len() as int) =~= start);
        while i < candidates.len()
            invariant
                i <= candidates.len(),
                self.wf(),
                added == i,
                start == old(self)@.graph,
                wanted == crate::semantic::relations::relation_candidates_spec(text@),
                wanted == crate::semantic::relations::candidate_views(candidates@),
                self@.graph.len() == start.len() + added,
                self@.graph.take(start.len() as int) == start,
                relations_linked(old(self)@, wanted.take(i as int), source_session@, self@),
            decreases candidates.len() - i,
        {
            let candidate = &candidates[i];
            let ghost reached = self@;
            let subject = match self.find_or_create_concept(
                embedder,
                candidate.subject.as_str(),
                source_session,
            ) {
                Ok(id) => id,
                Err(failure) => {
                    return Err(failure);
                },
            };
            let ghost between = self@.concepts;
            let object = match self.find_or_create_concept(
                embedder,
                candidate.object.as_str(),
                source_session,
            ) {
                Ok(id) => id,
                Err(failure) => {
                    return Err(failure);
                },
            };
            let ghost (subject_embedding, subject_id, subject_now) = choose|
                embedding: Seq<u32>,
                id: u128,
                now: i64,
            |
                (between, subject) == #[trigger] found_or_created_spec(
                    reached.concepts,
                    candidate@.subject,
                    source_session@,
                    embedding,
                    id,
                    now,
                );
            let ghost (object_embedding, object_id, object_now) = choose|
                embedding: Seq<u32>,
                id: u128,
                now: i64,
            |
                (self@.concepts, object) == #[trigger] found_or_created_spec(
                    between,
                    candidate@.object,
                    source_session@,
                    embedding,
                    id,
                    now,
                );
            proof {
                lemma_position_survives(
                    between,
                    candidate@.object,
                    source_session@,
                    object_embedding,
                    object_id,
                    object_now,
                    subject,
                );
            }
            let ghost before = self@.graph;
            let instant = now();
            let _ = self.add_relation_at(
                &subject,
                candidate.predicate.as_str(),
                &object,
                Some(crate::semantic::relations::EXTRACTED_CONFIDENCE),
                instant,
            );
            proof {
                assert(self@.graph.len() == before.len() + 1);
                assert(self@.graph.take(start.len() as int) =~= before.take(start.len() as int));
                assert(wanted.take(i + 1).drop_last() =~= wanted.take(i as int));
                assert(wanted.take(i + 1).last() == candidate@);
                assert(self@ == linked_spec(
                    reached,
                    candidate@,
                    source_session@,
                    subject_embedding,
                    subject_id,
                    subject_now,
                    object_embedding,
                    object_id,
                    object_now,
                    instant,
                ));
                assert(one_linked(reached, candidate@, source_session@, self@));
                assert(relations_linked(
                    old(self)@,
                    wanted.take(i + 1).drop_last(),
                    source_session@,
                    reached,
                ));
                assert(relations_linked(old(self)@, wanted.take(i + 1), source_session@, self@));
            }
            added = added + 1;
            i = i + 1;
        }
        proof {
            assert(wanted.take(i as int) =~= wanted);
        }
        Ok(added)
    }

    /// Takes in what an extractor finds in an exchange: the concepts, each
    /// embedded and added, and the relations that the surface patterns see
    /// in the exchange. Says how many concepts were added or met again.
    /// A concept that the embedder gives no embedding for is passed over.
    pub fn extract_from_dialogue<X: ConceptExtractor, E: crate::embedder::Embedder>(
        &mut self,
        extractor: &mut X,
        embedder: &E,
        user_query: &str,
        assistant_response: &str,
        session_id: &str,
    ) -> (outcome: Result<usize, crate::embedder::MemoryFailure>)
        requires
            old(self).wf(),
        ensures
            final(self).wf(),
            final(self)@.graph.len() >= old(self)@.graph.len(),
            final(self)@.graph.take(old(self)@.graph.len() as int) == old(self)@.graph,
            outcome is Err ==> outcome->Err_0 is Extractor || outcome->Err_0 is Embedder,
            outcome is Err && outcome->Err_0 is Extractor ==> final(self)@ == old(self)@,
            outcome is Ok ==> final(self)@.graph.len() == old(self)@.graph.len()
                + crate::semantic::relations::relation_candidates_spec(
                exchange_text_spec(user_query@, assistant_response@),
            ).len(),
            outcome is Ok ==> exists|found: Seq<ExtractedConceptView>, mid: Seq<ConceptView>|
                #[trigger] extraction_done(
                    old(self)@,
                    found,
                    exchange_text_spec(user_query@, assistant_response@),
                    session_id@,
                    mid,
                    final(self)@,
                    outcome->Ok_0 as nat,
                ),
    {
        let found = match extractor.extract(user_query, assistant_response, session_id) {
            Ok(found) => found,
            Err(message) => {
                return Err(crate::embedder::MemoryFailure::Extractor { message });
            },
        };
        let accepted = accept_extraction(&found);
        let ghost items = accepted_views(accepted@);
        let mut taken: usize = 0;
        let mut i: usize = 0;
        while i < accepted.len()
            invariant
                i <= accepted.len(),
                taken <= i,
                self.wf(),
                self@.graph == old(self)@.graph,
                items == accepted_views(accepted@),
                concepts_taken(
                    old(self)@.concepts,
                    items.take(i as int),
                    session_id@,
                    self@.concepts,
                    taken as nat,
                ),
            decreases accepted.len() - i,
        {
            let ghost reached = self@.concepts;
            let ghost item = accepted[i as int]@;
            proof {
                assert(items.take(i + 1).drop_last() =~= items.take(i as int));
                assert(items.take(i + 1).last() == item);
            }
            match self.add_concept(
                embedder,
                crate::text::owned(accepted[i].text.as_str()),
                accepted[i].category,
                crate::text::owned(session_id),
                Some(accepted[i].confidence),
            ) {
                Ok(_) => {
                    proof {
                        assert(one_taken(reached, item, session_id@, self@.concepts, true));
                        assert(concepts_taken(
                            old(self)@.concepts,
                            items.take(i + 1),
                            session_id@,
                            self@.concepts,
                            (taken + 1) as nat,
                        ));
                    }
                    taken = taken + 1;
                },
                Err(_) => {
                    proof {
                        assert(one_taken(reached, item, session_id@, self@.concepts, false));
                        assert(concepts_taken(
                            old(self)@.concepts,
                            items.take(i + 1),
                            session_id@,
                            self@.concepts,
                            taken as nat,
                        ));
                    }
                },
            }
            i = i + 1;
        }
        proof {
            assert(items.take(i as int) =~= items);
        }
        let ghost mid = self@.concepts;
        let mut dialogue: Vec<char> = Vec::new();
        crate::text::append_str(&mut dialogue, user_query);
        crate::text::append_str(&mut dialogue, " ");
        crate::text::append_str(&mut dialogue, assistant_response);
        let text = string_of(dialogue.as_slice());
        proof {
            assert(text@ =~= exchange_text_spec(user_query@, assistant_response@));
            assert(self@ == (SemanticMemoryView { concepts: mid, graph: old(self)@.graph }));
        }
        match self.extract_relations_from_text(embedder, text.as_str(), session_id) {
            Ok(_) => {
                let outcome: Result<usize, crate::embedder::MemoryFailure> = Ok(taken);
                proof {
                    assert(extraction_done(
                        old(self)@,
                        extracted_views(found@),
                        exchange_text_spec(user_query@, assistant_response@),
                        session_id@,
                        mid,
                        self@,
                        outcome->Ok_0 as nat,
                    ));
                }
                outcome
            },
            Err(failure) => Err(failure),
        }
    }
}

/// Where a concept is known, it is one of the list.
proof fn lemma_known_in_range(concepts: Seq<ConceptView>, text: Seq<char>, source: Seq<char>)
    ensures
        known_spec(concepts, text, source) is Some ==> 0 <= known_spec(concepts, text, source)->0
            < concepts.len(),
    decreases concepts.len(),
{
    if concepts.len() > 0 {
        lemma_known_in_range(concepts.drop_last(), text, source);
    }
}

} // verus!
