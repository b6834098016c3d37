//! The knowledge graph: typed, directed relations between concepts.

use vstd::prelude::*;
use vstd::hash_map::StringHashMap;
use std::collections::HashMap;
use crate::clock::now;
use crate::fixed::clamp_unit;
use crate::fixed::clamp_unit_spec;
use crate::fixed::days_between;
use crate::fixed::days_between_spec;
use crate::fixed::decay;
use crate::fixed::decay_spec;
use crate::fixed::lemma_decay_bounds;
use crate::fixed::UNIT;
use crate::metadata::Metadata;
use crate::text::same_text;

verus! {

broadcast use vstd::std_specs::hash::group_hash_axioms;

/// The confidence given to a relation when none is stated: one half.
pub const DEFAULT_RELATION_CONFIDENCE: i64 = 500_000;

/// Days after which the confidence in a relation has halved.
pub const HALF_LIFE_DAYS: u64 = 90;

/// One half, in millionths.
pub const HALF: i64 = 500_000;

/// The factor by which the confidence in a relation fades per day: the
/// ninetieth root of one half, in millionths.
pub const DAILY_FADE: i64 = 992_328;

/// A relation: subject, predicate, object.
#[derive(Debug, Clone)]
pub struct Triple {
    pub subject: u128,
    pub predicate: String,
    pub object: u128,
    /// How sure the relation is, in millionths.
    pub confidence: i64,
    pub created_at: i64,
    pub updated_at: i64,
    pub metadata: Metadata,
}

/// The mathematical value of a `Triple`.
pub struct TripleView {
    pub subject: u128,
    pub predicate: Seq<char>,
    pub object: u128,
    pub confidence: i64,
    pub created_at: i64,
    pub updated_at: i64,
    pub metadata: Seq<(Seq<char>, Seq<char>)>,
}

impl View for Triple {
    type V = TripleView;

    open spec fn view(&self) -> TripleView {
        TripleView {
            subject: self.subject,
            predicate: self.predicate@,
            object: self.object,
            confidence: self.confidence,
            created_at: self.created_at,
            updated_at: self.updated_at,
            metadata: self.metadata@,
        }
    }
}

/// A confidence after `days` days of fading with a half-life of ninety days:
/// halved once per ninety whole days, and multiplied by the daily factor for
/// every day beyond.
pub open spec fn faded_spec(confidence: int, days: int) -> int {
    decay_spec(
        decay_spec(confidence, HALF as int, (days / 90) as nat),
        DAILY_FADE as int,
        (days % 90) as nat,
    )
}

impl TripleView {
    /// The confidence lies between nothing and one.
    pub open spec fn wf(self) -> bool {
        0 <= self.confidence <= UNIT
    }

    /// The confidence as it counts at `now`.
    pub open spec fn effective_confidence(self, now: i64) -> int {
        faded_spec(self.confidence as int, days_between_spec(self.updated_at, now))
    }
}

impl Triple {
    /// The confidence lies between nothing and one.
    pub open spec fn wf(&self) -> bool {
        self@.wf()
    }

    /// A relation established at `created_at`, with the default confidence.
    pub fn at(created_at: i64, subject: u128, predicate: String, object: u128) -> (triple: Triple)
        ensures
            triple.wf(),
            triple@ == (TripleView {
                subject,
                predicate: predicate@,
                object,
                confidence: DEFAULT_RELATION_CONFIDENCE,
                created_at,
                updated_at: created_at,
                metadata: Seq::empty(),
            }),
    {
        Triple {
            subject,
            predicate,
            object,
            confidence: DEFAULT_RELATION_CONFIDENCE,
            created_at,
            updated_at: created_at,
            metadata: Metadata::new(),
        }
    }

    /// A relation established now, with the default confidence.
    pub fn new(subject: u128, predicate: String, object: u128) -> (triple: Triple)
        ensures
            triple.wf(),
            triple@ == (TripleView {
                subject,
                predicate: predicate@,
                object,
                confidence: DEFAULT_RELATION_CONFIDENCE,
                created_at: triple.created_at,
                updated_at: triple.created_at,
                metadata: Seq::empty(),
            }),
    {
        let created_at = now();
        Triple::at(created_at, subject, predicate, object)
    }

    /// The relation with the given confidence, held within nothing and one.
    pub fn with_confidence(self, confidence: i64) -> (triple: Triple)
        ensures
            triple.wf(),
            triple@ == (TripleView {
                confidence: clamp_unit_spec(confidence as int) as i64,
                ..self@
            }),
    {
        let mut triple = self;
        triple.confidence = clamp_unit(confidence);
        triple
    }

    /// The relation with one more annotation.
    pub fn with_metadata(self, key: String, value: String) -> (triple: Triple)
        ensures
            triple@ == (TripleView { metadata: self@.metadata.push((key@, value@)), ..self@ }),
    {
        let mut triple = self;
        triple.metadata.insert(key, value);
        triple
    }

    /// The confidence as it counts at the instant `now`.
    pub fn effective_confidence_at(&self, now: i64) -> (confidence: i64)
        requires
            self.wf(),
        ensures
            confidence == self@.effective_confidence(now),
            0 <= confidence <= self.confidence,
    {
        let days = days_between(self.updated_at, now);
        let halved = decay(self.confidence, HALF, days / HALF_LIFE_DAYS);
        decay(halved, DAILY_FADE, days % HALF_LIFE_DAYS)
    }

    /// The confidence as it counts now.
    pub fn get_effective_confidence(&self) -> (confidence: i64)
        requires
            self.wf(),
        ensures
            0 <= confidence <= self.confidence,
            exists|now: i64| confidence == #[trigger] self@.effective_confidence(now),
    {
        let instant = now();
        self.effective_confidence_at(instant)
    }

    /// A copy of the relation.
    pub fn duplicate(&self) -> (copy: Triple)
        ensures
            copy@ == self@,
    {
        Triple {
            subject: self.subject,
            predicate: self.predicate.clone(),
            object: self.object,
            confidence: self.confidence,
            created_at: self.created_at,
            updated_at: self.updated_at,
            metadata: self.metadata.duplicate(),
        }
    }
}

/// The values of a list of relations.
pub open spec fn triple_views(triples: Seq<Triple>) -> Seq<TripleView> {
    Seq::new(triples.len(), |i: int| triples[i]@)
}

/// The values of a list of borrowed relations.
pub open spec fn borrowed_views(triples: Seq<&Triple>) -> Seq<TripleView> {
    Seq::new(triples.len(), |i: int| triples[i]@)
}

/// What relations are selected by.
pub enum Selector {
    Subject(u128),
    Object(u128),
    Predicate(Seq<char>),
}

/// Whether `triple` is selected by `selector`.
pub open spec fn selects(selector: Selector, triple: TripleView) -> bool {
    match selector {
        Selector::Subject(id) => triple.subject == id,
        Selector::Object(id) => triple.object == id,
        Selector::Predicate(predicate) => triple.predicate == predicate,
    }
}

/// The relations that `selector` selects, in the order in which they were added.
pub open spec fn selected_spec(triples: Seq<TripleView>, selector: Selector) -> Seq<TripleView> {
    triples.filter(|triple: TripleView| selects(selector, triple))
}

/// One end of a relation as seen from the other: the concept there, the
/// predicate, and the confidence as it counts at the time of asking.
pub struct Related<'a> {
    pub concept: u128,
    pub predicate: &'a str,
    pub confidence: i64,
}

/// The mathematical value of a `Related`.
pub struct RelatedView {
    pub concept: u128,
    pub predicate: Seq<char>,
    pub confidence: int,
}

/// The objects of the given relations, seen from their subjects.
pub open spec fn outgoing_spec(triples: Seq<TripleView>, now: i64) -> Seq<RelatedView> {
    Seq::new(
        triples.len(),
        |i: int|
            RelatedView {
                concept: triples[i].object,
                predicate: triples[i].predicate,
                confidence: triples[i].effective_confidence(now),
            },
    )
}

/// The subjects of the given relations, seen from their objects.
pub open spec fn incoming_spec(triples: Seq<TripleView>, now: i64) -> Seq<RelatedView> {
    Seq::new(
        triples.len(),
        |i: int|
            RelatedView {
                concept: triples[i].subject,
                predicate: triples[i].predicate,
                confidence: triples[i].effective_confidence(now),
            },
    )
}

/// Everything related to the concept `id`: first what its outgoing relations
/// point to, then where its incoming relations come from.
pub open spec fn related_spec(triples: Seq<TripleView>, id: u128, now: i64) -> Seq<RelatedView> {
    outgoing_spec(selected_spec(triples, Selector::Subject(id)), now) + incoming_spec(
        selected_spec(triples, Selector::Object(id)),
        now,
    )
}

/// The values of a list of related ends.
pub open spec fn related_views(related: Seq<Related>) -> Seq<RelatedView> {
    Seq::new(
        related.len(),
        |i: int|
            RelatedView {
                concept: related[i].concept,
                predicate: related[i].predicate@,
                confidence: related[i].confidence as int,
            },
    )
}

/// How many different subjects the relations have.
pub open spec fn distinct_subjects_spec(triples: Seq<TripleView>) -> nat
    decreases triples.len(),
{
    if triples.len() == 0 {
        0
    } else {
        let earlier = triples.drop_last();
        distinct_subjects_spec(earlier) + if selected_spec(
            earlier,
            Selector::Subject(triples.last().subject),
        ).len() == 0 {
            1nat
        } else {
            0nat
        }
    }
}

/// How many different predicates the relations have.
pub open spec fn distinct_predicates_spec(triples: Seq<TripleView>) -> nat
    decreases triples.len(),
{
    if triples.len() == 0 {
        0
    } else {
        let earlier = triples.drop_last();
        distinct_predicates_spec(earlier) + if selected_spec(
            earlier,
            Selector::Predicate(triples.last().predicate),
        ).len() == 0 {
            1nat
        } else {
            0nat
        }
    }
}

/// Counts of a graph. The average degree is the number of relations per
/// subject, in millionths.
#[derive(Debug, Clone, Copy, PartialEq, Eq, Structural)]
pub struct GraphStats {
    pub total_triples: usize,
    pub total_predicates: usize,
    pub avg_degree: u128,
}

/// The positions of the relations that `selector` selects, in order.
pub open spec fn positions_spec(triples: Seq<TripleView>, selector: Selector) -> Seq<usize>
    decreases triples.len(),
{
    if triples.len() == 0 {
        Seq::empty()
    } else {
        let earlier = positions_spec(triples.drop_last(), selector);
        if selects(selector, triples.last()) {
            earlier.push((triples.len() - 1) as usize)
        } else {
            earlier
        }
    }
}

/// The positions listed lie within the relations, and the relations at
/// them are the selected ones, in order.
pub proof fn lemma_positions(triples: Seq<TripleView>, selector: Selector)
    requires
        triples.len() <= usize::MAX,
    ensures
        forall|i: int|
            0 <= i < positions_spec(triples, selector).len() ==> (#[trigger] positions_spec(
                triples,
                selector,
            )[i]) < triples.len(),
        selected_spec(triples, selector) == Seq::new(
            positions_spec(triples, selector).len(),
            |i: int| triples[positions_spec(triples, selector)[i] as int],
        ),
    decreases triples.len(),
{
    reveal(Seq::filter);
    let wanted = |triple: TripleView| selects(selector, triple);
    let positions = positions_spec(triples, selector);
    let at = Seq::new(positions.len(), |i: int| triples[positions[i] as int]);
    if triples.len() > 0 {
        let shorter = triples.drop_last();
        lemma_positions(shorter, selector);
        let earlier = positions_spec(shorter, selector);
        assert(selected_spec(shorter, selector) == shorter.filter(wanted));
        assert forall|i: int| 0 <= i < positions.len() implies (#[trigger] positions[i])
            < triples.len() by {
            if i < earlier.len() {
                assert(positions[i] == earlier[i]);
            }
        }
        assert(triples.filter(wanted) =~= at) by {
            assert forall|i: int| 0 <= i < earlier.len() implies triples[earlier[i] as int]
                == shorter[earlier[i] as int] by {}
        }
    } else {
        assert(triples.filter(wanted) =~= at);
    }
}

/// The positions that a list of positions by identifier holds for `id`.
pub open spec fn listed_for(index: Map<u128, Vec<usize>>, id: u128) -> Seq<usize> {
    if index.contains_key(id) {
        index[id]@
    } else {
        Seq::empty()
    }
}

/// The positions that a list of positions by predicate holds for `predicate`.
pub open spec fn listed_under(index: Map<Seq<char>, Vec<usize>>, predicate: Seq<char>) -> Seq<
    usize,
> {
    if index.contains_key(predicate) {
        index[predicate]@
    } else {
        Seq::empty()
    }
}

/// The relations between concepts, with three indexes for looking them up:
/// by subject, by object and by predicate. The relations themselves are kept
/// in the order in which they were added, so that what a lookup or a search
/// for paths returns comes in the same order on every run; the indexes are
/// hash maps from a key to positions in that list.
pub struct KnowledgeGraph {
    /// All relations, in the order in which they were added.
    triples: Vec<Triple>,
    /// For every subject, the positions of its relations.
    subject_index: HashMap<u128, Vec<usize>>,
    /// For every object, the positions of its relations.
    object_index: HashMap<u128, Vec<usize>>,
    /// For every predicate, the positions of its relations.
    predicate_index: StringHashMap<Vec<usize>>,
}

impl View for KnowledgeGraph {
    type V = Seq<TripleView>;

    closed spec fn view(&self) -> Seq<TripleView> {
        triple_views(self.triples@)
    }
}

impl KnowledgeGraph {
    /// Every relation has a confidence between nothing and one, and the
    /// three indexes list exactly the relations of every subject, object
    /// and predicate.
    pub closed spec fn wf(&self) -> bool {
        &&& forall|i: int| 0 <= i < self@.len() ==> (#[trigger] self@[i]).wf()
        &&& forall|id: u128| #[trigger]
            listed_for(self.subject_index@, id) == positions_spec(self@, Selector::Subject(id))
        &&& forall|id: u128| #[trigger]
            listed_for(self.object_index@, id) == positions_spec(self@, Selector::Object(id))
        &&& forall|predicate: Seq<char>| #[trigger]
            listed_under(self.predicate_index@, predicate) == positions_spec(
                self@,
                Selector::Predicate(predicate),
            )
    }

    /// In a well-formed graph every confidence lies between nothing and one.
    pub proof fn lemma_confidences(&self)
        requires
            self.wf(),
        ensures
            forall|i: int| 0 <= i < self@.len() ==> (#[trigger] self@[i]).wf(),
    {
    }

    /// A graph without relations.
    pub fn new() -> (graph: KnowledgeGraph)
        ensures
            graph.wf(),
            graph@ == Seq::<TripleView>::empty(),
    {
        let graph = KnowledgeGraph {
            triples: Vec::new(),
            subject_index: HashMap::new(),
            object_index: HashMap::new(),
            predicate_index: StringHashMap::new(),
        };
        assert(graph@ =~= Seq::<TripleView>::empty());
        graph
    }

    /// The relations, in the order in which they were added.
    pub fn triples(&self) -> (triples: &Vec<Triple>)
        ensures
            triple_views(triples@) == self@,
    {
        &self.triples
    }

    /// Adds a relation and returns the identifier of its subject.
    pub fn add_triple(&mut self, triple: Triple) -> (subject: u128)
        requires
            old(self).wf(),
            triple.wf(),
        ensures
            final(self).wf(),
            final(self)@ == old(self)@.push(triple@),
            subject == triple@.subject,
    {
        let subject = triple.subject;
        let object = triple.object;
        let ghost before = self@;
        let ghost added = triple@;
        let at = self.triples.len();
        let by_predicate = match self.predicate_index.get(triple.predicate.as_str()) {
            Some(listed) => {
                let mut copy = listed.clone();
                proof {
                    assert(copy@ =~= listed@);
                }
                copy.push(at);
                copy
            },
            None => {
                let mut fresh: Vec<usize> = Vec::new();
                fresh.push(at);
                fresh
            },
        };
        proof {
            assert(by_predicate@ =~= listed_under(self.predicate_index@, added.predicate).push(at));
        }
        self.predicate_index.insert(triple.predicate.clone(), by_predicate);
        let mut by_subject = match self.subject_index.remove(&subject) {
            Some(listed) => listed,
            None => Vec::new(),
        };
        proof {
            assert(by_subject@ =~= listed_for(old(self).subject_index@, subject));
        }
        by_subject.push(at);
        self.subject_index.insert(subject, by_subject);
        let mut by_object = match self.object_index.remove(&object) {
            Some(listed) => listed,
            None => Vec::new(),
        };
        proof {
            assert(by_object@ =~= listed_for(old(self).object_index@, object));
        }
        by_object.push(at);
        self.object_index.insert(object, by_object);
        self.triples.push(triple);
        proof {
            let after = self@;
            assert(after =~= before.push(added));
            assert(after.drop_last() =~= before);
            assert(after.last() == added);
            assert forall|i: int| 0 <= i < after.len() implies (#[trigger] after[i]).wf() by {
                if i < before.len() {
                    assert(after[i] == before[i]);
                }
            }
            assert forall|id: u128| #[trigger]
                listed_for(self.subject_index@, id) == positions_spec(
                    after,
                    Selector::Subject(id),
                ) by {
                assert(listed_for(old(self).subject_index@, id) == positions_spec(
                    before,
                    Selector::Subject(id),
                ));
            }
            assert forall|id: u128| #[trigger]
                listed_for(self.object_index@, id) == positions_spec(
                    after,
                    Selector::Object(id),
                ) by {
                assert(listed_for(old(self).object_index@, id) == positions_spec(
                    before,
                    Selector::Object(id),
                ));
            }
            assert forall|predicate: Seq<char>| #[trigger]
                listed_under(self.predicate_index@, predicate) == positions_spec(
                    after,
                    Selector::Predicate(predicate),
                ) by {
                assert(listed_under(old(self).predicate_index@, predicate) == positions_spec(
                    before,
                    Selector::Predicate(predicate),
                ));
            }
        }
        subject
    }

    /// A graph of the given relations.
    pub fn from_triples(triples: Vec<Triple>) -> (graph: KnowledgeGraph)
        requires
            forall|i: int| 0 <= i < triples@.len() ==> (#[trigger] triples@[i]).wf(),
        ensures
            graph.wf(),
            graph@ == triple_views(triples@),
    {
        let ghost views = triple_views(triples@);
        let mut graph = KnowledgeGraph::new();
        let mut rest = triples;
        let ghost mut seen: int = 0;
        assert(graph@ =~= views.take(0));
        assert(views.skip(0) =~= views);
        while rest.len() > 0
            invariant
                graph.wf(),
                0 <= seen <= views.len(),
                views == triple_views(triples@),
                triple_views(rest@) == views.skip(seen),
                forall|i: int| 0 <= i < rest@.len() ==> (#[trigger] rest@[i]).wf(),
                graph@ == views.take(seen),
            decreases rest.len(),
        {
            let ghost before = triple_views(rest@);
            let ghost old_rest = rest@;
            assert(old_rest[0].wf());
            let triple = rest.remove(0);
            proof {
                assert(before.len() == views.skip(seen).len());
                assert(before[0] == views.skip(seen)[0]);
                assert(triple@ == views[seen]);
                assert(triple_views(rest@) =~= before.drop_first());
                assert(views.skip(seen).drop_first() =~= views.skip(seen + 1));
                assert(views.take(seen + 1) =~= views.take(seen).push(views[seen]));
                assert forall|i: int| 0 <= i < rest@.len() implies (#[trigger] rest@[i]).wf() by {
                    assert(rest@[i] == old_rest[i + 1]);
                }
            }
            graph.add_triple(triple);
            proof {
                seen = seen + 1;
            }
        }
        proof {
            assert(views.skip(seen).len() == 0);
            assert(views.take(seen) =~= views);
        }
        graph
    }

    /// The relations at the positions that an index lists.
    fn at_positions(&self, positions: &Vec<usize>, Ghost(selector): Ghost<Selector>) -> (found: Vec<
        &Triple,
    >)
        requires
            positions@ == positions_spec(self@, selector),
        ensures
            borrowed_views(found@) == selected_spec(self@, selector),
    {
        let total = self.triples.len();
        proof {
            lemma_positions(self@, selector);
        }
        let ghost wanted = selected_spec(self@, selector);
        let mut found: Vec<&Triple> = Vec::new();
        let mut i: usize = 0;
        assert(borrowed_views(found@) =~= wanted.take(0));
        while i < positions.len()
            invariant
                i <= positions.len(),
                positions@ == positions_spec(self@, selector),
                forall|k: int| 0 <= k < positions@.len() ==> (#[trigger] positions@[k]) < self@.len(),
                wanted == Seq::new(positions@.len(), |k: int| self@[positions@[k] as int]),
                borrowed_views(found@) == wanted.take(i as int),
            decreases positions.len() - i,
        {
            let at = positions[i];
            assert(at < self@.len());
            let ghost before = borrowed_views(found@);
            found.push(&self.triples[at]);
            proof {
                assert(borrowed_views(found@) =~= before.push(self.triples@[at as int]@));
                assert(wanted.take(i + 1) =~= wanted.take(i as int).push(wanted[i as int]));
            }
            i = i + 1;
        }
        proof {
            assert(wanted.take(i as int) =~= wanted);
        }
        found
    }

    /// The relations whose subject is the concept `subject_id`.
    pub fn find_by_subject(&self, subject_id: &u128) -> (found: Vec<&Triple>)
        requires
            self.wf(),
        ensures
            borrowed_views(found@) == selected_spec(self@, Selector::Subject(*subject_id)),
    {
        assert(listed_for(self.subject_index@, *subject_id) == positions_spec(
            self@,
            Selector::Subject(*subject_id),
        ));
        match self.subject_index.get(subject_id) {
            Some(positions) => self.at_positions(positions, Ghost(Selector::Subject(*subject_id))),
            None => {
                let nothing: Vec<usize> = Vec::new();
                self.at_positions(&nothing, Ghost(Selector::Subject(*subject_id)))
            },
        }
    }

    /// The relations whose object is the concept `object_id`.
    pub fn find_by_object(&self, object_id: &u128) -> (found: Vec<&Triple>)
        requires
            self.wf(),
        ensures
            borrowed_views(found@) == selected_spec(self@, Selector::Object(*object_id)),
    {
        assert(listed_for(self.object_index@, *object_id) == positions_spec(
            self@,
            Selector::Object(*object_id),
        ));
        match self.object_index.get(object_id) {
            Some(positions) => self.at_positions(positions, Ghost(Selector::Object(*object_id))),
            None => {
                let nothing: Vec<usize> = Vec::new();
                self.at_positions(&nothing, Ghost(Selector::Object(*object_id)))
            },
        }
    }

    /// The relations with the given predicate.
    pub fn find_by_predicate(&self, predicate: &str) -> (found: Vec<&Triple>)
        requires
            self.wf(),
        ensures
            borrowed_views(found@) == selected_spec(self@, Selector::Predicate(predicate@)),
    {
        assert(listed_under(self.predicate_index@, predicate@) == positions_spec(
            self@,
            Selector::Predicate(predicate@),
        ));
        match self.predicate_index.get(predicate) {
            Some(positions) => self.at_positions(
                positions,
                Ghost(Selector::Predicate(predicate@)),
            ),
            None => {
                let nothing: Vec<usize> = Vec::new();
                self.at_positions(&nothing, Ghost(Selector::Predicate(predicate@)))
            },
        }
    }

    /// Everything related to the concept `concept_id`, as it counts at `now`.
    pub fn find_related_concepts_at(&self, concept_id: &u128, now: i64) -> (related: Vec<Related>)
        requires
            self.wf(),
        ensures
            related_views(related@) == related_spec(self@, *concept_id, now),
    {
        let outgoing = self.find_by_subject(concept_id);
        let incoming = self.find_by_object(concept_id);
        let ghost out_views = selected_spec(self@, Selector::Subject(*concept_id));
        let ghost in_views = selected_spec(self@, Selector::Object(*concept_id));
        proof {
            lemma_selected_wf(self@, Selector::Subject(*concept_id));
            lemma_selected_wf(self@, Selector::Object(*concept_id));
        }
        let mut related: Vec<Related> = Vec::new();
        let mut i: usize = 0;
        assert(related_views(related@) =~= outgoing_spec(out_views, now).take(0));
        while i < outgoing.len()
            invariant
                i <= outgoing.len(),
                borrowed_views(outgoing@) == out_views,
                forall|j: int| 0 <= j < out_views.len() ==> (#[trigger] out_views[j]).wf(),
                related_views(related@) == outgoing_spec(out_views, now).take(i as int),
            decreases outgoing.len() - i,
        {
            let triple = outgoing[i];
            proof {
                assert(out_views[i as int] == triple@);
            }
            let ghost before = related_views(related@);
            let end = Related {
                concept: triple.object,
                predicate: triple.predicate.as_str(),
                confidence: triple.effective_confidence_at(now),
            };
            related.push(end);
            proof {
                assert(related_views(related@) =~= before.push(
                    outgoing_spec(out_views, now)[i as int],
                ));
                assert(outgoing_spec(out_views, now).take(i + 1) =~= outgoing_spec(
                    out_views,
                    now,
                ).take(i as int).push(outgoing_spec(out_views, now)[i as int]));
            }
            i = i + 1;
        }
        proof {
            assert(outgoing_spec(out_views, now).take(i as int) =~= outgoing_spec(out_views, now));
        }
        let ghost first = related_views(related@);
        let mut k: usize = 0;
        assert(related_views(related@) =~= first + incoming_spec(in_views, now).take(0));
        while k < incoming.len()
            invariant
                k <= incoming.len(),
                borrowed_views(incoming@) == in_views,
                forall|j: int| 0 <= j < in_views.len() ==> (#[trigger] in_views[j]).wf(),
                related_views(related@) == first + incoming_spec(in_views, now).take(k as int),
            decreases incoming.len() - k,
        {
            let triple = incoming[k];
            proof {
                assert(in_views[k as int] == triple@);
            }
            let ghost before = related_views(related@);
            let end = Related {
                concept: triple.subject,
                predicate: triple.predicate.as_str(),
                confidence: triple.effective_confidence_at(now),
            };
            related.push(end);
            proof {
                assert(related_views(related@) =~= before.push(
                    incoming_spec(in_views, now)[k as int],
                ));
                assert(first + incoming_spec(in_views, now).take(k + 1) =~= (first + incoming_spec(
                    in_views,
                    now,
                ).take(k as int)).push(incoming_spec(in_views, now)[k as int]));
            }
            k = k + 1;
        }
        proof {
            assert(incoming_spec(in_views, now).take(k as int) =~= incoming_spec(in_views, now));
        }
        related
    }

    /// Everything related to the concept `concept_id`, as it counts now.
    pub fn find_related_concepts(&self, concept_id: &u128) -> (related: Vec<Related>)
        requires
            self.wf(),
        ensures
            exists|now: i64| related_views(related@) == related_spec(self@, *concept_id, now),
    {
        let instant = now();
        self.find_related_concepts_at(concept_id, instant)
    }

    /// Counts of the graph.
    pub fn get_stats(&self) -> (stats: GraphStats)
        ensures
            stats.total_triples == self@.len(),
            stats.total_predicates == distinct_predicates_spec(self@),
            stats.avg_degree == if distinct_subjects_spec(self@) == 0 {
                0
            } else {
                (self@.len() * UNIT) / (distinct_subjects_spec(self@) as int)
            },
    {
        let mut subjects: usize = 0;
        let mut predicates: usize = 0;
        let mut i: usize = 0;
        let ghost all = self@;
        while i < self.triples.len()
            invariant
                i <= self.triples.len(),
                all == self@,
                subjects == distinct_subjects_spec(all.take(i as int)),
                predicates == distinct_predicates_spec(all.take(i as int)),
                subjects <= i,
                predicates <= i,
            decreases self.triples.len() - i,
        {
            let triple = &self.triples[i];
            let mut subject_seen = false;
            let mut predicate_seen = false;
            let mut j: usize = 0;
            let ghost earlier = all.take(i as int);
            let ghost by_subject = |t: TripleView| selects(Selector::Subject(triple@.subject), t);
            let ghost by_predicate = |t: TripleView|
                selects(Selector::Predicate(triple@.predicate), t);
            proof {
                reveal(Seq::filter);
                assert(earlier.take(0).filter(by_subject).len() == 0);
                assert(earlier.take(0).filter(by_predicate).len() == 0);
            }
            while j < i
                invariant
                    j <= i < self.triples.len(),
                    all == self@,
                    earlier == all.take(i as int),
                    triple@ == all[i as int],
                    by_subject == (|t: TripleView| selects(Selector::Subject(triple@.subject), t)),
                    by_predicate == (|t: TripleView|
                        selects(Selector::Predicate(triple@.predicate), t)),
                    subject_seen == (earlier.take(j as int).filter(by_subject).len() > 0),
                    predicate_seen == (earlier.take(j as int).filter(by_predicate).len() > 0),
                decreases i - j,
            {
                proof {
                    reveal(Seq::filter);
                    assert(earlier.take(j + 1).drop_last() =~= earlier.take(j as int));
                    assert(earlier.take(j + 1).last() == self.triples@[j as int]@);
                }
                if self.triples[j].subject == triple.subject {
                    subject_seen = true;
                }
                if same_text(self.triples[j].predicate.as_str(), triple.predicate.as_str()) {
                    predicate_seen = true;
                }
                j = j + 1;
            }
            proof {
                assert(earlier.take(j as int) =~= earlier);
                assert(all.take(i + 1).drop_last() =~= earlier);
                assert(all.take(i + 1).last() == triple@);
            }
            if !subject_seen {
                subjects = subjects + 1;
            }
            if !predicate_seen {
                predicates = predicates + 1;
            }
            i = i + 1;
        }
        proof {
            assert(all.take(i as int) =~= all);
        }
        let avg_degree: u128 = if subjects == 0 {
            0
        } else {
            let total: u128 = self.triples.len() as u128 * 1_000_000;
            total / (subjects as u128)
        };
        GraphStats { total_triples: self.triples.len(), total_predicates: predicates, avg_degree }
    }
}

/// What is selected from well-formed relations is well formed.
pub proof fn lemma_selected_wf(triples: Seq<TripleView>, selector: Selector)
    requires
        forall|i: int| 0 <= i < triples.len() ==> (#[trigger] triples[i]).wf(),
    ensures
        forall|i: int|
            0 <= i < selected_spec(triples, selector).len() ==> (#[trigger] selected_spec(
                triples,
                selector,
            )[i]).wf(),
    decreases triples.len(),
{
    reveal(Seq::filter);
    if triples.len() > 0 {
        let earlier = triples.drop_last();
        lemma_selected_wf(earlier, selector);
        let wanted = |triple: TripleView| selects(selector, triple);
        assert(selected_spec(triples, selector) == triples.filter(wanted));
        assert(selected_spec(earlier, selector) == earlier.filter(wanted));
        assert(triples.last().wf());
    }
}

/// A relation never counts for more than it was given, nor for less than nothing.
pub proof fn lemma_faded_bounds(confidence: int, days: int)
    requires
        0 <= confidence,
        0 <= days,
    ensures
        0 <= faded_spec(confidence, days) <= confidence,
{
    lemma_decay_bounds(confidence, HALF as int, (days / 90) as nat);
    lemma_decay_bounds(
        decay_spec(confidence, HALF as int, (days / 90) as nat),
        DAILY_FADE as int,
        (days % 90) as nat,
    );
}

/// The concepts that relations link `node` to, in order: first the objects
/// of the relations that start at `node`, then the subjects of the relations
/// that end there.
pub open spec fn neighbours_spec(triples: Seq<TripleView>, node: u128) -> Seq<u128> {
    let outgoing = selected_spec(triples, Selector::Subject(node));
    let incoming = selected_spec(triples, Selector::Object(node));
    Seq::new(outgoing.len(), |i: int| outgoing[i].object) + Seq::new(
        incoming.len(),
        |i: int| incoming[i].subject,
    )
}

/// The simple paths that continue `path` by exactly `hops` hops and end at
/// `to`. A path that has reached `to` is not continued. Neighbours are tried
/// in their order, each once.
pub open spec fn paths_from_spec(triples: Seq<TripleView>, path: Seq<u128>, to: u128, hops: nat)
    -> Seq<Seq<u128>>
    decreases hops, 0nat,
{
    if path.len() == 0 {
        Seq::empty()
    } else if path.last() == to {
        if hops == 0 {
            seq![path]
        } else {
            Seq::empty()
        }
    } else if hops == 0 {
        Seq::empty()
    } else {
        paths_over_spec(
            triples,
            path,
            to,
            (hops - 1) as nat,
            neighbours_spec(triples, path.last()),
        )
    }
}

/// The simple paths that continue `path` through one of `next` and then by
/// exactly `hops` hops to `to`.
pub open spec fn paths_over_spec(
    triples: Seq<TripleView>,
    path: Seq<u128>,
    to: u128,
    hops: nat,
    next: Seq<u128>,
) -> Seq<Seq<u128>>
    decreases hops, 1 + next.len(),
{
    if next.len() == 0 {
        Seq::empty()
    } else {
        let earlier = paths_over_spec(triples, path, to, hops, next.drop_last());
        let node = next.last();
        if path.contains(node) || next.drop_last().contains(node) {
            earlier
        } else {
            earlier + paths_from_spec(triples, path.push(node), to, hops)
        }
    }
}

/// The simple paths from `from` to `to` of at most `depth` hops, shorter
/// ones first.
pub open spec fn paths_upto_spec(triples: Seq<TripleView>, from: u128, to: u128, depth: nat) -> Seq<
    Seq<u128>,
>
    decreases depth,
{
    if depth == 0 {
        paths_from_spec(triples, seq![from], to, 0)
    } else {
        paths_upto_spec(triples, from, to, (depth - 1) as nat) + paths_from_spec(
            triples,
            seq![from],
            to,
            depth,
        )
    }
}

/// The values of a list of paths.
pub open spec fn path_views(paths: Seq<Vec<u128>>) -> Seq<Seq<u128>> {
    Seq::new(paths.len(), |i: int| paths[i]@)
}

/// Whether `nodes` holds `node`.
fn holds(nodes: &Vec<u128>, upto: usize, node: u128) -> (found: bool)
    requires
        upto <= nodes@.len(),
    ensures
        found == nodes@.take(upto as int).contains(node),
{
    let mut i: usize = 0;
    while i < upto
        invariant
            i <= upto <= nodes@.len(),
            forall|k: int| 0 <= k < i ==> nodes@[k] != node,
        decreases upto - i,
    {
        if nodes[i] == node {
            proof {
                assert(nodes@.take(upto as int)[i as int] == node);
            }
            return true;
        }
        i = i + 1;
    }
    proof {
        assert forall|k: int| 0 <= k < nodes@.take(upto as int).len() implies nodes@.take(
            upto as int,
        )[k] != node by {
            assert(nodes@.take(upto as int)[k] == nodes@[k]);
        }
    }
    false
}

impl KnowledgeGraph {
    /// The concepts that relations link `node` to.
    pub fn neighbours(&self, node: u128) -> (next: Vec<u128>)
        requires
            self.wf(),
        ensures
            next@ == neighbours_spec(self@, node),
    {
        let outgoing = self.find_by_subject(&node);
        let incoming = self.find_by_object(&node);
        let ghost out_views = selected_spec(self@, Selector::Subject(node));
        let ghost in_views = selected_spec(self@, Selector::Object(node));
        let ghost first = Seq::new(out_views.len(), |i: int| out_views[i].object);
        let ghost second = Seq::new(in_views.len(), |i: int| in_views[i].subject);
        let mut next: Vec<u128> = Vec::new();
        let mut i: usize = 0;
        while i < outgoing.len()
            invariant
                i <= outgoing.len(),
                borrowed_views(outgoing@) == out_views,
                first == Seq::new(out_views.len(), |i: int| out_views[i].object),
                next@ == first.take(i as int),
            decreases outgoing.len() - i,
        {
            proof {
                assert(out_views[i as int] == outgoing@[i as int]@);
                assert(first.take(i + 1) =~= first.take(i as int).push(first[i as int]));
            }
            next.push(outgoing[i].object);
            i = i + 1;
        }
        proof {
            assert(first.take(i as int) =~= first);
        }
        let mut k: usize = 0;
        assert(next@ =~= first + second.take(0));
        while k < incoming.len()
            invariant
                k <= incoming.len(),
                borrowed_views(incoming@) == in_views,
                second == Seq::new(in_views.len(), |i: int| in_views[i].subject),
                next@ == first + second.take(k as int),
            decreases incoming.len() - k,
        {
            proof {
                assert(in_views[k as int] == incoming@[k as int]@);
                assert(first + second.take(k + 1) =~= (first + second.take(k as int)).push(
                    second[k as int],
                ));
            }
            next.push(incoming[k].subject);
            k = k + 1;
        }
        proof {
            assert(second.take(k as int) =~= second);
        }
        next
    }

    /// Adds to `found` the simple paths that continue `path` by exactly
    /// `hops` hops and end at `to`.
    fn extend(&self, path: &mut Vec<u128>, to: u128, hops: usize, found: &mut Vec<Vec<u128>>)
        requires
            self.wf(),
            old(path)@.len() > 0,
        ensures
            final(path)@ == old(path)@,
            path_views(final(found)@) == path_views(old(found)@) + paths_from_spec(
                self@,
                old(path)@,
                to,
                hops as nat,
            ),
        decreases hops,
    {
        let ghost start = path_views(found@);
        let ghost route = path@;
        let last = path[path.len() - 1];
        if last == to {
            if hops == 0 {
                let copy = path.clone();
                proof {
                    assert(copy@ =~= route);
                }
                found.push(copy);
                proof {
                    assert(path_views(found@) =~= start + seq![route]);
                }
            } else {
                proof {
                    assert(start + Seq::<Seq<u128>>::empty() =~= start);
                }
            }
            return ;
        }
        if hops == 0 {
            proof {
                assert(start + Seq::<Seq<u128>>::empty() =~= start);
            }
            return ;
        }
        let next = self.neighbours(last);
        let mut k: usize = 0;
        proof {
            assert(start + paths_over_spec(self@, route, to, (hops - 1) as nat, next@.take(0))
                =~= start);
        }
        while k < next.len()
            invariant
                k <= next.len(),
                self.wf(),
                hops > 0,
                route.len() > 0,
                path@ == route,
                path_views(found@) == start + paths_over_spec(
                    self@,
                    route,
                    to,
                    (hops - 1) as nat,
                    next@.take(k as int),
                ),
            decreases next.len() - k,
        {
            let node = next[k];
            proof {
                assert(next@.take(k + 1).drop_last() =~= next@.take(k as int));
                assert(next@.take(k + 1).last() == node);
                assert(path@.take(path@.len() as int) =~= path@);
            }
            let visited = holds(path, path.len(), node);
            let tried = holds(&next, k, node);
            if !visited && !tried {
                let ghost before = path_views(found@);
                path.push(node);
                self.extend(path, to, hops - 1, found);
                path.pop();
                proof {
                    assert(path@ =~= route);
                    assert(start + (paths_over_spec(
                        self@,
                        route,
                        to,
                        (hops - 1) as nat,
                        next@.take(k as int),
                    ) + paths_from_spec(self@, route.push(node), to, (hops - 1) as nat))
                        =~= before + paths_from_spec(
                        self@,
                        route.push(node),
                        to,
                        (hops - 1) as nat,
                    ));
                }
            }
            k = k + 1;
        }
        proof {
            assert(next@.take(k as int) =~= next@);
        }
    }

    /// All simple paths from `from` to `to` of at most `max_depth` hops,
    /// over the relations in either direction; shorter paths first.
    pub fn find_paths(&self, from: &u128, to: &u128, max_depth: usize) -> (paths: Vec<Vec<u128>>)
        requires
            self.wf(),
        ensures
            path_views(paths@) == paths_upto_spec(self@, *from, *to, max_depth as nat),
    {
        let mut paths: Vec<Vec<u128>> = Vec::new();
        let mut path: Vec<u128> = Vec::new();
        path.push(*from);
        assert(path@ =~= seq![*from]);
        self.extend(&mut path, *to, 0, &mut paths);
        assert(path_views(paths@) =~= paths_upto_spec(self@, *from, *to, 0));
        let mut depth: usize = 0;
        while depth < max_depth
            invariant
                depth <= max_depth,
                self.wf(),
                path@ == seq![*from],
                path_views(paths@) == paths_upto_spec(self@, *from, *to, depth as nat),
            decreases max_depth - depth,
        {
            depth = depth + 1;
            self.extend(&mut path, *to, depth, &mut paths);
        }
        paths
    }
}

/// A relation links `a` and `b`, in either direction.
pub open spec fn linked(triples: Seq<TripleView>, a: u128, b: u128) -> bool {
    exists|i: int|
        0 <= i < triples.len() && (((#[trigger] triples[i]).subject == a && triples[i].object == b)
            || (triples[i].subject == b && triples[i].object == a))
}

/// Every concept of `path` is linked to the one that follows it.
pub open spec fn is_chain(triples: Seq<TripleView>, path: Seq<u128>) -> bool {
    forall|i: int| 0 <= i < path.len() - 1 ==> linked(triples, #[trigger] path[i], path[i + 1])
}

/// A simple path from `from` to `to`: it starts at the one and ends at the
/// other, it passes no concept twice, and every step follows a relation.
pub open spec fn is_simple_path(triples: Seq<TripleView>, path: Seq<u128>, from: u128, to: u128)
    -> bool {
    &&& path.len() > 0
    &&& path[0] == from
    &&& path.last() == to
    &&& path.no_duplicates()
    &&& is_chain(triples, path)
}

/// Every neighbour of a concept is linked to it.
proof fn lemma_neighbours_linked(triples: Seq<TripleView>, node: u128)
    ensures
        forall|j: int|
            0 <= j < neighbours_spec(triples, node).len() ==> linked(
                triples,
                node,
                #[trigger] neighbours_spec(triples, node)[j],
            ),
{
    let by_subject = |triple: TripleView| selects(Selector::Subject(node), triple);
    let by_object = |triple: TripleView| selects(Selector::Object(node), triple);
    let outgoing = triples.filter(by_subject);
    let incoming = triples.filter(by_object);
    let next = neighbours_spec(triples, node);
    assert forall|j: int| 0 <= j < next.len() implies linked(triples, node, #[trigger] next[j]) by {
        if j < outgoing.len() {
            triples.lemma_filter_pred(by_subject, j);
            assert(outgoing.contains(outgoing[j]));
            triples.lemma_filter_contains_rev(by_subject, outgoing[j]);
            let i = choose|i: int| 0 <= i < triples.len() && triples[i] == outgoing[j];
            assert(triples[i].subject == node && triples[i].object == next[j]);
        } else {
            let k = j - outgoing.len();
            triples.lemma_filter_pred(by_object, k);
            assert(incoming.contains(incoming[k]));
            triples.lemma_filter_contains_rev(by_object, incoming[k]);
            let i = choose|i: int| 0 <= i < triples.len() && triples[i] == incoming[k];
            assert(triples[i].object == node && triples[i].subject == next[j]);
        }
    }
}

/// What is found by continuing a simple chain is a simple chain of the
/// asked length that starts with the given one and ends at the target.
proof fn lemma_paths_from(triples: Seq<TripleView>, path: Seq<u128>, to: u128, hops: nat, k: int)
    requires
        path.len() > 0,
        path.no_duplicates(),
        is_chain(triples, path),
        0 <= k < paths_from_spec(triples, path, to, hops).len(),
    ensures
        ({
            let found = paths_from_spec(triples, path, to, hops)[k];
            &&& found.len() == path.len() + hops
            &&& found.take(path.len() as int) == path
            &&& found.last() == to
            &&& found.no_duplicates()
            &&& is_chain(triples, found)
        }),
    decreases hops, 0nat,
{
    if path.last() == to {
        assert(path.take(path.len() as int) =~= path);
    } else if hops > 0 {
        let next = neighbours_spec(triples, path.last());
        lemma_neighbours_linked(triples, path.last());
        lemma_paths_over(triples, path, to, (hops - 1) as nat, next, k);
    }
}

/// The same for the paths that continue through one of `next`.
proof fn lemma_paths_over(
    triples: Seq<TripleView>,
    path: Seq<u128>,
    to: u128,
    hops: nat,
    next: Seq<u128>,
    k: int,
)
    requires
        path.len() > 0,
        path.no_duplicates(),
        is_chain(triples, path),
        forall|j: int| 0 <= j < next.len() ==> linked(triples, path.last(), #[trigger] next[j]),
        0 <= k < paths_over_spec(triples, path, to, hops, next).len(),
    ensures
        ({
            let found = paths_over_spec(triples, path, to, hops, next)[k];
            &&& found.len() == path.len() + 1 + hops
            &&& found.take(path.len() as int) == path
            &&& found.last() == to
            &&& found.no_duplicates()
            &&& is_chain(triples, found)
        }),
    decreases hops, 1 + next.len(),
{
    let earlier = paths_over_spec(triples, path, to, hops, next.drop_last());
    let node = next.last();
    assert forall|j: int| 0 <= j < next.drop_last().len() implies linked(
        triples,
        path.last(),
        #[trigger] next.drop_last()[j],
    ) by {
        assert(next.drop_last()[j] == next[j]);
    }
    if k < earlier.len() {
        lemma_paths_over(triples, path, to, hops, next.drop_last(), k);
    } else {
        let longer = path.push(node);
        assert(longer.no_duplicates()) by {
            assert forall|i: int, j: int|
                0 <= i < longer.len() && 0 <= j < longer.len() && i != j implies longer[i]
                != longer[j] by {
                if i == path.len() {
                    assert(longer[j] == path[j]);
                } else if j == path.len() {
                    assert(longer[i] == path[i]);
                }
            }
        }
        assert(is_chain(triples, longer)) by {
            assert(next[next.len() - 1] == node);
            assert forall|i: int| 0 <= i < longer.len() - 1 implies linked(
                triples,
                #[trigger] longer[i],
                longer[i + 1],
            ) by {
                if i < path.len() - 1 {
                    assert(longer[i] == path[i]);
                    assert(longer[i + 1] == path[i + 1]);
                }
            }
        }
        lemma_paths_from(triples, longer, to, hops, k - earlier.len());
        let found = paths_from_spec(triples, longer, to, hops)[k - earlier.len()];
        assert(found.take(path.len() as int) =~= found.take(longer.len() as int).take(
            path.len() as int,
        ));
        assert(longer.take(path.len() as int) =~= path);
    }
}

/// Every path that `find_paths` returns is a simple path from the one
/// concept to the other, of at most as many hops as were asked for.
pub proof fn lemma_found_paths_are_simple(
    triples: Seq<TripleView>,
    from: u128,
    to: u128,
    depth: nat,
    k: int,
)
    requires
        0 <= k < paths_upto_spec(triples, from, to, depth).len(),
    ensures
        is_simple_path(triples, paths_upto_spec(triples, from, to, depth)[k], from, to),
        paths_upto_spec(triples, from, to, depth)[k].len() <= depth + 1,
    decreases depth,
{
    let start = seq![from];
    assert(start.no_duplicates());
    assert(is_chain(triples, start));
    let shorter = if depth == 0 {
        Seq::<Seq<u128>>::empty()
    } else {
        paths_upto_spec(triples, from, to, (depth - 1) as nat)
    };
    if depth > 0 && k < shorter.len() {
        lemma_found_paths_are_simple(triples, from, to, (depth - 1) as nat, k);
    } else {
        let at = k - shorter.len();
        lemma_paths_from(triples, start, to, depth, at);
        let found = paths_from_spec(triples, start, to, depth)[at];
        assert(found.take(1)[0] == found[0]);
    }
}

/// What stands in one of two lists stands in the two joined.
proof fn lemma_joined_contains(first: Seq<Seq<u128>>, second: Seq<Seq<u128>>, path: Seq<u128>)
    requires
        first.contains(path) || second.contains(path),
    ensures
        (first + second).contains(path),
{
    if first.contains(path) {
        let i = choose|i: int| 0 <= i < first.len() && first[i] == path;
        assert((first + second)[i] == path);
    } else {
        let i = choose|i: int| 0 <= i < second.len() && second[i] == path;
        assert((first + second)[first.len() + i] == path);
    }
}

/// A concept that is linked to another is among its neighbours.
proof fn lemma_linked_is_neighbour(triples: Seq<TripleView>, node: u128, other: u128)
    requires
        linked(triples, node, other),
    ensures
        neighbours_spec(triples, node).contains(other),
{
    let by_subject = |triple: TripleView| selects(Selector::Subject(node), triple);
    let by_object = |triple: TripleView| selects(Selector::Object(node), triple);
    let outgoing = triples.filter(by_subject);
    let incoming = triples.filter(by_object);
    let first = Seq::new(outgoing.len(), |i: int| outgoing[i].object);
    let second = Seq::new(incoming.len(), |i: int| incoming[i].subject);
    let next = neighbours_spec(triples, node);
    let i = choose|i: int|
        0 <= i < triples.len() && (((#[trigger] triples[i]).subject == node && triples[i].object
            == other) || (triples[i].subject == other && triples[i].object == node));
    if triples[i].subject == node && triples[i].object == other {
        triples.lemma_filter_contains(by_subject, i);
        let k = choose|k: int| 0 <= k < outgoing.len() && outgoing[k] == triples[i];
        assert(first[k] == other);
        assert(next[k] == other);
    } else {
        triples.lemma_filter_contains(by_object, i);
        let k = choose|k: int| 0 <= k < incoming.len() && incoming[k] == triples[i];
        assert(second[k] == other);
        assert(next[first.len() + k] == other);
    }
}

/// What is found by continuing through one of the neighbours is found when
/// all neighbours are tried.
proof fn lemma_over_contains(
    triples: Seq<TripleView>,
    path: Seq<u128>,
    to: u128,
    hops: nat,
    next: Seq<u128>,
    node: u128,
    found: Seq<u128>,
)
    requires
        next.contains(node),
        !path.contains(node),
        paths_from_spec(triples, path.push(node), to, hops).contains(found),
    ensures
        paths_over_spec(triples, path, to, hops, next).contains(found),
    decreases next.len(),
{
    let earlier = next.drop_last();
    let rest = paths_over_spec(triples, path, to, hops, earlier);
    if earlier.contains(node) {
        lemma_over_contains(triples, path, to, hops, earlier, node, found);
        if path.contains(next.last()) || earlier.contains(next.last()) {
        } else {
            lemma_joined_contains(
                rest,
                paths_from_spec(triples, path.push(next.last()), to, hops),
                found,
            );
        }
    } else {
        // the node stands last, and it has not been tried before
        let i = choose|i: int| 0 <= i < next.len() && next[i] == node;
        if i < earlier.len() {
            assert(earlier[i] == node);
        }
        assert(next.last() == node);
        lemma_joined_contains(rest, paths_from_spec(triples, path.push(node), to, hops), found);
    }
}

/// Every simple chain to the target that starts with `path` and makes
/// `hops` hops more is found by continuing `path`.
proof fn lemma_from_contains(
    triples: Seq<TripleView>,
    path: Seq<u128>,
    to: u128,
    hops: nat,
    whole: Seq<u128>,
)
    requires
        path.len() > 0,
        whole.len() == path.len() + hops,
        whole.take(path.len() as int) == path,
        whole.last() == to,
        whole.no_duplicates(),
        is_chain(triples, whole),
    ensures
        paths_from_spec(triples, path, to, hops).contains(whole),
    decreases hops,
{
    let at = path.len() as int;
    assert(path.last() == whole[at - 1]) by {
        assert(whole.take(at)[at - 1] == whole[at - 1]);
    }
    if hops == 0 {
        assert(whole.take(at) =~= whole);
        assert(seq![path][0] == whole);
    } else {
        // the chain passes no concept twice, so it has not reached the target yet
        assert(whole[at - 1] != whole[whole.len() - 1]);
        let node = whole[at];
        let longer = path.push(node);
        assert(whole.take(at + 1) =~= longer) by {
            assert forall|i: int| 0 <= i < at implies whole.take(at + 1)[i] == path[i] by {
                assert(whole.take(at)[i] == whole[i]);
            }
        }
        lemma_from_contains(triples, longer, to, (hops - 1) as nat, whole);
        assert(linked(triples, whole[at - 1], whole[at - 1 + 1]));
        lemma_linked_is_neighbour(triples, path.last(), node);
        assert(!path.contains(node)) by {
            if path.contains(node) {
                let i = choose|i: int| 0 <= i < path.len() && path[i] == node;
                assert(whole.take(at)[i] == whole[i]);
                assert(whole[i] == whole[at]);
            }
        }
        lemma_over_contains(
            triples,
            path,
            to,
            (hops - 1) as nat,
            neighbours_spec(triples, path.last()),
            node,
            whole,
        );
    }
}

/// Every simple path from the one concept to the other of at most as many
/// hops as were asked for is among the paths that `find_paths` returns.
pub proof fn lemma_simple_paths_are_found(
    triples: Seq<TripleView>,
    from: u128,
    to: u128,
    depth: nat,
    path: Seq<u128>,
)
    requires
        is_simple_path(triples, path, from, to),
        path.len() <= depth + 1,
    ensures
        paths_upto_spec(triples, from, to, depth).contains(path),
    decreases depth,
{
    let hops = (path.len() - 1) as nat;
    let start = seq![from];
    if hops == depth {
        assert(path.take(1) =~= start);
        lemma_from_contains(triples, start, to, hops, path);
        if depth > 0 {
            lemma_joined_contains(
                paths_upto_spec(triples, from, to, (depth - 1) as nat),
                paths_from_spec(triples, start, to, depth),
                path,
            );
        }
    } else {
        lemma_simple_paths_are_found(triples, from, to, (depth - 1) as nat, path);
        lemma_joined_contains(
            paths_upto_spec(triples, from, to, (depth - 1) as nat),
            paths_from_spec(triples, start, to, depth),
            path,
        );
    }
}

} // verus!
