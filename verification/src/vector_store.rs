//! The vector store: tagged embedding records with exact similarity search.

use vstd::prelude::*;
use crate::clock::now;
use crate::error::MemoryError;
use crate::ids::new_id;
use crate::metadata::Metadata;
use crate::ranking::lemma_ranking_is_ranked;
use crate::ranking::rank;
use crate::ranking::ranking_spec;
use crate::similarity::cosine_similarity;
use crate::similarity::cosine_spec;
use crate::similarity::lemma_cosine_bounds;
use crate::text::append_decimal;
use crate::text::append_str;
use crate::text::decimal_spec;
use crate::text::string_of;

verus! {

/// What a record is a memory of.
#[derive(Debug, Clone)]
pub enum MemoryType {
    /// One turn of a conversation.
    Episodic { session_id: u128, turn: usize },
    /// A piece of distilled knowledge.
    Semantic { category: String },
    /// Part of the working context.
    ShortTerm,
}

/// The mathematical value of a `MemoryType`.
pub enum MemoryTypeView {
    Episodic { session_id: u128, turn: usize },
    Semantic { category: Seq<char> },
    ShortTerm,
}

impl View for MemoryType {
    type V = MemoryTypeView;

    open spec fn view(&self) -> MemoryTypeView {
        match self {
            MemoryType::Episodic { session_id, turn } => MemoryTypeView::Episodic {
                session_id: *session_id,
                turn: *turn,
            },
            MemoryType::Semantic { category } => MemoryTypeView::Semantic { category: category@ },
            MemoryType::ShortTerm => MemoryTypeView::ShortTerm,
        }
    }
}

/// Two kinds match when they are the same variant, whatever their payload.
pub open spec fn same_kind(a: MemoryTypeView, b: MemoryTypeView) -> bool {
    ||| a is Episodic && b is Episodic
    ||| a is Semantic && b is Semantic
    ||| a is ShortTerm && b is ShortTerm
}

impl MemoryType {
    /// Whether two kinds are the same variant.
    pub fn matches(&self, other: &MemoryType) -> (same: bool)
        ensures
            same == same_kind(self@, other@),
    {
        match (self, other) {
            (MemoryType::Episodic { .. }, MemoryType::Episodic { .. }) => true,
            (MemoryType::Semantic { .. }, MemoryType::Semantic { .. }) => true,
            (MemoryType::ShortTerm, MemoryType::ShortTerm) => true,
            _ => false,
        }
    }

    /// A copy of this kind.
    pub fn duplicate(&self) -> (copy: MemoryType)
        ensures
            copy@ == self@,
    {
        match self {
            MemoryType::Episodic { session_id, turn } => MemoryType::Episodic {
                session_id: *session_id,
                turn: *turn,
            },
            MemoryType::Semantic { category } => MemoryType::Semantic { category: category.clone() },
            MemoryType::ShortTerm => MemoryType::ShortTerm,
        }
    }
}

/// One embedded record.
#[derive(Debug, Clone)]
pub struct MemoryEntry {
    /// Unique identifier.
    pub id: u128,
    /// The text the record was made from.
    pub text: String,
    /// The embedding, one single-precision word per component.
    pub embedding: Vec<u32>,
    /// Free annotations.
    pub metadata: Metadata,
    /// When the record was created, in milliseconds since the epoch.
    pub timestamp: i64,
    /// What the record is a memory of.
    pub memory_type: MemoryType,
}

/// The mathematical value of a `MemoryEntry`.
pub struct MemoryEntryView {
    pub id: u128,
    pub text: Seq<char>,
    pub embedding: Seq<u32>,
    pub metadata: Seq<(Seq<char>, Seq<char>)>,
    pub timestamp: i64,
    pub memory_type: MemoryTypeView,
}

impl View for MemoryEntry {
    type V = MemoryEntryView;

    open spec fn view(&self) -> MemoryEntryView {
        MemoryEntryView {
            id: self.id,
            text: self.text@,
            embedding: self.embedding@,
            metadata: self.metadata@,
            timestamp: self.timestamp,
            memory_type: self.memory_type@,
        }
    }
}

impl MemoryEntry {
    /// A record with the given identity and time of creation, and no annotations.
    pub fn with_identity(
        id: u128,
        timestamp: i64,
        text: String,
        embedding: Vec<u32>,
        memory_type: MemoryType,
    ) -> (entry: MemoryEntry)
        ensures
            entry@ == (MemoryEntryView {
                id,
                text: text@,
                embedding: embedding@,
                metadata: Seq::empty(),
                timestamp,
                memory_type: memory_type@,
            }),
    {
        MemoryEntry { id, text, embedding, metadata: Metadata::new(), timestamp, memory_type }
    }

    /// A new record, with a fresh identifier, created now.
    pub fn new(text: String, embedding: Vec<u32>, memory_type: MemoryType) -> (entry: MemoryEntry)
        ensures
            entry@ == (MemoryEntryView {
                id: entry.id,
                text: text@,
                embedding: embedding@,
                metadata: Seq::empty(),
                timestamp: entry.timestamp,
                memory_type: memory_type@,
            }),
    {
        let id = new_id();
        let timestamp = now();
        MemoryEntry::with_identity(id, timestamp, text, embedding, memory_type)
    }

    /// The record with one more annotation.
    pub fn with_metadata(self, key: String, value: String) -> (entry: MemoryEntry)
        ensures
            entry@ == (MemoryEntryView {
                metadata: self@.metadata.push((key@, value@)),
                ..self@
            }),
    {
        let mut entry = self;
        entry.metadata.insert(key, value);
        entry
    }

    /// A copy of the record.
    pub fn duplicate(&self) -> (copy: MemoryEntry)
        ensures
            copy@ == self@,
    {
        let embedding = self.embedding.clone();
        assert(embedding@ =~= self.embedding@);
        MemoryEntry {
            id: self.id,
            text: self.text.clone(),
            embedding,
            metadata: self.metadata.duplicate(),
            timestamp: self.timestamp,
            memory_type: self.memory_type.duplicate(),
        }
    }
}

/// The values of a list of records.
pub open spec fn entry_views(entries: Seq<MemoryEntry>) -> Seq<MemoryEntryView> {
    Seq::new(entries.len(), |i: int| entries[i]@)
}

/// The positions of the records whose kind matches `kind`, in order.
pub open spec fn positions_of_kind(entries: Seq<MemoryEntryView>, kind: MemoryTypeView) -> Seq<
    usize,
>
    decreases entries.len(),
{
    if entries.len() == 0 {
        Seq::empty()
    } else {
        let earlier = positions_of_kind(entries.drop_last(), kind);
        if same_kind(entries.last().memory_type, kind) {
            earlier.push((entries.len() - 1) as usize)
        } else {
            earlier
        }
    }
}

/// All positions of a list of `n` records, in order.
pub open spec fn all_positions(n: nat) -> Seq<usize> {
    Seq::new(n, |i: int| i as usize)
}

/// The best `top_k` of the candidate records at `positions`: their positions,
/// by descending similarity to `query`, equally similar ones in the order of
/// `positions`.
pub open spec fn ranked_spec(
    entries: Seq<MemoryEntryView>,
    query: Seq<u32>,
    positions: Seq<usize>,
    top_k: nat,
) -> Seq<usize> {
    let scores = Seq::new(
        positions.len(),
        |i: int| cosine_spec(query, entries[positions[i] as int].embedding) as i64,
    );
    let order = ranking_spec(scores);
    let count = if top_k < positions.len() {
        top_k
    } else {
        positions.len()
    };
    Seq::new(count, |i: int| positions[order[i] as int])
}

/// What a search over the whole store returns: nothing when the query has the
/// wrong dimension, else the best `top_k` positions.
pub open spec fn search_spec(store: VectorStoreView, query: Seq<u32>, top_k: nat) -> Seq<usize> {
    if query.len() != store.dimension {
        Seq::empty()
    } else {
        ranked_spec(store.entries, query, all_positions(store.entries.len()), top_k)
    }
}

/// What a search restricted to one kind returns.
pub open spec fn search_by_type_spec(
    store: VectorStoreView,
    query: Seq<u32>,
    kind: MemoryTypeView,
    top_k: nat,
) -> Seq<usize> {
    if query.len() != store.dimension {
        Seq::empty()
    } else {
        ranked_spec(store.entries, query, positions_of_kind(store.entries, kind), top_k)
    }
}

/// `hits` are the records of `entries` at `positions`, each with its similarity
/// to `query`.
pub open spec fn hits_are(
    hits: Seq<(i64, &MemoryEntry)>,
    entries: Seq<MemoryEntryView>,
    query: Seq<u32>,
    positions: Seq<usize>,
) -> bool {
    &&& hits.len() == positions.len()
    &&& forall|i: int|
        0 <= i < hits.len() ==> {
            &&& 0 <= positions[i] < entries.len()
            &&& (#[trigger] hits[i]).1@ == entries[positions[i] as int]
            &&& hits[i].0 == cosine_spec(query, entries[positions[i] as int].embedding)
        }
}

/// `hits` are `positions`, each with the similarity to `query` of the record
/// of `entries` that stands there.
pub open spec fn located_are(
    hits: Seq<(i64, usize)>,
    entries: Seq<MemoryEntryView>,
    query: Seq<u32>,
    positions: Seq<usize>,
) -> bool {
    &&& hits.len() == positions.len()
    &&& forall|i: int|
        0 <= i < hits.len() ==> {
            &&& 0 <= positions[i] < entries.len()
            &&& (#[trigger] hits[i]).1 == positions[i]
            &&& hits[i].0 == cosine_spec(query, entries[positions[i] as int].embedding)
        }
}

/// The mathematical value of a store.
pub struct VectorStoreView {
    pub entries: Seq<MemoryEntryView>,
    pub dimension: usize,
    pub query_count: u64,
}

impl VectorStoreView {
    /// Every record has an embedding of the store's dimension.
    pub open spec fn wf(self) -> bool {
        forall|i: int|
            0 <= i < self.entries.len() ==> (#[trigger] self.entries[i]).embedding.len()
                == self.dimension
    }
}

/// An in-memory collection of records with exact cosine-similarity search.
#[derive(Debug, Clone)]
pub struct VectorStore {
    entries: Vec<MemoryEntry>,
    dimension: usize,
    query_count: u64,
}

impl View for VectorStore {
    type V = VectorStoreView;

    closed spec fn view(&self) -> VectorStoreView {
        VectorStoreView {
            entries: entry_views(self.entries@),
            dimension: self.dimension,
            query_count: self.query_count,
        }
    }
}

/// Counts of a store's records.
#[derive(Debug, Clone, Copy, PartialEq, Eq, Structural)]
pub struct VectorStoreStats {
    pub total_entries: usize,
    pub episodic_count: usize,
    pub semantic_count: usize,
    pub short_term_count: usize,
    pub dimension: usize,
    pub query_count: u64,
}

impl VectorStoreStats {
    /// The report for these counts.
    pub open spec fn format_spec(self) -> Seq<char> {
        "📊 VectorStore Stats:\n   Entries: "@ + decimal_spec(self.total_entries as nat)
            + " total ("@ + decimal_spec(self.episodic_count as nat) + " episodic, "@
            + decimal_spec(self.semantic_count as nat) + " semantic, "@ + decimal_spec(
            self.short_term_count as nat,
        ) + " short-term)\n   Dimension: "@ + decimal_spec(self.dimension as nat)
            + "D\n   Queries: "@ + decimal_spec(self.query_count as nat)
    }

    /// Writes the counts as a short report.
    pub fn format(&self) -> (text: String)
        ensures
            text@ == self.format_spec(),
    {
        let mut out: Vec<char> = Vec::new();
        append_str(&mut out, "📊 VectorStore Stats:\n   Entries: ");
        append_decimal(&mut out, self.total_entries as u64);
        append_str(&mut out, " total (");
        append_decimal(&mut out, self.episodic_count as u64);
        append_str(&mut out, " episodic, ");
        append_decimal(&mut out, self.semantic_count as u64);
        append_str(&mut out, " semantic, ");
        append_decimal(&mut out, self.short_term_count as u64);
        append_str(&mut out, " short-term)\n   Dimension: ");
        append_decimal(&mut out, self.dimension as u64);
        append_str(&mut out, "D\n   Queries: ");
        append_decimal(&mut out, self.query_count);
        assert(out@ =~= self.format_spec());
        string_of(out.as_slice())
    }
}

impl VectorStore {
    /// Every record has an embedding of the store's dimension.
    pub open spec fn wf(&self) -> bool {
        self@.wf()
    }

    /// An empty store for embeddings of the given dimension.
    pub fn new(dimension: usize) -> (store: VectorStore)
        ensures
            store.wf(),
            store@.entries.len() == 0,
            store@.dimension == dimension,
            store@.query_count == 0,
    {
        VectorStore { entries: Vec::new(), dimension, query_count: 0 }
    }

    /// Adds a record. A record whose embedding has the wrong length is
    /// rejected and the store stays as it was.
    pub fn add(&mut self, entry: MemoryEntry) -> (outcome: Result<(), MemoryError>)
        requires
            old(self).wf(),
        ensures
            final(self).wf(),
            entry@.embedding.len() == old(self)@.dimension ==> outcome is Ok && final(self)@ == (
            VectorStoreView { entries: old(self)@.entries.push(entry@), ..old(self)@ }),
            entry@.embedding.len() != old(self)@.dimension ==> final(self)@ == old(self)@ && outcome
                == Err::<(), MemoryError>(
                MemoryError::DimensionMismatch {
                    expected: old(self)@.dimension,
                    actual: entry@.embedding.len() as usize,
                },
            ),
    {
        if entry.embedding.len() != self.dimension {
            return Err(
                MemoryError::DimensionMismatch {
                    expected: self.dimension,
                    actual: entry.embedding.len(),
                },
            );
        }
        let ghost before = self@.entries;
        self.entries.push(entry);
        proof {
            assert(self@.entries =~= before.push(entry@));
        }
        Ok(())
    }

    /// Number of leading records of `batch` that fit the dimension.
    pub open spec fn fitting_prefix(batch: Seq<MemoryEntryView>, dimension: usize) -> nat
        decreases batch.len(),
    {
        if batch.len() == 0 || batch[0].embedding.len() != dimension {
            0
        } else {
            1 + Self::fitting_prefix(batch.drop_first(), dimension)
        }
    }

    /// Adds records in order, stopping at the first that does not fit: the
    /// records before it stay added.
    pub fn add_batch(&mut self, batch: Vec<MemoryEntry>) -> (outcome: Result<(), MemoryError>)
        requires
            old(self).wf(),
        ensures
            final(self).wf(),
            final(self)@.dimension == old(self)@.dimension,
            final(self)@.query_count == old(self)@.query_count,
            final(self)@.entries == old(self)@.entries + entry_views(batch@).take(
                Self::fitting_prefix(entry_views(batch@), old(self)@.dimension) as int,
            ),
            outcome is Ok <==> Self::fitting_prefix(entry_views(batch@), old(self)@.dimension)
                == batch@.len(),
            outcome is Err ==> outcome->Err_0 is DimensionMismatch,
    {
        let ghost all = entry_views(batch@);
        let ghost dimension = self@.dimension;
        let mut rest = batch;
        let mut taken: usize = 0;
        let total = rest.len();
        let ghost start = self@.entries;
        assert(all.skip(0) =~= all);
        assert(start + all.take(0) =~= start);
        while rest.len() > 0
            invariant
                self.wf(),
                self@.dimension == dimension,
                dimension == old(self)@.dimension,
                start == old(self)@.entries,
                all == entry_views(batch@),
                self@.query_count == old(self)@.query_count,
                taken + rest.len() == total,
                total == all.len(),
                entry_views(rest@) == all.skip(taken as int),
                self@.entries == start + all.take(taken as int),
                Self::fitting_prefix(all, dimension) == taken + Self::fitting_prefix(
                    all.skip(taken as int),
                    dimension,
                ),
            decreases rest.len(),
        {
            let ghost before = entry_views(rest@);
            let entry = rest.remove(0);
            proof {
                assert(before[0] == all.skip(taken as int)[0]);
                assert(entry@ == all[taken as int]);
                assert(all.skip(taken as int).drop_first() =~= all.skip(taken + 1));
                assert(entry_views(rest@) =~= before.drop_first());
                assert(all.take(taken + 1) =~= all.take(taken as int).push(all[taken as int]));
                assert(start + all.take(taken + 1) =~= (start + all.take(taken as int)).push(
                    all[taken as int],
                ));
            }
            match self.add(entry) {
                Ok(()) => {},
                Err(error) => {
                    return Err(error);
                },
            }
            taken = taken + 1;
        }
        proof {
            assert(all.skip(taken as int).len() == 0);
        }
        Ok(())
    }

    /// Counts one more query, stopping at the largest count that fits.
    fn count_query(&mut self)
        ensures
            final(self)@ == (VectorStoreView {
                query_count: Self::next_count(old(self)@.query_count),
                ..old(self)@
            }),
    {
        if self.query_count < u64::MAX {
            self.query_count = self.query_count + 1;
        }
    }

    /// The query counter after one more query.
    pub open spec fn next_count(count: u64) -> u64 {
        if count < u64::MAX {
            (count + 1) as u64
        } else {
            count
        }
    }

    /// The best `top_k` of the records at `positions`: each position with
    /// its score.
    fn rank_positions(&self, query: &[u32], positions: &Vec<usize>, top_k: usize) -> (hits: Vec<
        (i64, usize),
    >)
        requires
            forall|i: int| 0 <= i < positions@.len() ==> (#[trigger] positions@[i]) < self@.entries.len(),
        ensures
            located_are(
                hits@,
                self@.entries,
                query@,
                ranked_spec(self@.entries, query@, positions@, top_k as nat),
            ),
    {
        let mut scores: Vec<i64> = Vec::new();
        let mut i: usize = 0;
        let ghost wanted = Seq::new(
            positions@.len(),
            |i: int| cosine_spec(query@, self@.entries[positions@[i] as int].embedding) as i64,
        );
        while i < positions.len()
            invariant
                i <= positions.len(),
                scores@ == wanted.take(i as int),
                forall|j: int|
                    0 <= j < positions@.len() ==> (#[trigger] positions@[j]) < self.entries@.len(),
                wanted == Seq::new(
                    positions@.len(),
                    |i: int|
                        cosine_spec(query@, self@.entries[positions@[i] as int].embedding) as i64,
                ),
            decreases positions.len() - i,
        {
            let at = positions[i];
            let score = cosine_similarity(query, self.entries[at].embedding.as_slice());
            proof {
                assert(self@.entries[at as int] == self.entries@[at as int]@);
                assert(wanted.take(i + 1) =~= wanted.take(i as int).push(score));
            }
            scores.push(score);
            i = i + 1;
        }
        proof {
            assert(wanted.take(wanted.len() as int) =~= wanted);
            lemma_ranking_is_ranked(wanted);
        }
        let order = rank(&scores);
        let count = if top_k < positions.len() {
            top_k
        } else {
            positions.len()
        };
        let ghost ranked = ranked_spec(self@.entries, query@, positions@, top_k as nat);
        let mut hits: Vec<(i64, usize)> = Vec::new();
        let mut k: usize = 0;
        while k < count
            invariant
                k <= count <= positions.len(),
                order@ == ranking_spec(wanted),
                order@.len() == positions@.len(),
                scores@ == wanted,
                ranked.len() == count,
                ranked == ranked_spec(self@.entries, query@, positions@, top_k as nat),
                wanted == Seq::new(
                    positions@.len(),
                    |i: int|
                        cosine_spec(query@, self@.entries[positions@[i] as int].embedding) as i64,
                ),
                forall|j: int| 0 <= j < order@.len() ==> (#[trigger] order@[j]) < positions@.len(),
                forall|j: int|
                    0 <= j < positions@.len() ==> (#[trigger] positions@[j]) < self.entries@.len(),
                hits@.len() == k,
                forall|j: int|
                    0 <= j < k ==> {
                        &&& (#[trigger] hits@[j]).1 == ranked[j]
                        &&& ranked[j] < self@.entries.len()
                        &&& hits@[j].0 == cosine_spec(
                            query@,
                            self@.entries[ranked[j] as int].embedding,
                        )
                    },
            decreases count - k,
        {
            let slot = order[k];
            let at = positions[slot];
            proof {
                assert(ranked[k as int] == at);
                assert(self@.entries[at as int] == self.entries@[at as int]@);
                lemma_cosine_bounds(query@, self@.entries[at as int].embedding);
                assert(scores@[slot as int] == wanted[slot as int]);
            }
            hits.push((scores[slot], at));
            k = k + 1;
        }
        hits
    }

    /// The best `top_k` of the records at `positions`.
    fn rank_candidates(&self, query: &[u32], positions: &Vec<usize>, top_k: usize) -> (hits: Vec<
        (i64, &MemoryEntry),
    >)
        requires
            forall|i: int| 0 <= i < positions@.len() ==> (#[trigger] positions@[i]) < self@.entries.len(),
        ensures
            hits_are(
                hits@,
                self@.entries,
                query@,
                ranked_spec(self@.entries, query@, positions@, top_k as nat),
            ),
    {
        let located = self.rank_positions(query, positions, top_k);
        let ghost ranked = ranked_spec(self@.entries, query@, positions@, top_k as nat);
        let mut hits: Vec<(i64, &MemoryEntry)> = Vec::new();
        let mut k: usize = 0;
        proof {
            assert forall|j: int| 0 <= j < ranked.len() implies (#[trigger] ranked[j])
                < self@.entries.len() by {
                assert(located@[j].1 == ranked[j]);
            }
        }
        while k < located.len()
            invariant
                k <= located.len(),
                located_are(located@, self@.entries, query@, ranked),
                ranked == ranked_spec(self@.entries, query@, positions@, top_k as nat),
                forall|j: int| 0 <= j < ranked.len() ==> (#[trigger] ranked[j]) < self@.entries.len(),
                hits@.len() == k,
                forall|j: int|
                    0 <= j < k ==> {
                        &&& (#[trigger] hits@[j]).1@ == self@.entries[ranked[j] as int]
                        &&& hits@[j].0 == cosine_spec(
                            query@,
                            self@.entries[ranked[j] as int].embedding,
                        )
                    },
            decreases located.len() - k,
        {
            let score = located[k].0;
            let at = located[k].1;
            proof {
                assert(located@[k as int].1 == ranked[k as int]);
                assert(ranked[k as int] < self@.entries.len());
                assert(self@.entries[at as int] == self.entries@[at as int]@);
            }
            let ghost before = hits@;
            hits.push((score, &self.entries[at]));
            proof {
                assert forall|j: int| 0 <= j < k + 1 implies {
                    &&& (#[trigger] hits@[j]).1@ == self@.entries[ranked[j] as int]
                    &&& hits@[j].0 == cosine_spec(query@, self@.entries[ranked[j] as int].embedding)
                } by {
                    if j < k {
                        assert(hits@[j] == before[j]);
                    }
                }
            }
            k = k + 1;
        }
        proof {
            assert(hits@.len() == ranked.len());
        }
        hits
    }

    /// As `search_by_type`, but giving the position of each record found
    /// instead of the record.
    pub fn locate_by_type(&mut self, query: &[u32], kind: &MemoryType, top_k: usize) -> (hits: Vec<
        (i64, usize),
    >)
        ensures
            final(self)@ == (VectorStoreView {
                query_count: Self::next_count(old(self)@.query_count),
                ..old(self)@
            }),
            located_are(
                hits@,
                old(self)@.entries,
                query@,
                search_by_type_spec(old(self)@, query@, kind@, top_k as nat),
            ),
    {
        self.count_query();
        if query.len() != self.dimension {
            return Vec::new();
        }
        let positions = self.matching_positions(kind);
        self.rank_positions(query, &positions, top_k)
    }

    /// The `top_k` records most similar to `query`, by descending similarity,
    /// equally similar ones in insertion order. A query of the wrong dimension
    /// finds nothing. Every call counts as one query.
    pub fn search(&mut self, query: &[u32], top_k: usize) -> (hits: Vec<(i64, &MemoryEntry)>)
        ensures
            final(self)@ == (VectorStoreView {
                query_count: Self::next_count(old(self)@.query_count),
                ..old(self)@
            }),
            hits_are(hits@, old(self)@.entries, query@, search_spec(old(self)@, query@, top_k as nat)),
    {
        self.count_query();
        if query.len() != self.dimension {
            return Vec::new();
        }
        let mut positions: Vec<usize> = Vec::new();
        let mut i: usize = 0;
        while i < self.entries.len()
            invariant
                i <= self.entries.len(),
                positions@ == all_positions(i as nat),
            decreases self.entries.len() - i,
        {
            proof {
                assert(all_positions((i + 1) as nat) =~= all_positions(i as nat).push(i));
            }
            positions.push(i);
            i = i + 1;
        }
        self.rank_candidates(query, &positions, top_k)
    }

    /// The positions of the records whose kind matches `kind`.
    fn matching_positions(&self, kind: &MemoryType) -> (positions: Vec<usize>)
        ensures
            positions@ == positions_of_kind(self@.entries, kind@),
            forall|i: int| 0 <= i < positions@.len() ==> (#[trigger] positions@[i]) < self@.entries.len(),
    {
        let mut positions: Vec<usize> = Vec::new();
        let mut i: usize = 0;
        while i < self.entries.len()
            invariant
                i <= self.entries.len(),
                positions@ == positions_of_kind(self@.entries.take(i as int), kind@),
                forall|j: int| 0 <= j < positions@.len() ==> (#[trigger] positions@[j]) < i,
            decreases self.entries.len() - i,
        {
            proof {
                assert(self@.entries.take(i + 1).drop_last() =~= self@.entries.take(i as int));
                assert(self@.entries.take(i + 1).last() == self.entries@[i as int]@);
            }
            if self.entries[i].memory_type.matches(kind) {
                positions.push(i);
            }
            i = i + 1;
        }
        proof {
            assert(self@.entries.take(i as int) =~= self@.entries);
        }
        positions
    }

    /// As `search`, over the records whose kind matches `kind` only.
    pub fn search_by_type(&mut self, query: &[u32], kind: &MemoryType, top_k: usize) -> (hits: Vec<
        (i64, &MemoryEntry),
    >)
        ensures
            final(self)@ == (VectorStoreView {
                query_count: Self::next_count(old(self)@.query_count),
                ..old(self)@
            }),
            hits_are(
                hits@,
                old(self)@.entries,
                query@,
                search_by_type_spec(old(self)@, query@, kind@, top_k as nat),
            ),
    {
        self.count_query();
        if query.len() != self.dimension {
            return Vec::new();
        }
        let positions = self.matching_positions(kind);
        self.rank_candidates(query, &positions, top_k)
    }

    /// All records whose kind matches `kind`, in insertion order.
    pub fn get_by_type(&self, kind: &MemoryType) -> (found: Vec<&MemoryEntry>)
        ensures
            found@.len() == positions_of_kind(self@.entries, kind@).len(),
            forall|i: int|
                0 <= i < found@.len() ==> (#[trigger] found@[i])@ == self@.entries[positions_of_kind(
                    self@.entries,
                    kind@,
                )[i] as int],
    {
        let positions = self.matching_positions(kind);
        let mut found: Vec<&MemoryEntry> = Vec::new();
        let mut i: usize = 0;
        while i < positions.len()
            invariant
                i <= positions.len(),
                found@.len() == i,
                forall|j: int|
                    0 <= j < positions@.len() ==> (#[trigger] positions@[j]) < self.entries@.len(),
                forall|j: int|
                    0 <= j < i ==> (#[trigger] found@[j])@ == self@.entries[positions@[j] as int],
            decreases positions.len() - i,
        {
            found.push(&self.entries[positions[i]]);
            i = i + 1;
        }
        found
    }

    /// Removes the records created at or before `cutoff` and says how many.
    pub fn cleanup_old(&mut self, cutoff: i64) -> (removed: usize)
        requires
            old(self).wf(),
        ensures
            final(self).wf(),
            final(self)@ == (VectorStoreView {
                entries: old(self)@.entries.filter(|e: MemoryEntryView| e.timestamp > cutoff),
                ..old(self)@
            }),
            removed == old(self)@.entries.len() - final(self)@.entries.len(),
    {
        let ghost at_start = self@.entries;
        let ghost keep = |e: MemoryEntryView| e.timestamp > cutoff;
        let initial = self.entries.len();
        let mut i: usize = 0;
        let ghost mut seen: int = 0;
        proof {
            reveal(Seq::filter);
            assert(at_start.take(0).filter(keep) =~= self@.entries.take(0));
            assert(self@.entries.skip(0) =~= at_start.skip(0));
        }
        while i < self.entries.len()
            invariant
                i <= self.entries.len(),
                self.entries.len() <= initial,
                initial == at_start.len(),
                i <= seen <= at_start.len(),
                self.dimension == old(self).dimension,
                self.query_count == old(self).query_count,
                self@.entries.take(i as int) == at_start.take(seen).filter(keep),
                self@.entries.skip(i as int) == at_start.skip(seen),
                self.wf(),
                keep == (|e: MemoryEntryView| e.timestamp > cutoff),
            decreases self.entries.len() - i,
        {
            let ghost current = self@.entries;
            proof {
                reveal(Seq::filter);
                assert(current.skip(i as int).len() == at_start.skip(seen).len());
                assert(current.skip(i as int)[0] == at_start.skip(seen)[0]);
                assert(at_start.take(seen + 1).drop_last() =~= at_start.take(seen));
                assert(at_start.take(seen + 1).last() == at_start[seen]);
                assert(current[i as int] == at_start[seen]);
            }
            if self.entries[i].timestamp > cutoff {
                proof {
                    assert(current.take(i + 1) =~= current.take(i as int).push(current[i as int]));
                    assert(current.skip(i + 1) =~= current.skip(i as int).drop_first());
                    assert(at_start.skip(seen + 1) =~= at_start.skip(seen).drop_first());
                }
                i = i + 1;
            } else {
                self.entries.remove(i);
                proof {
                    assert(self@.entries =~= current.remove(i as int));
                    assert(self@.entries.take(i as int) =~= current.take(i as int));
                    assert(self@.entries.skip(i as int) =~= current.skip(i as int).drop_first());
                    assert(at_start.skip(seen + 1) =~= at_start.skip(seen).drop_first());
                }
            }
            proof {
                seen = seen + 1;
            }
        }
        proof {
            assert(self@.entries.skip(i as int).len() == 0);
            assert(at_start.skip(seen).len() == 0);
            assert(at_start.take(seen) =~= at_start);
            assert(self@.entries.take(i as int) =~= self@.entries);
        }
        initial - self.entries.len()
    }

    /// Removes the records whose kind matches `kind` and says how many.
    pub fn clear_by_type(&mut self, kind: &MemoryType) -> (removed: usize)
        requires
            old(self).wf(),
        ensures
            final(self).wf(),
            final(self)@ == (VectorStoreView {
                entries: old(self)@.entries.filter(
                    |e: MemoryEntryView| !same_kind(e.memory_type, kind@),
                ),
                ..old(self)@
            }),
            removed == old(self)@.entries.len() - final(self)@.entries.len(),
    {
        let ghost at_start = self@.entries;
        let ghost keep = |e: MemoryEntryView| !same_kind(e.memory_type, kind@);
        let initial = self.entries.len();
        let mut i: usize = 0;
        let ghost mut seen: int = 0;
        proof {
            reveal(Seq::filter);
            assert(at_start.take(0).filter(keep) =~= self@.entries.take(0));
            assert(self@.entries.skip(0) =~= at_start.skip(0));
        }
        while i < self.entries.len()
            invariant
                i <= self.entries.len(),
                self.entries.len() <= initial,
                initial == at_start.len(),
                i <= seen <= at_start.len(),
                self.dimension == old(self).dimension,
                self.query_count == old(self).query_count,
                self@.entries.take(i as int) == at_start.take(seen).filter(keep),
                self@.entries.skip(i as int) == at_start.skip(seen),
                self.wf(),
                keep == (|e: MemoryEntryView| !same_kind(e.memory_type, kind@)),
            decreases self.entries.len() - i,
        {
            let ghost current = self@.entries;
            proof {
                reveal(Seq::filter);
                assert(current.skip(i as int).len() == at_start.skip(seen).len());
                assert(current.skip(i as int)[0] == at_start.skip(seen)[0]);
                assert(at_start.take(seen + 1).drop_last() =~= at_start.take(seen));
                assert(at_start.take(seen + 1).last() == at_start[seen]);
                assert(current[i as int] == at_start[seen]);
                assert(current[i as int] == self.entries@[i as int]@);
            }
            if !self.entries[i].memory_type.matches(kind) {
                proof {
                    assert(current.take(i + 1) =~= current.take(i as int).push(current[i as int]));
                    assert(current.skip(i + 1) =~= current.skip(i as int).drop_first());
                    assert(at_start.skip(seen + 1) =~= at_start.skip(seen).drop_first());
                }
                i = i + 1;
            } else {
                self.entries.remove(i);
                proof {
                    assert(self@.entries =~= current.remove(i as int));
                    assert(self@.entries.take(i as int) =~= current.take(i as int));
                    assert(self@.entries.skip(i as int) =~= current.skip(i as int).drop_first());
                    assert(at_start.skip(seen + 1) =~= at_start.skip(seen).drop_first());
                }
            }
            proof {
                seen = seen + 1;
            }
        }
        proof {
            assert(self@.entries.skip(i as int).len() == 0);
            assert(at_start.skip(seen).len() == 0);
            assert(at_start.take(seen) =~= at_start);
            assert(self@.entries.take(i as int) =~= self@.entries);
        }
        initial - self.entries.len()
    }

    /// Counts of the records by kind, with the dimension and the query counter.
    pub fn stats(&self) -> (stats: VectorStoreStats)
        ensures
            stats.total_entries == self@.entries.len(),
            stats.episodic_count == positions_of_kind(
                self@.entries,
                MemoryTypeView::Episodic { session_id: 0, turn: 0 },
            ).len(),
            stats.semantic_count == positions_of_kind(
                self@.entries,
                MemoryTypeView::Semantic { category: Seq::empty() },
            ).len(),
            stats.short_term_count == positions_of_kind(
                self@.entries,
                MemoryTypeView::ShortTerm,
            ).len(),
            stats.dimension == self@.dimension,
            stats.query_count == self@.query_count,
    {
        let episodic = self.matching_positions(&MemoryType::Episodic { session_id: 0, turn: 0 });
        let semantic = self.matching_positions(&MemoryType::Semantic { category: String::new() });
        let short_term = self.matching_positions(&MemoryType::ShortTerm);
        VectorStoreStats {
            total_entries: self.entries.len(),
            episodic_count: episodic.len(),
            semantic_count: semantic.len(),
            short_term_count: short_term.len(),
            dimension: self.dimension,
            query_count: self.query_count,
        }
    }

    /// Removes every record and resets the query counter.
    pub fn clear(&mut self)
        ensures
            final(self).wf(),
            final(self)@ == (VectorStoreView {
                entries: Seq::empty(),
                dimension: old(self)@.dimension,
                query_count: 0,
            }),
    {
        self.entries.clear();
        self.query_count = 0;
        assert(self@.entries =~= Seq::empty());
    }

    /// Number of records.
    pub fn len(&self) -> (count: usize)
        ensures
            count == self@.entries.len(),
    {
        self.entries.len()
    }

    /// Whether the store holds no record.
    pub fn is_empty(&self) -> (empty: bool)
        ensures
            empty == (self@.entries.len() == 0),
    {
        self.entries.len() == 0
    }

    /// The length every embedding in this store has.
    pub fn dimension(&self) -> (dimension: usize)
        ensures
            dimension == self@.dimension,
    {
        self.dimension
    }

    /// The records, in insertion order.
    pub fn entries(&self) -> (entries: &Vec<MemoryEntry>)
        ensures
            entry_views(entries@) == self@.entries,
    {
        &self.entries
    }
}

/// The similarity of the record at `position` to `query`.
pub open spec fn score_at(entries: Seq<MemoryEntryView>, query: Seq<u32>, position: usize) -> int {
    cosine_spec(query, entries[position as int].embedding)
}

/// Search results come by descending similarity, and records that are equally
/// similar come in insertion order.
pub proof fn lemma_search_is_sorted(store: VectorStoreView, query: Seq<u32>, top_k: nat)
    requires
        store.entries.len() <= usize::MAX,
    ensures
        forall|i: int, j: int|
            0 <= i < j < search_spec(store, query, top_k).len() ==> {
                let first = #[trigger] search_spec(store, query, top_k)[i];
                let second = #[trigger] search_spec(store, query, top_k)[j];
                &&& first < store.entries.len()
                &&& second < store.entries.len()
                &&& score_at(store.entries, query, first) >= score_at(store.entries, query, second)
                &&& score_at(store.entries, query, first) == score_at(store.entries, query, second)
                    ==> first < second
            },
{
    if query.len() == store.dimension {
        let positions = all_positions(store.entries.len());
        let scores = Seq::new(
            positions.len(),
            |i: int| cosine_spec(query, store.entries[positions[i] as int].embedding) as i64,
        );
        lemma_ranking_is_ranked(scores);
        let order = ranking_spec(scores);
        let found = search_spec(store, query, top_k);
        assert forall|i: int, j: int| 0 <= i < j < found.len() implies {
            let first = #[trigger] found[i];
            let second = #[trigger] found[j];
            &&& first < store.entries.len()
            &&& second < store.entries.len()
            &&& score_at(store.entries, query, first) >= score_at(store.entries, query, second)
            &&& score_at(store.entries, query, first) == score_at(store.entries, query, second)
                ==> first < second
        } by {
            assert(order[i] < scores.len());
            assert(order[j] < scores.len());
            assert(found[i] == order[i]);
            assert(found[j] == order[j]);
            assert(crate::ranking::ranks_before(scores, order[i], order[j]));
            lemma_cosine_bounds(query, store.entries[order[i] as int].embedding);
            lemma_cosine_bounds(query, store.entries[order[j] as int].embedding);
        }
    }
}

/// Asking for one result more only adds to the end: the results for `top_k`
/// are the first results for `top_k + 1`.
pub proof fn lemma_search_prefix(store: VectorStoreView, query: Seq<u32>, top_k: nat)
    ensures
        search_spec(store, query, top_k).len() <= search_spec(store, query, top_k + 1).len(),
        search_spec(store, query, top_k) == search_spec(store, query, top_k + 1).take(
            search_spec(store, query, top_k).len() as int,
        ),
{
    let fewer = search_spec(store, query, top_k);
    let more = search_spec(store, query, top_k + 1);
    assert(fewer =~= more.take(fewer.len() as int));
}

/// Which kind is asked for plays no part beyond its variant.
pub proof fn lemma_positions_of_any_kind(
    entries: Seq<MemoryEntryView>,
    first: MemoryTypeView,
    second: MemoryTypeView,
)
    requires
        same_kind(first, second),
    ensures
        positions_of_kind(entries, first) == positions_of_kind(entries, second),
    decreases entries.len(),
{
    if entries.len() > 0 {
        lemma_positions_of_any_kind(entries.drop_last(), first, second);
    }
}

/// What a store is taken to weigh before its records, in bytes.
pub const STORE_WEIGHT: usize = 48;

/// What a record is taken to weigh before its text, its embedding and its
/// annotations, in bytes.
pub const ENTRY_WEIGHT: usize = 136;

/// What an annotation is taken to weigh, in bytes.
pub const ANNOTATION_WEIGHT: usize = 56;

/// A rough weight of one record in bytes: a fixed part, the bytes of the
/// text, four bytes per component, and a fixed part per annotation.
pub open spec fn entry_weight_spec(entry: MemoryEntryView) -> int {
    ENTRY_WEIGHT + (vstd::utf8::encode_utf8(entry.text).len() as usize) + 4 * entry.embedding.len()
        + ANNOTATION_WEIGHT * entry.metadata.len()
}

/// A rough weight of a list of records in bytes.
pub open spec fn entries_weight_spec(entries: Seq<MemoryEntryView>) -> int
    decreases entries.len(),
{
    if entries.len() == 0 {
        0
    } else {
        entries_weight_spec(entries.drop_last()) + entry_weight_spec(entries.last())
    }
}

impl VectorStore {
    /// A rough weight of the store in bytes, or the largest count there is
    /// where the weight is beyond counting.
    pub fn size_bytes(&self) -> (weight: usize)
        ensures
            weight == if STORE_WEIGHT + entries_weight_spec(self@.entries) > usize::MAX {
                usize::MAX as int
            } else {
                STORE_WEIGHT + entries_weight_spec(self@.entries)
            },
    {
        let mut total: u128 = STORE_WEIGHT as u128;
        let mut beyond = false;
        let mut i: usize = 0;
        let ghost all = self@.entries;
        while i < self.entries.len()
            invariant
                i <= self.entries.len(),
                all == self@.entries,
                entries_weight_spec(all.take(i as int)) >= 0,
                !beyond ==> total == STORE_WEIGHT + entries_weight_spec(all.take(i as int))
                    && total <= usize::MAX,
                beyond ==> STORE_WEIGHT + entries_weight_spec(all.take(i as int)) > usize::MAX,
            decreases self.entries.len() - i,
        {
            proof {
                assert(all.take(i + 1).drop_last() =~= all.take(i as int));
                assert(all.take(i + 1).last() == self.entries@[i as int]@);
            }
            let entry = &self.entries[i];
            let slice = entry.text.as_str();
            let text = slice.len();
            let weight: u128 = ENTRY_WEIGHT as u128 + text as u128 + 4 * (
            entry.embedding.len() as u128) + (ANNOTATION_WEIGHT as u128) * (
            entry.metadata.len() as u128);
            proof {
                assert(slice@ == entry@.text);
                assert(text == vstd::utf8::encode_utf8(entry@.text).len() as usize);
                assert(weight == entry_weight_spec(entry@));
            }
            if !beyond {
                if total + weight > usize::MAX as u128 {
                    beyond = true;
                } else {
                    total = total + weight;
                }
            }
            i = i + 1;
        }
        proof {
            assert(all.take(i as int) =~= all);
        }
        if beyond {
            usize::MAX
        } else {
            total as usize
        }
    }
}

} // verus!
