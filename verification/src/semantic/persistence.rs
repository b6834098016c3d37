//! The concept archive: the records that are written out for concepts, and
//! how concepts are turned into them and back.

use vstd::prelude::*;
use crate::error::MemoryError;
use crate::fixed::clamp_unit;
use crate::fixed::clamp_unit_spec;
use crate::ids::format_id;
use crate::ids::hyphenated_spec;
use crate::ids::parse_uuid;
use crate::ids::parsed_id_spec;
use crate::metadata::Metadata;
use crate::semantic::concept::Concept;
use crate::semantic::concept::ConceptCategory;
use crate::semantic::concept::ConceptView;
use crate::text::append_str;
use crate::text::lowercase_spec;
use crate::text::owned;
use crate::text::string_of;

verus! {

/// The file that holds the concept archive.
pub open spec fn archive_file_spec() -> Seq<char> {
    "semantic_memory.json"@
}

/// The directory in which the archive lies unless another is named.
pub open spec fn default_directory_spec() -> Seq<char> {
    "memory_data"@
}

/// A value of the annotations of a written-out concept: a text, or anything
/// else that the document may hold in its place.
#[derive(Debug, Clone)]
pub enum MetadataValue {
    Text(String),
    Other,
}

/// The mathematical value of a `MetadataValue`.
pub enum MetadataValueView {
    Text(Seq<char>),
    Other,
}

impl View for MetadataValue {
    type V = MetadataValueView;

    open spec fn view(&self) -> MetadataValueView {
        match self {
            MetadataValue::Text(text) => MetadataValueView::Text(text@),
            MetadataValue::Other => MetadataValueView::Other,
        }
    }
}

/// The values of the annotations of a written-out concept.
pub open spec fn value_views(pairs: Seq<(String, MetadataValue)>) -> Seq<
    (Seq<char>, MetadataValueView),
> {
    Seq::new(pairs.len(), |i: int| (pairs[i].0@, pairs[i].1@))
}

/// One concept as it is written out. The embedding and the related concepts
/// are not written. The annotations are `None` where the document holds
/// something other than a mapping in their place.
#[derive(Debug, Clone)]
pub struct SerializedConcept {
    pub id: String,
    pub text: String,
    pub category: String,
    pub confidence: i64,
    pub source: String,
    pub metadata: Option<Vec<(String, MetadataValue)>>,
    pub created_at: i64,
    pub updated_at: i64,
    pub usage_count: u32,
}

/// The mathematical value of a `SerializedConcept`.
pub struct SerializedConceptView {
    pub id: Seq<char>,
    pub text: Seq<char>,
    pub category: Seq<char>,
    pub confidence: i64,
    pub source: Seq<char>,
    pub metadata: Option<Seq<(Seq<char>, MetadataValueView)>>,
    pub created_at: i64,
    pub updated_at: i64,
    pub usage_count: u32,
}

impl View for SerializedConcept {
    type V = SerializedConceptView;

    open spec fn view(&self) -> SerializedConceptView {
        SerializedConceptView {
            id: self.id@,
            text: self.text@,
            category: self.category@,
            confidence: self.confidence,
            source: self.source@,
            metadata: match self.metadata {
                Some(pairs) => Some(value_views(pairs@)),
                None => None,
            },
            created_at: self.created_at,
            updated_at: self.updated_at,
            usage_count: self.usage_count,
        }
    }
}

/// The concept archive: its head and the concepts.
#[derive(Debug, Clone)]
pub struct SemanticStorage {
    pub version: String,
    pub created_at: i64,
    pub last_saved_at: i64,
    pub total_concepts: usize,
    pub concepts: Vec<SerializedConcept>,
}

/// Annotations as they are written out: every value a text.
pub open spec fn written_metadata_spec(pairs: Seq<(Seq<char>, Seq<char>)>) -> Seq<
    (Seq<char>, MetadataValueView),
> {
    Seq::new(pairs.len(), |i: int| (pairs[i].0, MetadataValueView::Text(pairs[i].1)))
}

/// Annotations as they are read: the pairs whose value is a text, in order.
pub open spec fn read_metadata_spec(pairs: Seq<(Seq<char>, MetadataValueView)>) -> Seq<
    (Seq<char>, Seq<char>),
>
    decreases pairs.len(),
{
    if pairs.len() == 0 {
        Seq::empty()
    } else {
        let earlier = read_metadata_spec(pairs.drop_last());
        match pairs.last().1 {
            MetadataValueView::Text(text) => earlier.push((pairs.last().0, text)),
            MetadataValueView::Other => earlier,
        }
    }
}

/// A concept as it is written out.
pub open spec fn serialized_concept_spec(concept: ConceptView) -> SerializedConceptView {
    SerializedConceptView {
        id: hyphenated_spec(concept.id),
        text: concept.text,
        category: concept.category.name_spec(),
        confidence: concept.confidence,
        source: concept.source,
        metadata: Some(written_metadata_spec(concept.metadata)),
        created_at: concept.created_at,
        updated_at: concept.updated_at,
        usage_count: concept.usage_count,
    }
}

/// The concept that a record denotes, or nothing where its identifier cannot
/// be read. A category that is not known reads as general; the confidence
/// is held within nothing and one; the embedding and the related concepts
/// start out empty.
pub open spec fn deserialized_concept_spec(record: SerializedConceptView) -> Option<ConceptView> {
    match parsed_id_spec(record.id) {
        Some(id) => Some(
            ConceptView {
                id,
                text: record.text,
                category: match ConceptCategory::of_name_spec(lowercase_spec(record.category)) {
                    Some(category) => category,
                    None => ConceptCategory::General,
                },
                confidence: clamp_unit_spec(record.confidence as int) as i64,
                source: record.source,
                embedding: Seq::empty(),
                metadata: match record.metadata {
                    Some(pairs) => read_metadata_spec(pairs),
                    None => Seq::empty(),
                },
                created_at: record.created_at,
                updated_at: record.updated_at,
                usage_count: record.usage_count,
                related_concepts: Seq::empty(),
            },
        ),
        None => None,
    }
}

/// Annotations read back as they were written.
pub proof fn lemma_metadata_round_trip(pairs: Seq<(Seq<char>, Seq<char>)>)
    ensures
        read_metadata_spec(written_metadata_spec(pairs)) == pairs,
    decreases pairs.len(),
{
    let written = written_metadata_spec(pairs);
    if pairs.len() > 0 {
        lemma_metadata_round_trip(pairs.drop_last());
        assert(written.drop_last() =~= written_metadata_spec(pairs.drop_last()));
        assert(written.last() == (pairs.last().0, MetadataValueView::Text(pairs.last().1)));
        assert(pairs.drop_last().push(pairs.last()) =~= pairs);
    } else {
        assert(read_metadata_spec(written) =~= pairs);
    }
}

/// Writes out one concept.
pub fn serialize_concept(concept: &Concept) -> (record: SerializedConcept)
    ensures
        record@ == serialized_concept_spec(concept@),
{
    let mut metadata: Vec<(String, MetadataValue)> = Vec::new();
    let mut i: usize = 0;
    while i < concept.metadata.pairs.len()
        invariant
            i <= concept.metadata.pairs.len(),
            metadata@.len() == i,
            forall|j: int|
                0 <= j < i ==> (#[trigger] metadata@[j]).0@ == concept.metadata.pairs@[j].0@
                    && metadata@[j].1@ == MetadataValueView::Text(concept.metadata.pairs@[j].1@),
        decreases concept.metadata.pairs.len() - i,
    {
        metadata.push(
            (
                concept.metadata.pairs[i].0.clone(),
                MetadataValue::Text(concept.metadata.pairs[i].1.clone()),
            ),
        );
        i = i + 1;
    }
    proof {
        assert(value_views(metadata@) =~= written_metadata_spec(concept@.metadata));
    }
    SerializedConcept {
        id: format_id(concept.id),
        text: concept.text.clone(),
        category: concept.category.to_string(),
        confidence: concept.confidence,
        source: concept.source.clone(),
        metadata: Some(metadata),
        created_at: concept.created_at,
        updated_at: concept.updated_at,
        usage_count: concept.usage_count,
    }
}

/// Reads the annotations of a record.
fn read_metadata(pairs: &Vec<(String, MetadataValue)>) -> (metadata: Metadata)
    ensures
        metadata@ == read_metadata_spec(value_views(pairs@)),
{
    let ghost views = value_views(pairs@);
    let mut metadata = Metadata::new();
    let mut i: usize = 0;
    assert(metadata@ =~= read_metadata_spec(views.take(0)));
    while i < pairs.len()
        invariant
            i <= pairs.len(),
            views == value_views(pairs@),
            metadata@ == read_metadata_spec(views.take(i as int)),
        decreases pairs.len() - i,
    {
        proof {
            assert(views.take(i + 1).drop_last() =~= views.take(i as int));
            assert(views.take(i + 1).last() == (pairs@[i as int].0@, pairs@[i as int].1@));
        }
        match &pairs[i].1 {
            MetadataValue::Text(text) => {
                metadata.insert(pairs[i].0.clone(), text.clone());
            },
            MetadataValue::Other => {},
        }
        i = i + 1;
    }
    proof {
        assert(views.take(i as int) =~= views);
    }
    metadata
}

/// Reads one concept from its record. Fails where the identifier cannot be read.
pub fn deserialize_concept(record: SerializedConcept) -> (outcome: Result<Concept, MemoryError>)
    ensures
        match outcome {
            Ok(concept) => deserialized_concept_spec(record@) == Some(concept@) && concept.wf(),
            Err(error) => deserialized_concept_spec(record@) is None && error
                == MemoryError::InvalidId,
        },
{
    let id = match parse_uuid(record.id.as_str()) {
        Ok(id) => id,
        Err(_) => {
            return Err(MemoryError::InvalidId);
        },
    };
    let category = match ConceptCategory::parse(record.category.as_str()) {
        Some(category) => category,
        None => ConceptCategory::General,
    };
    let metadata = match &record.metadata {
        Some(pairs) => read_metadata(pairs),
        None => Metadata::new(),
    };
    Ok(
        Concept {
            id,
            text: record.text,
            category,
            confidence: clamp_unit(record.confidence),
            source: record.source,
            embedding: Vec::new(),
            metadata,
            created_at: record.created_at,
            updated_at: record.updated_at,
            usage_count: record.usage_count,
            related_concepts: Vec::new(),
        },
    )
}

/// The values of a list of written-out concepts.
pub open spec fn concept_record_views(records: Seq<SerializedConcept>) -> Seq<SerializedConceptView> {
    Seq::new(records.len(), |i: int| records[i]@)
}

/// The concepts that a list of records denotes: those whose identifier can
/// be read, in order.
pub open spec fn loaded_spec(records: Seq<SerializedConceptView>) -> Seq<ConceptView>
    decreases records.len(),
{
    if records.len() == 0 {
        Seq::empty()
    } else {
        let earlier = loaded_spec(records.drop_last());
        match deserialized_concept_spec(records.last()) {
            Some(concept) => earlier.push(concept),
            None => earlier,
        }
    }
}

/// The concept archive for the given concepts, saved at `now`.
pub fn concepts_storage(concepts: &Vec<Concept>, now: i64) -> (storage: SemanticStorage)
    ensures
        storage.version@ == "1.0"@,
        storage.created_at == now,
        storage.last_saved_at == now,
        storage.total_concepts == concepts@.len(),
        storage.concepts@.len() == concepts@.len(),
        forall|i: int|
            0 <= i < concepts@.len() ==> (#[trigger] storage.concepts@[i])@
                == serialized_concept_spec(concepts@[i]@),
{
    let mut records: Vec<SerializedConcept> = Vec::new();
    let mut i: usize = 0;
    while i < concepts.len()
        invariant
            i <= concepts.len(),
            records@.len() == i,
            forall|j: int|
                0 <= j < i ==> (#[trigger] records@[j])@ == serialized_concept_spec(concepts@[j]@),
        decreases concepts.len() - i,
    {
        records.push(serialize_concept(&concepts[i]));
        i = i + 1;
    }
    SemanticStorage {
        version: owned("1.0"),
        created_at: now,
        last_saved_at: now,
        total_concepts: concepts.len(),
        concepts: records,
    }
}

/// Reads the concepts of an archive; records whose identifier cannot be read
/// are passed over.
pub fn load_concepts(storage: SemanticStorage) -> (concepts: Vec<Concept>)
    ensures
        crate::semantic::manager::concept_views(concepts@) == loaded_spec(
            concept_record_views(storage.concepts@),
        ),
        forall|i: int| 0 <= i < concepts@.len() ==> (#[trigger] concepts@[i]).wf(),
{
    let ghost views = concept_record_views(storage.concepts@);
    let mut records = storage.concepts;
    let mut concepts: Vec<Concept> = Vec::new();
    let ghost mut seen: int = 0;
    assert(crate::semantic::manager::concept_views(concepts@) =~= loaded_spec(views.take(0)));
    assert(views.skip(0) =~= views);
    while records.len() > 0
        invariant
            0 <= seen <= views.len(),
            views == concept_record_views(storage.concepts@),
            concept_record_views(records@) == views.skip(seen),
            crate::semantic::manager::concept_views(concepts@) == loaded_spec(views.take(seen)),
            forall|i: int| 0 <= i < concepts@.len() ==> (#[trigger] concepts@[i]).wf(),
        decreases records.len(),
    {
        let ghost before = concept_record_views(records@);
        let record = records.remove(0);
        proof {
            assert(before.len() == views.skip(seen).len());
            assert(before[0] == views.skip(seen)[0]);
            assert(record@ == views[seen]);
            assert(concept_record_views(records@) =~= before.drop_first());
            assert(views.skip(seen).drop_first() =~= views.skip(seen + 1));
            assert(views.take(seen + 1).drop_last() =~= views.take(seen));
            assert(views.take(seen + 1).last() == views[seen]);
        }
        match deserialize_concept(record) {
            Ok(concept) => {
                let ghost so_far = crate::semantic::manager::concept_views(concepts@);
                concepts.push(concept);
                proof {
                    assert(crate::semantic::manager::concept_views(concepts@) =~= so_far.push(
                        concept@,
                    ));
                }
            },
            Err(_) => {},
        }
        proof {
            seen = seen + 1;
        }
    }
    proof {
        assert(views.skip(seen).len() == 0);
        assert(views.take(seen) =~= views);
    }
    concepts
}

/// Where the concept archive lies.
#[derive(Debug, Clone)]
pub struct SemanticPersistenceManager {
    storage_path: String,
}

impl SemanticPersistenceManager {
    /// The path of the archive in the directory `directory`.
    pub open spec fn path_spec(directory: Seq<char>) -> Seq<char> {
        directory + "/"@ + archive_file_spec()
    }

    /// A manager for the archive in the given directory, or in the usual one.
    pub fn new(base_path: Option<&str>) -> (manager: SemanticPersistenceManager)
        ensures
            manager.path() == Self::path_spec(
                match base_path {
                    Some(directory) => directory@,
                    None => default_directory_spec(),
                },
            ),
    {
        let mut path: Vec<char> = Vec::new();
        match base_path {
            Some(directory) => {
                append_str(&mut path, directory);
            },
            None => {
                append_str(&mut path, "memory_data");
            },
        }
        append_str(&mut path, "/");
        append_str(&mut path, "semantic_memory.json");
        SemanticPersistenceManager { storage_path: string_of(path.as_slice()) }
    }

    /// The path of the archive.
    pub closed spec fn path(&self) -> Seq<char> {
        self.storage_path@
    }

    /// The path of the archive.
    pub fn storage_path(&self) -> (path: &String)
        ensures
            path@ == self.path(),
    {
        &self.storage_path
    }
}

} // verus!
