use ziggurat_mind::error::MemoryError;
use ziggurat_mind::metadata::Metadata;
use ziggurat_mind::ranking::rank;
use ziggurat_mind::vector_store::{MemoryEntry, MemoryType, VectorStore};

fn bits(values: &[f32]) -> Vec<u32> {
    values.iter().map(|v| v.to_bits()).collect()
}

#[test]
fn test_vector_store_basic() {
    let mut store = VectorStore::new(3);

    let entry1 = MemoryEntry::new("hello".to_string(), bits(&[1.0, 0.0, 0.0]), MemoryType::ShortTerm);
    let entry2 = MemoryEntry::new("world".to_string(), bits(&[0.0, 1.0, 0.0]), MemoryType::ShortTerm);

    store.add(entry1).unwrap();
    store.add(entry2).unwrap();

    assert_eq!(store.len(), 2);
    assert_eq!(store.dimension(), 3);
}

#[test]
fn test_search() {
    let mut store = VectorStore::new(3);

    store
        .add(MemoryEntry::new("hello".to_string(), bits(&[1.0, 0.0, 0.0]), MemoryType::ShortTerm))
        .unwrap();
    store
        .add(MemoryEntry::new("world".to_string(), bits(&[0.0, 1.0, 0.0]), MemoryType::ShortTerm))
        .unwrap();

    let results = store.search(&bits(&[1.0, 0.0, 0.0]), 2);
    assert_eq!(results.len(), 2);
    assert_eq!(results[0].0, 1_000_000);
    assert_eq!(results[1].0, 0);
}

#[test]
fn test_memory_type_filtering() {
    let mut store = VectorStore::new(3);

    store
        .add(MemoryEntry::new(
            "dialogue".to_string(),
            bits(&[1.0, 0.0, 0.0]),
            MemoryType::Episodic { session_id: uuid::Uuid::new_v4().as_u128(), turn: 1 },
        ))
        .unwrap();
    store
        .add(MemoryEntry::new(
            "knowledge".to_string(),
            bits(&[0.0, 1.0, 0.0]),
            MemoryType::Semantic { category: "science".to_string() },
        ))
        .unwrap();

    let episodic_entries =
        store.get_by_type(&MemoryType::Episodic { session_id: uuid::Uuid::nil().as_u128(), turn: 0 });
    assert_eq!(episodic_entries.len(), 1);

    let semantic_entries = store.get_by_type(&MemoryType::Semantic { category: String::new() });
    assert_eq!(semantic_entries.len(), 1);
}

fn entry(id: u128, text: &str, embedding: &[f32], kind: MemoryType, at: i64) -> MemoryEntry {
    MemoryEntry::with_identity(id, at, text.to_string(), bits(embedding), kind)
}

#[test]
fn add_fails_exactly_on_another_dimension() {
    let mut store = VectorStore::new(2);
    for len in 0..5usize {
        let outcome = store.add(entry(len as u128, "t", &vec![1.0; len], MemoryType::ShortTerm, 0));
        if len == 2 {
            assert_eq!(outcome, Ok(()));
        } else {
            assert_eq!(outcome, Err(MemoryError::DimensionMismatch { expected: 2, actual: len }));
        }
    }
    assert_eq!(store.len(), 1);
    let mut none = VectorStore::new(0);
    assert_eq!(none.add(entry(1, "t", &[], MemoryType::ShortTerm, 0)), Ok(()));
}

#[test]
fn batch_stops_at_the_first_misfit() {
    let mut store = VectorStore::new(1);
    let batch = vec![
        entry(1, "a", &[1.0], MemoryType::ShortTerm, 0),
        entry(2, "b", &[1.0, 2.0], MemoryType::ShortTerm, 0),
        entry(3, "c", &[1.0], MemoryType::ShortTerm, 0),
    ];
    assert!(store.add_batch(batch).is_err());
    assert_eq!(store.len(), 1);
    assert_eq!(store.entries()[0].id, 1);
    assert_eq!(store.add_batch(vec![entry(4, "d", &[2.0], MemoryType::ShortTerm, 0)]), Ok(()));
    assert_eq!(store.add_batch(vec![]), Ok(()));
    assert_eq!(store.len(), 2);
}

fn compass() -> VectorStore {
    let mut store = VectorStore::new(2);
    store.add(entry(1, "east", &[1.0, 0.0], MemoryType::ShortTerm, 10)).unwrap();
    store.add(entry(2, "north", &[0.0, 1.0], MemoryType::Episodic { session_id: 5, turn: 0 }, 20)).unwrap();
    store.add(entry(3, "east again", &[2.0, 0.0], MemoryType::Episodic { session_id: 6, turn: 3 }, 30)).unwrap();
    store.add(entry(4, "north-east", &[1.0, 1.0], MemoryType::Semantic { category: "x".to_string() }, 40)).unwrap();
    store.add(entry(5, "west", &[-1.0, 0.0], MemoryType::ShortTerm, 50)).unwrap();
    store
}

#[test]
fn search_is_sorted_ties_keep_insertion_order_and_grows_by_prefix() {
    let mut store = compass();
    let query = bits(&[1.0, 0.0]);
    let all: Vec<(i64, u128)> = store.search(&query, 10).iter().map(|(s, e)| (*s, e.id)).collect();
    assert_eq!(
        all,
        vec![(1_000_000, 1), (1_000_000, 3), (707_106, 4), (0, 2), (-1_000_000, 5)]
    );
    for k in 0..6 {
        let fewer: Vec<(i64, u128)> = store.search(&query, k).iter().map(|(s, e)| (*s, e.id)).collect();
        let more: Vec<(i64, u128)> = store.search(&query, k + 1).iter().map(|(s, e)| (*s, e.id)).collect();
        assert_eq!(fewer.len(), k.min(5));
        assert_eq!(&more[..fewer.len()], &fewer[..]);
        assert!(fewer.windows(2).all(|w| w[0].0 >= w[1].0));
    }
    assert!(store.search(&bits(&[1.0]), 3).is_empty());
    // every search counts, also the ones that find nothing
    assert_eq!(store.stats().query_count, 14);
}

#[test]
fn search_by_type_matches_the_variant_only() {
    let mut store = compass();
    let query = bits(&[0.0, 1.0]);
    let found: Vec<u128> = store
        .search_by_type(&query, &MemoryType::Episodic { session_id: 0, turn: 0 }, 5)
        .iter()
        .map(|(_, e)| e.id)
        .collect();
    assert_eq!(found, vec![2, 3]);
    let found: Vec<(i64, usize)> =
        store.locate_by_type(&query, &MemoryType::ShortTerm, 1);
    assert_eq!(found, vec![(0, 0)]);
    assert_eq!(store.get_by_type(&MemoryType::ShortTerm).len(), 2);
    let stats = store.stats();
    assert_eq!(
        (stats.total_entries, stats.episodic_count, stats.semantic_count, stats.short_term_count),
        (5, 2, 1, 2)
    );
    assert_eq!((stats.dimension, stats.query_count), (2, 2));
    assert_eq!(
        stats.format(),
        "📊 VectorStore Stats:\n   Entries: 5 total (2 episodic, 1 semantic, 2 short-term)\n   Dimension: 2D\n   Queries: 2"
    );
}

#[test]
fn cleanup_and_clearing() {
    let mut store = compass();
    assert_eq!(store.cleanup_old(9), 0);
    assert_eq!(store.cleanup_old(20), 2);
    let left: Vec<u128> = store.entries().iter().map(|e| e.id).collect();
    assert_eq!(left, vec![3, 4, 5]);
    assert_eq!(store.clear_by_type(&MemoryType::Episodic { session_id: 99, turn: 9 }), 1);
    assert_eq!(store.clear_by_type(&MemoryType::Episodic { session_id: 99, turn: 9 }), 0);
    assert_eq!(store.len(), 2);
    assert!(!store.is_empty());
    store.search(&bits(&[1.0, 0.0]), 1);
    store.clear();
    assert!(store.is_empty());
    assert_eq!(store.stats().query_count, 0);
    assert_eq!(store.dimension(), 2);
}

#[test]
fn ranking_is_stable_and_descending() {
    assert_eq!(rank(&vec![]), Vec::<usize>::new());
    assert_eq!(rank(&vec![5]), vec![0]);
    assert_eq!(rank(&vec![1, 3, 2, 3, 1, 3]), vec![1, 3, 5, 2, 0, 4]);
    assert_eq!(rank(&vec![i64::MIN, i64::MAX, 0]), vec![1, 2, 0]);
    assert_eq!(rank(&vec![7, 7, 7]), vec![0, 1, 2]);
}

#[test]
fn metadata_keeps_the_latest_value() {
    let mut metadata = Metadata::new();
    assert!(metadata.get("a").is_none());
    metadata.insert("a".to_string(), "1".to_string());
    metadata.insert("b".to_string(), "2".to_string());
    metadata.insert("a".to_string(), "3".to_string());
    assert_eq!(metadata.get("a").unwrap(), "3");
    assert_eq!(metadata.get("b").unwrap(), "2");
    assert_eq!(metadata.len(), 3);
    let copy = metadata.duplicate();
    assert_eq!(copy.get("a").unwrap(), "3");
    let e = MemoryEntry::with_identity(1, 2, "t".to_string(), vec![], MemoryType::ShortTerm)
        .with_metadata("k".to_string(), "v".to_string());
    assert_eq!(e.duplicate().metadata.get("k").unwrap(), "v");
}

#[test]
fn weight_of_a_store() {
    let mut store = VectorStore::new(2);
    assert_eq!(store.size_bytes(), 48);
    store
        .add(
            MemoryEntry::with_identity(1, 0, "héllo".to_string(), bits(&[1.0, 2.0]), MemoryType::ShortTerm)
                .with_metadata("a".to_string(), "b".to_string()),
        )
        .unwrap();
    // fixed part, six bytes of text, two components, one annotation
    assert_eq!(store.size_bytes(), 48 + 136 + 6 + 8 + 56);
}
