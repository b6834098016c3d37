use ziggurat_mind::embedder::{Embedder, MemoryFailure};
use ziggurat_mind::error::MemoryError;
use ziggurat_mind::semantic::concept::ConceptCategory;
use ziggurat_mind::semantic::graph::{KnowledgeGraph, Triple};
use ziggurat_mind::semantic::manager::{clean_text, SemanticMemoryManager};
use ziggurat_mind::semantic::negation::{is_contradiction, remove_negation};
use ziggurat_mind::semantic::relations::relation_candidates;

const DAY: i64 = 86_400_000;

fn bits(values: &[f32]) -> Vec<u32> {
    values.iter().map(|v| v.to_bits()).collect()
}

fn add(
    manager: &mut SemanticMemoryManager,
    text: &str,
    category: ConceptCategory,
    confidence: Option<i64>,
    embedding: &[f32],
    id: u128,
    now: i64,
) -> u128 {
    manager
        .add_concept_at(text.to_string(), category, "manual".to_string(), confidence, bits(embedding), id, now)
        .id
}

#[test]
fn same_statement_twice_keeps_the_higher_confidence() {
    let mut manager = SemanticMemoryManager::new();
    add(&mut manager, "I love pizza", ConceptCategory::Preferences, Some(900_000), &[1.0, 2.0], 1, 10);
    let second = manager.add_concept_at(
        "I love pizza".to_string(),
        ConceptCategory::Preferences,
        "manual".to_string(),
        Some(500_000),
        bits(&[1.0, 2.0]),
        2,
        20,
    );
    assert_eq!(manager.count(), 1);
    assert_eq!(manager.concepts()[0].confidence, 900_000);
    assert_eq!(manager.concepts()[0].updated_at, 10);
    assert_eq!(second.id, 1);
    assert_eq!(second.confidence, 900_000);
}

#[test]
fn same_statement_twice_is_one_concept_however_faint_the_embedding() {
    for embedding in [vec![1.0e-6f32], vec![3.0e-30, -1.0e-30], vec![2.0e30, 1.0e30]] {
        let mut manager = SemanticMemoryManager::new();
        add(&mut manager, "I love pizza", ConceptCategory::Preferences, Some(900_000), &embedding, 1, 10);
        add(&mut manager, "I love pizza", ConceptCategory::Preferences, Some(500_000), &embedding, 2, 20);
        assert_eq!(manager.count(), 1);
        assert_eq!(manager.concepts()[0].confidence, 900_000);
    }
    // only the zero vector is like nothing, itself included
    let mut manager = SemanticMemoryManager::new();
    add(&mut manager, "I love pizza", ConceptCategory::Preferences, Some(900_000), &[0.0, 0.0], 1, 10);
    add(&mut manager, "I love pizza", ConceptCategory::Preferences, Some(500_000), &[0.0, 0.0], 2, 20);
    assert_eq!(manager.count(), 2);
}

#[test]
fn duplicate_with_higher_confidence_raises_it() {
    let mut manager = SemanticMemoryManager::new();
    add(&mut manager, "I love pizza", ConceptCategory::Preferences, Some(500_000), &[1.0, 2.0], 1, 10);
    // nearly the same direction: similarity above 0.95
    let merged = manager.add_concept_at(
        "Pizza is what I love".to_string(),
        ConceptCategory::Facts,
        "other".to_string(),
        Some(800_000),
        bits(&[1.0, 2.1]),
        2,
        20,
    );
    assert_eq!(manager.count(), 1);
    assert_eq!(merged.id, 1);
    assert_eq!(merged.confidence, 800_000);
    assert_eq!(merged.updated_at, 20);
    assert_eq!(merged.text, "I love pizza");
    assert_eq!(manager.concepts()[0].confidence, 800_000);
    // without a stated confidence nothing changes
    let again = manager.add_concept_at(
        "I love pizza".to_string(),
        ConceptCategory::Preferences,
        "manual".to_string(),
        None,
        bits(&[1.0, 2.0]),
        3,
        30,
    );
    assert_eq!(again.confidence, 800_000);
    assert_eq!(again.updated_at, 20);
    assert_eq!(manager.count(), 1);
}

#[test]
fn contradiction_keeps_one_concept_with_the_higher_confidence() {
    // the first statement is surer: it stands
    let mut manager = SemanticMemoryManager::new();
    add(&mut manager, "I love sushi", ConceptCategory::Preferences, Some(800_000), &[1.0, 0.0], 1, 10);
    let kept = manager.add_concept_at(
        "I don't love sushi".to_string(),
        ConceptCategory::Preferences,
        "manual".to_string(),
        Some(600_000),
        bits(&[0.0, 1.0]),
        2,
        20,
    );
    assert_eq!(manager.count(), 1);
    assert_eq!(kept.id, 1);
    assert_eq!(manager.concepts()[0].text, "I love sushi");
    assert_eq!(manager.concepts()[0].confidence, 800_000);

    // the second statement is strictly surer: it replaces the first
    let mut manager = SemanticMemoryManager::new();
    add(&mut manager, "I love sushi", ConceptCategory::Preferences, Some(600_000), &[1.0, 0.0], 1, 10);
    let kept = manager.add_concept_at(
        "I don't love sushi".to_string(),
        ConceptCategory::Preferences,
        "manual".to_string(),
        Some(800_000),
        bits(&[0.0, 1.0]),
        2,
        20,
    );
    assert_eq!(manager.count(), 1);
    assert_eq!(kept.id, 2);
    assert_eq!(manager.concepts()[0].text, "I don't love sushi");
    assert_eq!(manager.concepts()[0].confidence, 800_000);
    assert_eq!(manager.get_concepts_by_category(&ConceptCategory::Preferences).len(), 1);

    // equally sure: the first stands
    let mut manager = SemanticMemoryManager::new();
    add(&mut manager, "I love sushi", ConceptCategory::Preferences, None, &[1.0, 0.0], 1, 10);
    add(&mut manager, "I don't love sushi", ConceptCategory::Preferences, None, &[0.0, 1.0], 2, 20);
    assert_eq!(manager.count(), 1);
    assert_eq!(manager.concepts()[0].id, 1);
    assert_eq!(manager.concepts()[0].confidence, 500_000);
}

#[test]
fn new_concepts_are_cleaned_indexed_and_clamped() {
    let mut manager = SemanticMemoryManager::new();
    let concept = manager.add_concept_at(
        "  Tea  is hot , really .  ".to_string(),
        ConceptCategory::Facts,
        "s1".to_string(),
        Some(5_000_000),
        bits(&[1.0, 0.0]),
        7,
        99,
    );
    assert_eq!(concept.text, "Tea is hot, really.");
    assert_eq!(concept.confidence, 1_000_000);
    assert_eq!(concept.source, "s1");
    assert_eq!(concept.created_at, 99);
    assert_eq!(concept.usage_count, 0);
    assert_eq!(concept.embedding, bits(&[1.0, 0.0]));
    add(&mut manager, "Always say hello", ConceptCategory::Rules, None, &[0.0, 1.0], 8, 100);
    add(&mut manager, "Water is wet", ConceptCategory::Facts, None, &[1.0, -1.0], 9, 101);
    assert_eq!(manager.count(), 3);
    let facts: Vec<u128> = manager
        .get_concepts_by_category(&ConceptCategory::Facts)
        .iter()
        .map(|c| c.id)
        .collect();
    assert_eq!(facts, vec![7, 9]);
    assert!(manager.get_concepts_by_category(&ConceptCategory::Goals).is_empty());
    assert_eq!(manager.get_concept(&8).unwrap().text, "Always say hello");
    assert!(manager.get_concept(&1).is_none());
    // an identifier that is in use adds nothing
    let same = manager.add_concept_at(
        "Something else".to_string(),
        ConceptCategory::Goals,
        "s".to_string(),
        None,
        bits(&[-1.0, -1.0]),
        8,
        102,
    );
    assert_eq!(same.text, "Always say hello");
    assert_eq!(manager.count(), 3);
    assert_eq!(clean_text(" a  b .").iter().collect::<String>(), "a b.");
}

#[test]
fn search_ranks_by_similarity_within_a_category() {
    let mut manager = SemanticMemoryManager::new();
    add(&mut manager, "east", ConceptCategory::Facts, None, &[1.0, 0.0], 1, 1);
    add(&mut manager, "north", ConceptCategory::Rules, None, &[0.0, 1.0], 2, 2);
    add(&mut manager, "north-east", ConceptCategory::Facts, None, &[1.0, 1.0], 3, 3);
    add(&mut manager, "west", ConceptCategory::Facts, None, &[-1.0, 0.0], 4, 4);
    let query = bits(&[0.0, 1.0]);
    let found: Vec<(i64, u128)> =
        manager.search_embedded(&query, 10, None).iter().map(|(s, c)| (*s, c.id)).collect();
    assert_eq!(found, vec![(1_000_000, 2), (707_106, 3), (0, 1), (0, 4)]);
    let found: Vec<(i64, u128)> = manager
        .search_by_category_embedded(&query, ConceptCategory::Facts, 2)
        .iter()
        .map(|(s, c)| (*s, c.id))
        .collect();
    assert_eq!(found, vec![(707_106, 3), (0, 1)]);
    assert_eq!(manager.search_by_text_embedded(&query, 1).len(), 1);
    assert!(manager.search_embedded(&query, 0, None).is_empty());
    assert!(manager.search_embedded(&query, 5, Some(ConceptCategory::Goals)).is_empty());
}

#[test]
fn decay_forgets_what_falls_below_the_floor() {
    let mut manager = SemanticMemoryManager::new();
    add(&mut manager, "a goal", ConceptCategory::Goals, Some(110_000), &[1.0, 0.0], 1, 0);
    add(&mut manager, "a fact", ConceptCategory::Facts, Some(900_000), &[0.0, 1.0], 2, 0);
    add(&mut manager, "a skill", ConceptCategory::Skills, Some(900_000), &[1.0, -1.0], 3, 0);
    // effective views first, nothing changes
    let stats = manager.get_decay_stats_at(30 * DAY);
    assert_eq!(stats.total_concepts, 3);
    // goal: two periods, 0.11 * 0.85^2 = 0.079475, shown at its floor 0.1: not below nine tenths
    // fact: one period, 0.9 * 0.95 = 0.855: not below 0.81
    assert_eq!(stats.decayed_concepts, 0);
    assert_eq!(stats.low_confidence_concepts, 1);
    assert_eq!(stats.category_stats.len(), 6);
    assert_eq!(stats.category_stats[0].total, 1);
    assert_eq!(stats.category_stats[0].avg_confidence, 855_000);
    assert_eq!(stats.category_stats[4].total, 1);
    assert_eq!(stats.category_stats[4].low_confidence, 1);
    assert_eq!(stats.category_stats[4].avg_confidence, 100_000);
    assert_eq!(stats.category_stats[1].total, 0);
    assert_eq!(stats.category_stats[1].avg_confidence, 0);
    let strongest: Vec<(i64, u128)> = manager
        .get_concepts_with_decay_at(2, 30 * DAY)
        .iter()
        .map(|(s, c)| (*s, c.id))
        .collect();
    assert_eq!(strongest, vec![(900_000, 3), (855_000, 2)]);

    let kept = manager.apply_temporal_decay_at(30 * DAY);
    assert_eq!(kept, 2);
    let left: Vec<(u128, i64, i64)> =
        manager.concepts().iter().map(|c| (c.id, c.confidence, c.updated_at)).collect();
    assert_eq!(left, vec![(2, 855_000, 30 * DAY), (3, 900_000, 0)]);
    assert!(manager.get_concepts_by_category(&ConceptCategory::Goals).is_empty());
    assert_eq!(manager.get_concepts_by_category(&ConceptCategory::Facts).len(), 1);
}

#[test]
fn relations_need_known_ends() {
    let mut manager = SemanticMemoryManager::new();
    add(&mut manager, "cats", ConceptCategory::General, None, &[1.0, 0.0], 11, 1);
    add(&mut manager, "animals", ConceptCategory::General, None, &[0.0, 1.0], 12, 1);
    assert_eq!(
        manager.add_relation_at(&5, "is_a", &12, None, 9),
        Err(MemoryError::SubjectNotFound { id: 5 })
    );
    assert_eq!(
        manager.add_relation_at(&11, "is_a", &6, None, 9),
        Err(MemoryError::ObjectNotFound { id: 6 })
    );
    assert_eq!(manager.get_graph_stats().total_triples, 0);
    assert_eq!(manager.add_relation_at(&11, "is_a", &12, Some(2_000_000), 9), Ok(11));
    assert_eq!(manager.add_relation_at(&11, "likes", &12, None, 9), Ok(11));
    assert_eq!(manager.get_concept(&11).unwrap().related_concepts, vec![12]);
    assert_eq!(manager.get_concept(&12).unwrap().related_concepts, vec![11]);
    assert_eq!(manager.find_outgoing_relations(&11).len(), 2);
    assert_eq!(manager.find_incoming_relations(&11).len(), 0);
    assert_eq!(manager.find_incoming_relations(&12)[0].confidence, 1_000_000);
    assert_eq!(manager.find_incoming_relations(&12)[1].confidence, 500_000);
    let stats = manager.get_graph_stats();
    assert_eq!(stats.total_triples, 2);
    assert_eq!(stats.total_predicates, 2);
    assert_eq!(stats.avg_degree, 2_000_000);
    let related: Vec<(u128, String, i64)> = manager
        .find_related_concepts_at(&12, 9)
        .iter()
        .map(|r| (r.concept, r.predicate.to_string(), r.confidence))
        .collect();
    assert_eq!(
        related,
        vec![(11, "is_a".to_string(), 1_000_000), (11, "likes".to_string(), 500_000)]
    );
    assert_eq!(
        MemoryError::SubjectNotFound { id: 5 }.message(),
        "Subject concept not found: 00000000-0000-0000-0000-000000000005"
    );
}

#[test]
fn relation_confidence_fades_with_a_half_life_of_ninety_days() {
    let triple = Triple::at(0, 1, "likes".to_string(), 2).with_confidence(800_000);
    assert_eq!(triple.effective_confidence_at(0), 800_000);
    assert_eq!(triple.effective_confidence_at(90 * DAY), 400_000);
    assert_eq!(triple.effective_confidence_at(180 * DAY), 200_000);
    // one day: 0.8 * 0.992328
    assert_eq!(triple.effective_confidence_at(DAY), 793_862);
    assert_eq!(triple.effective_confidence_at(91 * DAY), 396_931);
    assert_eq!(triple.effective_confidence_at(-DAY), 800_000);
    let mut last = i64::MAX;
    for day in 0..400 {
        let now = triple.effective_confidence_at(day * DAY);
        assert!(now <= last);
        last = now;
    }
}

#[test]
fn graph_lookups() {
    let mut graph = KnowledgeGraph::new();
    assert_eq!(graph.add_triple(Triple::at(0, 1, "likes".to_string(), 2)), 1);
    graph.add_triple(Triple::at(0, 2, "likes".to_string(), 3));
    graph.add_triple(Triple::at(0, 1, "has".to_string(), 3));
    assert_eq!(graph.find_by_subject(&1).len(), 2);
    assert_eq!(graph.find_by_object(&3).len(), 2);
    assert_eq!(graph.find_by_predicate("likes").len(), 2);
    assert_eq!(graph.find_by_predicate("wants").len(), 0);
    let related: Vec<(u128, String)> = graph
        .find_related_concepts_at(&2, 0)
        .iter()
        .map(|r| (r.concept, r.predicate.to_string()))
        .collect();
    assert_eq!(related, vec![(3, "likes".to_string()), (1, "likes".to_string())]);
    let stats = graph.get_stats();
    assert_eq!((stats.total_triples, stats.total_predicates, stats.avg_degree), (3, 2, 1_500_000));
    assert_eq!(KnowledgeGraph::new().get_stats().avg_degree, 0);
}

#[test]
fn contradictions() {
    assert!(is_contradiction("I love sushi", "I don't love sushi"));
    assert!(is_contradiction("I DON'T LOVE SUSHI", "i love sushi"));
    assert!(is_contradiction("Я люблю суши", "Я не люблю суши"));
    assert!(is_contradiction("He likes tea", "He does not like tea"));
    // same polarity
    assert!(!is_contradiction("I love sushi", "I love pizza"));
    assert!(!is_contradiction("I don't love sushi", "I do not love pizza"));
    // no sentiment at all
    assert!(!is_contradiction("The sky is blue", "The sky is not blue"));
    // different roots
    assert!(!is_contradiction("I love cats", "I don't hate dogs"));
    assert_eq!(remove_negation("i don't love sushi"), "i love sushi");
    assert_eq!(remove_negation("he does not like tea "), "he does like tea");
    assert_eq!(remove_negation("я не люблю суши"), "я люблю суши");
    assert_eq!(remove_negation("nothing to see"), "nothing to see");
}

#[test]
fn relations_found_in_text() {
    let found: Vec<(String, String, String)> = relation_candidates("Rex is a dog")
        .into_iter()
        .map(|c| (c.subject, c.predicate, c.object))
        .collect();
    assert_eq!(found, vec![("rex".to_string(), "is_a".to_string(), "dog".to_string())]);
    let found: Vec<(String, String, String)> = relation_candidates("Anna likes Green Tea")
        .into_iter()
        .map(|c| (c.subject, c.predicate, c.object))
        .collect();
    assert_eq!(found, vec![("anna".to_string(), "likes".to_string(), "green tea".to_string())]);
    let found: Vec<(String, String, String)> = relation_candidates("Кот любит рыбу")
        .into_iter()
        .map(|c| (c.subject, c.predicate, c.object))
        .collect();
    assert_eq!(found, vec![("кот".to_string(), "likes".to_string(), "рыбу".to_string())]);
    assert!(relation_candidates("nothing here").is_empty());
    // one line per match, patterns in their order
    let found = relation_candidates("Tom wants cake\nTom has money");
    let predicates: Vec<&str> = found.iter().map(|c| c.predicate.as_str()).collect();
    assert_eq!(predicates, vec!["wants", "has"]);
}

#[test]
fn relations_are_linked_to_known_or_new_concepts() {
    let mut manager = SemanticMemoryManager::new();
    manager.add_concept_at(
        "Rex".to_string(),
        ConceptCategory::Facts,
        "s1".to_string(),
        None,
        bits(&[1.0, 0.0]),
        1,
        5,
    );
    let candidates = relation_candidates("Rex is a dog");
    let subject = manager.link_relation_at(
        &candidates[0],
        "s1",
        bits(&[1.0, 0.0]),
        bits(&[0.0, 1.0]),
        21,
        22,
        6,
    );
    assert_eq!(subject, 1);
    assert_eq!(manager.count(), 2);
    let dog = manager.get_concept(&22).unwrap();
    assert_eq!(dog.text, "dog");
    assert_eq!(dog.category, ConceptCategory::General);
    assert_eq!(dog.confidence, 500_000);
    assert_eq!(dog.related_concepts, vec![1]);
    let relations = manager.find_outgoing_relations(&1);
    assert_eq!(relations.len(), 1);
    assert_eq!(relations[0].predicate, "is_a");
    assert_eq!(relations[0].object, 22);
    assert_eq!(relations[0].confidence, 700_000);
    // another source: the known concept does not count
    let found = manager.find_or_create_concept_at("rex", "s2", bits(&[1.0, 0.0]), 30, 7);
    assert_eq!(found, 30);
    assert_eq!(manager.count(), 3);
    assert_eq!(manager.find_or_create_concept_at("rex", "s2", bits(&[1.0, 0.0]), 31, 8), 30);
}

struct Letters;

impl Embedder for Letters {
    fn embed(&self, text: &str) -> Result<Vec<u32>, String> {
        if text.is_empty() {
            return Err("nothing to embed".to_string());
        }
        // one component per letter of the alphabet: how often it occurs
        let mut counts = vec![0.0f32; 26];
        for c in text.to_lowercase().chars() {
            if c.is_ascii_lowercase() {
                counts[(c as u8 - b'a') as usize] += 1.0;
            }
        }
        Ok(bits(&counts))
    }

    fn embedding_dim(&self) -> usize {
        26
    }
}

struct Canned;

impl ziggurat_mind::semantic::manager::ConceptExtractor for Canned {
    fn extract(
        &mut self,
        user_query: &str,
        _assistant_response: &str,
        _session_id: &str,
    ) -> Result<Vec<ziggurat_mind::semantic::manager::ExtractedConcept>, String> {
        if user_query.is_empty() {
            return Err("nothing said".to_string());
        }
        Ok(vec![
            ziggurat_mind::semantic::manager::ExtractedConcept {
                text: " The user owns a cat ".to_string(),
                category: "FACTS".to_string(),
                confidence: 800_000,
            },
            ziggurat_mind::semantic::manager::ExtractedConcept {
                text: "   ".to_string(),
                category: "facts".to_string(),
                confidence: 900_000,
            },
        ])
    }
}

#[test]
fn concepts_through_an_embedder() {
    let embedder = Letters;
    let mut manager = SemanticMemoryManager::new();
    let first = manager
        .add_concept(&embedder, "I love pizza".to_string(), ConceptCategory::Preferences, "manual".to_string(), Some(900_000))
        .unwrap();
    let second = manager
        .add_concept(&embedder, "  I love  pizza ".to_string(), ConceptCategory::Preferences, "manual".to_string(), Some(500_000))
        .unwrap();
    assert_eq!(manager.count(), 1);
    assert_eq!(second.id, first.id);
    assert_eq!(manager.concepts()[0].confidence, 900_000);
    assert_eq!(manager.concepts()[0].embedding, embedder.embed("I love pizza").unwrap());
    let failed = manager.add_concept(&embedder, "  ".to_string(), ConceptCategory::Facts, "manual".to_string(), None);
    assert_eq!(failed.err(), Some(MemoryFailure::Embedder { message: "nothing to embed".to_string() }));
    assert_eq!(manager.count(), 1);

    manager
        .add_concept(&embedder, "Zebras buzz".to_string(), ConceptCategory::Facts, "manual".to_string(), None)
        .unwrap();
    let found: Vec<u128> = manager.search(&embedder, "pizza", 1, None).iter().map(|(_, c)| c.id).collect();
    assert_eq!(found, vec![first.id]);
    assert!(manager.search(&embedder, "", 5, None).is_empty());
    assert_eq!(manager.search_by_text(&embedder, "zebra", 5).len(), 2);
    assert_eq!(manager.search_by_category(&embedder, "zebra", ConceptCategory::Facts, 5).len(), 1);
}

#[test]
fn relations_and_extraction_through_an_embedder() {
    let embedder = Letters;
    let mut manager = SemanticMemoryManager::new();
    assert_eq!(manager.extract_relations_from_text(&embedder, "Rex is a dog", "s1"), Ok(1));
    assert_eq!(manager.extract_relations_from_text(&embedder, "Rex likes bones", "s1"), Ok(1));
    assert_eq!(manager.extract_relations_from_text(&embedder, "nothing to see", "s1"), Ok(0));
    // rex, dog and bones; rex is found again the second time
    assert_eq!(manager.count(), 3);
    let rex = manager.known_concept("rex", "s1").unwrap();
    assert_eq!(manager.known_concept("rex", "s2"), None);
    assert_eq!(manager.find_or_create_concept(&embedder, "rex", "s1"), Ok(rex));
    assert_eq!(manager.find_outgoing_relations(&rex).len(), 2);
    assert_eq!(manager.get_concept(&rex).unwrap().related_concepts.len(), 2);
    assert_eq!(manager.get_graph_stats().total_triples, 2);

    let mut extractor = Canned;
    let taken = manager.extract_from_dialogue(&mut extractor, &embedder, "My cat likes fish", "Nice", "s9");
    assert_eq!(taken, Ok(1));
    assert!(manager.known_concept("the user owns a cat", "s9").is_some());
    // "my cat likes fish nice": one relation more, with two new concepts
    assert_eq!(manager.get_graph_stats().total_triples, 3);
    assert_eq!(manager.count(), 6);
    let failed = manager.extract_from_dialogue(&mut extractor, &embedder, "", "", "s9");
    assert_eq!(failed, Err(MemoryFailure::Extractor { message: "nothing said".to_string() }));
    assert_eq!(manager.count(), 6);
}
