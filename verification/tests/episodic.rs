use ziggurat_mind::embedder::{Embedder, MemoryFailure};
use ziggurat_mind::episodic::manager::{days_before, exchange_query, DialogueManager};
use ziggurat_mind::episodic::recall::format_recollection;
use ziggurat_mind::episodic::session::{Session, Turn};
use ziggurat_mind::error::MemoryError;
use ziggurat_mind::vector_store::MemoryType;

const DAY: i64 = 86_400_000;

fn bits(values: &[f32]) -> Vec<u32> {
    values.iter().map(|v| v.to_bits()).collect()
}

struct Lengths;

impl Embedder for Lengths {
    fn embed(&self, text: &str) -> Result<Vec<u32>, String> {
        if text.contains("unspeakable") {
            return Err("no embedding".to_string());
        }
        let words = text.split_whitespace().count() as f32;
        let letters = text.chars().count() as f32;
        Ok(bits(&[1.0, words, letters]))
    }

    fn embedding_dim(&self) -> usize {
        3
    }
}

#[test]
fn test_dialogue_manager() {
    let embedder = Lengths;
    let mut manager = DialogueManager::new(embedder.embedding_dim(), "test_persona".to_string());

    manager
        .add_exchange(
            &embedder,
            "Hello, how are you?".to_string(),
            "I'm doing well, thank you!".to_string(),
        )
        .unwrap();

    let stats = manager.stats();
    assert_eq!(stats.current_session_turns, 1);

    let context = manager.get_current_context(5);
    assert!(context.contains("Hello, how are you?"));
    assert!(context.contains("I'm doing well, thank you!"));
}

#[test]
fn current_context_holds_the_exchange_verbatim() {
    let mut manager = DialogueManager::with_identity(2, "p".to_string(), 100, 1, 0);
    manager
        .add_exchange_at(
            "What's my favorite food?".to_string(),
            "You said pizza earlier".to_string(),
            bits(&[1.0, 0.0]),
            77,
            5,
        )
        .unwrap();
    let context = manager.get_current_context(5);
    assert!(context.contains("What's my favorite food?"));
    assert!(context.contains("You said pizza earlier"));
    assert_eq!(
        context,
        "User: What's my favorite food?\nAssistant: You said pizza earlier"
    );
}

#[test]
fn exchange_is_recorded_with_its_annotations() {
    let id = 0xa1a2a3a4_b1b2_c1c2_d1d2_d3d4d5d6d7d8u128;
    let mut manager = DialogueManager::with_identity(2, "sage".to_string(), 100, id, 1_000);
    manager
        .add_exchange_at("first".to_string(), "one".to_string(), bits(&[1.0, 0.0]), 11, 2_000)
        .unwrap();
    manager
        .add_exchange_at("second".to_string(), "two".to_string(), bits(&[0.0, 1.0]), 12, 3_000)
        .unwrap();
    let session = manager.current_session();
    assert_eq!(session.turn_count(), 2);
    assert_eq!(session.updated_at, 3_000);
    assert_eq!(session.created_at, 1_000);
    assert_eq!(session.turns[1].user, "second");
    assert_eq!(session.turns[1].timestamp, 3_000);

    let entries = manager.vector_store().entries();
    assert_eq!(entries.len(), 2);
    let entry = &entries[1];
    assert_eq!(entry.id, 12);
    assert_eq!(entry.text, "second");
    assert_eq!(entry.timestamp, 3_000);
    assert!(matches!(entry.memory_type, MemoryType::Episodic { session_id, turn } if session_id == id && turn == 1));
    assert_eq!(
        entry.metadata.get("session_id").unwrap(),
        "a1a2a3a4-b1b2-c1c2-d1d2-d3d4d5d6d7d8"
    );
    assert_eq!(entry.metadata.get("turn").unwrap(), "1");
    assert_eq!(entry.metadata.get("persona").unwrap(), "sage");
    assert_eq!(entry.metadata.get("user_query").unwrap(), "second");
    assert_eq!(entry.metadata.get("assistant_response").unwrap(), "two");
    assert!(entry.metadata.get("missing").is_none());
}

#[test]
fn wrong_dimension_is_rejected_but_the_turn_stays() {
    let mut manager = DialogueManager::with_identity(3, "p".to_string(), 100, 1, 0);
    let outcome =
        manager.add_exchange_at("u".to_string(), "a".to_string(), bits(&[1.0, 0.0]), 5, 10);
    assert_eq!(outcome, Err(MemoryError::DimensionMismatch { expected: 3, actual: 2 }));
    assert_eq!(manager.current_session().turn_count(), 1);
    assert_eq!(manager.vector_store().len(), 0);
    assert_eq!(
        outcome.unwrap_err().message(),
        "Embedding dimension mismatch: expected 3, got 2"
    );
}

#[test]
fn history_stays_within_its_bound() {
    let mut manager = DialogueManager::with_identity(2, "p".to_string(), 3, 1, 0);
    for n in 0..10u128 {
        let now = 1_000 * (n as i64 + 1);
        let started = manager.start_new_session_at("p".to_string(), 100 + n, now);
        assert_eq!(started, 100 + n);
        assert_eq!(manager.current_session().id, 100 + n);
        assert!(manager.session_history().len() + 1 <= 3);
    }
    // the two most recently updated sessions are kept, oldest first
    let ids: Vec<u128> = manager.session_history().iter().map(|s| s.id).collect();
    assert_eq!(ids, vec![107, 108]);
    assert_eq!(manager.stats().total_sessions, 3);
}

#[test]
fn history_bound_with_fresh_sessions() {
    let mut manager = DialogueManager::with_config(2, "p".to_string(), 4);
    for _ in 0..12 {
        manager.start_new_session("q".to_string());
        assert!(manager.session_history().len() + 1 <= 4);
    }
    assert_eq!(manager.session_history().len(), 3);
    assert_eq!(manager.current_session().persona_name, "q");
}

#[test]
fn eviction_takes_the_session_updated_longest_ago() {
    let mut manager = DialogueManager::with_identity(1, "p".to_string(), 3, 1, 500);
    manager.start_new_session_at("p".to_string(), 2, 100); // archives 1 (updated 500)
    manager.start_new_session_at("p".to_string(), 3, 300); // archives 2 (updated 100)
    // archiving 3 (updated 300) makes three in the history: 2, the oldest, goes
    manager.start_new_session_at("p".to_string(), 4, 400);
    let ids: Vec<u128> = manager.session_history().iter().map(|s| s.id).collect();
    assert_eq!(ids, vec![1, 3]);
}

#[test]
fn eviction_purges_the_records_of_exchanges() {
    let mut manager = DialogueManager::with_identity(1, "p".to_string(), 2, 1, 0);
    manager.add_exchange_at("a".to_string(), "b".to_string(), bits(&[1.0]), 9, 10).unwrap();
    assert_eq!(manager.vector_store().len(), 1);
    manager.start_new_session_at("p".to_string(), 2, 20);
    // one session in the history, nothing evicted, nothing purged
    assert_eq!(manager.session_history().len(), 1);
    assert_eq!(manager.vector_store().len(), 1);
    manager.start_new_session_at("p".to_string(), 3, 30);
    assert_eq!(manager.session_history().len(), 1);
    assert_eq!(manager.vector_store().len(), 0);
}

#[test]
fn new_session_drops_records_older_than_a_week() {
    let mut manager = DialogueManager::with_identity(1, "p".to_string(), 100, 1, 0);
    manager.add_exchange_at("old".to_string(), "x".to_string(), bits(&[1.0]), 9, 0).unwrap();
    manager.add_exchange_at("edge".to_string(), "x".to_string(), bits(&[1.0]), 10, DAY).unwrap();
    manager.add_exchange_at("new".to_string(), "x".to_string(), bits(&[1.0]), 11, DAY + 1).unwrap();
    manager.start_new_session_at("p".to_string(), 2, 8 * DAY);
    let texts: Vec<&str> =
        manager.vector_store().entries().iter().map(|e| e.text.as_str()).collect();
    assert_eq!(texts, vec!["new"]);
}

#[test]
fn load_session_swaps_with_the_current_one() {
    let mut manager = DialogueManager::with_identity(1, "p".to_string(), 100, 1, 0);
    manager.add_exchange_at("in one".to_string(), "x".to_string(), bits(&[1.0]), 9, 10).unwrap();
    manager.start_new_session_at("p".to_string(), 2, 20);
    manager.start_new_session_at("p".to_string(), 3, 30);
    assert!(!manager.load_session(42));
    assert!(!manager.load_session(3));
    assert!(manager.load_session(1));
    assert_eq!(manager.current_session().id, 1);
    assert_eq!(manager.current_session().turn_count(), 1);
    let ids: Vec<u128> = manager.session_history().iter().map(|s| s.id).collect();
    assert_eq!(ids, vec![3, 2]);
    assert!(!manager.load_session(1));
}

#[test]
fn delete_session_removes_it_and_the_records() {
    let mut manager = DialogueManager::with_identity(1, "p".to_string(), 100, 1, 0);
    manager.add_exchange_at("a".to_string(), "b".to_string(), bits(&[1.0]), 9, 10).unwrap();
    manager.start_new_session_at("p".to_string(), 2, 20);
    assert!(!manager.delete_session(7));
    assert_eq!(manager.vector_store().len(), 1);
    assert!(manager.delete_session(1));
    assert_eq!(manager.session_history().len(), 0);
    assert_eq!(manager.vector_store().len(), 0);
    assert!(!manager.delete_session(1));
}

#[test]
fn starting_a_session_under_a_known_identifier_replaces_it() {
    let mut manager = DialogueManager::with_identity(1, "p".to_string(), 100, 1, 0);
    manager.start_new_session_at("p".to_string(), 2, 20);
    manager.start_new_session_at("p".to_string(), 1, 30);
    let ids: Vec<u128> = manager.session_history().iter().map(|s| s.id).collect();
    assert_eq!(ids, vec![2]);
    assert_eq!(manager.current_session().id, 1);
    manager.start_new_session_at("p".to_string(), 1, 40);
    let ids: Vec<u128> = manager.session_history().iter().map(|s| s.id).collect();
    assert_eq!(ids, vec![2]);
}

#[test]
fn format_context_caps_and_cuts() {
    let mut session = Session::with_identity(1, 0, "p".to_string());
    session.add_turn_at(Turn::at(1, "abcdefghij".to_string(), "0123456789".to_string()), 1);
    session.add_turn_at(Turn::at(2, "second".to_string(), "reply".to_string()), 2);
    // each side capped at 40 / 4 = 10 characters; whole text longer than 40
    let whole = "User: abcdefghij\nAssistant: 0123456789\n\nUser: second\nAssistant: reply\n\n";
    assert_eq!(session.format_context(5, 1000), whole.trim_end());
    // over budget: cut behind the last exchange that fits
    assert_eq!(session.format_context(5, 40), "User: abcdefghij\nAssistant: 0123456789");
    assert_eq!(session.format_context(5, 45), "User: abcdefghij\nAssistant: 0123456789");
    // a budget of 38 characters caps each side at 9
    assert_eq!(session.format_context(5, 38), "User: abcdefghi\nAssistant: 012345678");
    // the first exchange does not fit: cut before the last line break
    assert_eq!(session.format_context(5, 30), "User: abcdefg");
    // sides capped at 2 characters
    assert_eq!(session.format_context(1, 8), "User: se");
    assert_eq!(session.format_context(1, 20), "User: secon");
    assert_eq!(session.format_context(1, 200), "User: second\nAssistant: reply");
    assert_eq!(session.format_context(0, 200), "");
}

#[test]
fn last_turns_and_combined_text() {
    let mut session = Session::with_identity(1, 0, "p".to_string());
    assert!(session.last_turn().is_none());
    for n in 0..4 {
        session.add_turn_at(Turn::at(n, format!("u{}", n), format!("a{}", n)), n);
    }
    assert_eq!(session.last_turn().unwrap().user, "u3");
    let last: Vec<&str> = session.last_turns(2).iter().map(|t| t.user.as_str()).collect();
    assert_eq!(last, vec!["u2", "u3"]);
    assert_eq!(session.last_turns(10).len(), 4);
    assert_eq!(session.last_turns(0).len(), 0);
    assert_eq!(session.turns[0].combined_text(), "User: u0\nAssistant: a0");
    // the clock running backwards does not move the last update backwards
    session.add_turn_at(Turn::at(1, "late".to_string(), "x".to_string()), 1);
    assert_eq!(session.updated_at, 3);
}

#[test]
fn recollection_lines() {
    assert_eq!(
        format_recollection(873_456, "I like tea"),
        "[Relevance: 87%] FROM PAST: User said \"I like tea\""
    );
    assert_eq!(
        format_recollection(1_100_000, "x"),
        "[Relevance: 110%] FROM PAST: User said \"x\""
    );
    assert_eq!(format_recollection(-5, "x"), "[Relevance: 0%] FROM PAST: User said \"x\"");
    // over budget: cut back to just behind the last quotation mark within 200 characters
    let long = "word ".repeat(60);
    assert_eq!(
        format_recollection(500_000, &long),
        "[Relevance: 50%] FROM PAST: User said \"\"..."
    );
    let quoted = format!("he said \"no\" and then {}", "z".repeat(300));
    assert_eq!(
        format_recollection(500_000, &quoted),
        "[Relevance: 50%] FROM PAST: User said \"he said \"no\"\"..."
    );
}

#[test]
fn keyword_search_scores_by_share_of_keywords() {
    let mut manager = DialogueManager::with_identity(1, "p".to_string(), 100, 1, 0);
    manager
        .add_exchange_at("I love Italian pizza".to_string(), "Noted".to_string(), bits(&[1.0]), 1, 1)
        .unwrap();
    manager
        .add_exchange_at("Weather is fine".to_string(), "Pizza weather".to_string(), bits(&[1.0]), 2, 2)
        .unwrap();
    manager
        .add_exchange_at("Nothing here".to_string(), "at all".to_string(), bits(&[1.0]), 3, 3)
        .unwrap();
    // keywords: "favorite", "Italian", "pizza" ("my" and "is" are too short)
    let found = manager.keyword_search("is my favorite Italian pizza", 5);
    let seen: Vec<(i64, usize)> = found.iter().map(|c| (c.score, c.position)).collect();
    assert_eq!(seen, vec![(666_666, 0), (333_333, 1)]);
    assert_eq!(manager.keyword_search("is my favorite Italian pizza", 1).len(), 1);
    assert!(manager.keyword_search("a an the", 5).is_empty());
    assert!(manager.keyword_search("", 5).is_empty());
    assert!(manager.keyword_search("pizza", 0).is_empty());
}

#[test]
fn hybrid_recall_merges_deduplicates_and_filters() {
    let mut manager = DialogueManager::with_identity(2, "p".to_string(), 100, 1, 0);
    manager
        .add_exchange_at("I love pizza".to_string(), "ok".to_string(), bits(&[1.0, 0.0]), 1, 1)
        .unwrap();
    manager
        .add_exchange_at("The weather is cold".to_string(), "yes".to_string(), bits(&[0.0, 1.0]), 2, 2)
        .unwrap();
    manager
        .add_exchange_at("TEST entry pizza".to_string(), "x".to_string(), bits(&[1.0, 0.0]), 3, 3)
        .unwrap();
    manager
        .add_exchange_at("Half way".to_string(), "x".to_string(), bits(&[1.0, 1.0]), 4, 4)
        .unwrap();
    let before = manager.vector_store().stats().query_count;
    let lines = manager.find_similar_dialogues_embedded("pizza", &bits(&[1.0, 0.0]), 5);
    // "I love pizza": similarity 1.0 and keyword 1.0 + 0.1; one line, the higher score
    // "TEST entry pizza": placeholder, dropped
    // "Half way": similarity 0.707106
    // "The weather is cold": similarity 0, below the noise floor
    assert_eq!(
        lines,
        vec![
            "[Relevance: 110%] FROM PAST: User said \"I love pizza\"".to_string(),
            "[Relevance: 70%] FROM PAST: User said \"Half way\"".to_string(),
        ]
    );
    assert_eq!(manager.vector_store().stats().query_count, before + 1);
    let lines = manager.find_similar_dialogues_embedded("pizza", &bits(&[1.0, 0.0]), 1);
    assert_eq!(lines.len(), 1);
    assert!(manager.find_similar_dialogues_embedded("pizza", &bits(&[1.0, 0.0]), 0).is_empty());
    // a query embedding of the wrong dimension leaves the keywords only
    let lines = manager.find_similar_dialogues_embedded("weather", &bits(&[1.0]), 5);
    assert_eq!(
        lines,
        vec!["[Relevance: 110%] FROM PAST: User said \"The weather is cold\"".to_string()]
    );
}

#[test]
fn exchanges_and_recall_through_an_embedder() {
    let embedder = Lengths;
    let mut manager = DialogueManager::with_identity(3, "p".to_string(), 100, 1, 0);
    manager.add_exchange(&embedder, "tea time".to_string(), "yes".to_string()).unwrap();
    // what is embedded is the user's side, introduced as a query
    let entry = &manager.vector_store().entries()[0];
    assert_eq!(entry.embedding, embedder.embed("User query: tea time").unwrap());
    assert_eq!(manager.vector_store().len(), 1);

    // no embedding: the turn stays, nothing is stored
    let failed = manager.add_exchange(&embedder, "unspeakable".to_string(), "?".to_string());
    assert_eq!(failed, Err(MemoryFailure::Embedder { message: "no embedding".to_string() }));
    assert_eq!(failed.unwrap_err().message(), "Embedding failed: no embedding");
    assert_eq!(manager.current_session().turn_count(), 2);
    assert_eq!(manager.vector_store().len(), 1);

    // an embedder of another dimension: the turn stays, the record is refused
    let mut narrow = DialogueManager::with_identity(2, "p".to_string(), 100, 1, 0);
    let refused = narrow.add_exchange(&embedder, "tea".to_string(), "yes".to_string());
    assert!(matches!(refused, Err(MemoryFailure::Memory { .. })));
    assert_eq!(narrow.current_session().turn_count(), 1);
    assert_eq!(narrow.vector_store().len(), 0);

    let lines = manager.find_similar_dialogues(&embedder, "User query: tea time", 3).unwrap();
    assert_eq!(lines, vec!["[Relevance: 100%] FROM PAST: User said \"tea time\"".to_string()]);
    assert!(manager.find_similar_dialogues(&embedder, "unspeakable", 3).is_err());
    assert_eq!(manager.vector_store().stats().query_count, 1);
}

#[test]
fn an_exchange_is_embedded_as_a_labelled_query() {
    assert_eq!(exchange_query("tea time"), "User query: tea time");
    assert_eq!(exchange_query(""), "User query: ");
    assert_eq!(exchange_query("чай"), "User query: чай");
}

#[test]
fn a_new_session_has_an_identifier_of_its_own() {
    let mut manager = DialogueManager::new(2, "p".to_string());
    let mut seen = vec![manager.current_session().id];
    for _ in 0..20 {
        let before = manager.current_session().id;
        let started = manager.start_new_session("p".to_string());
        assert_ne!(started, before);
        assert_eq!(manager.current_session().id, started);
        assert_eq!(manager.current_session().turn_count(), 0);
        // a random identifier of version 4
        assert_eq!(started & 0x0000_0000_0000_f000_c000_0000_0000_0000, 0x0000_0000_0000_4000_8000_0000_0000_0000);
        assert!(!seen.contains(&started));
        seen.push(started);
    }
    assert_eq!(manager.session_history().len(), 20);
}

#[test]
fn days_before_an_instant() {
    assert_eq!(days_before(10 * DAY, 7), 3 * DAY);
    assert_eq!(days_before(0, 1), -DAY);
    assert_eq!(days_before(5, 0), 5);
    assert_eq!(days_before(i64::MIN, 1), i64::MIN);
    assert_eq!(days_before(i64::MAX, -1), i64::MAX);
    assert_eq!(days_before(0, i64::MAX), i64::MIN);
    assert_eq!(days_before(0, i64::MIN), i64::MAX);
}
