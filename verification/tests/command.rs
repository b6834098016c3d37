use ziggurat_mind::semantic::command::{parse_count, parse_semantic_command, SemanticCommand};
use ziggurat_mind::semantic::concept::ConceptCategory;
use ziggurat_mind::semantic::manager::SemanticMemoryManager;

fn chars(text: &str) -> Vec<char> {
    text.chars().collect()
}

#[test]
fn counts_agree_with_the_standard_library() {
    let samples = [
        "0", "7", "42", "+5", "007", "", "+", "-1", "1.5", "12a", " 3", "18446744073709551615",
        "18446744073709551616", "99999999999999999999999", "+18446744073709551615", "++1", "٣",
    ];
    for sample in samples {
        assert_eq!(parse_count(&chars(sample)), sample.parse::<usize>().ok(), "{:?}", sample);
    }
}

#[test]
fn simple_commands() {
    assert!(matches!(parse_semantic_command("/semantic help"), SemanticCommand::Help));
    assert!(matches!(parse_semantic_command("/s h"), SemanticCommand::Help));
    assert!(matches!(parse_semantic_command("/semantic stats"), SemanticCommand::Stats));
    assert!(matches!(parse_semantic_command("/s st"), SemanticCommand::Stats));
    assert!(matches!(parse_semantic_command("/semantic merge"), SemanticCommand::Merge));
    assert!(matches!(parse_semantic_command("/semantic"), SemanticCommand::Count));
    assert!(matches!(parse_semantic_command(""), SemanticCommand::Count));
    assert!(matches!(parse_semantic_command("   "), SemanticCommand::Count));
    assert!(
        matches!(parse_semantic_command("/semantic dance now"), SemanticCommand::Unknown { command } if command == "dance")
    );
    // commands are told apart letter for letter
    assert!(
        matches!(parse_semantic_command("/semantic HELP"), SemanticCommand::Unknown { command } if command == "HELP")
    );
}

#[test]
fn list_commands() {
    assert!(matches!(
        parse_semantic_command("/semantic list"),
        SemanticCommand::List { only: None, limit: 10 }
    ));
    assert!(matches!(
        parse_semantic_command("/s l 25"),
        SemanticCommand::List { only: None, limit: 25 }
    ));
    assert!(matches!(
        parse_semantic_command("/s l many"),
        SemanticCommand::List { only: None, limit: 10 }
    ));
    assert!(matches!(
        parse_semantic_command("/semantic list Facts"),
        SemanticCommand::List { only: Some(ConceptCategory::Facts), limit: 20 }
    ));
    assert!(matches!(
        parse_semantic_command("/semantic list pref 3"),
        SemanticCommand::List { only: Some(ConceptCategory::Preferences), limit: 3 }
    ));
    assert!(matches!(
        parse_semantic_command("/semantic list general x"),
        SemanticCommand::List { only: Some(ConceptCategory::General), limit: 20 }
    ));
    // goals cannot be listed by name
    assert!(matches!(
        parse_semantic_command("/semantic list goals"),
        SemanticCommand::List { only: None, limit: 10 }
    ));
}

#[test]
fn search_get_and_delete_commands() {
    assert!(matches!(parse_semantic_command("/semantic search"), SemanticCommand::SearchUsage));
    assert!(
        matches!(parse_semantic_command("/s s  green   tea "), SemanticCommand::Search { query } if query == "green tea")
    );
    assert!(matches!(parse_semantic_command("/s get"), SemanticCommand::GetUsage));
    assert!(matches!(parse_semantic_command("/s get abc"), SemanticCommand::Get { id } if id == "abc"));
    for word in ["delete", "del", "remove", "rm"] {
        assert!(matches!(
            parse_semantic_command(&format!("/s {}", word)),
            SemanticCommand::DeleteUsage
        ));
        assert!(matches!(
            parse_semantic_command(&format!("/s {} x-1", word)),
            SemanticCommand::Delete { id } if id == "x-1"
        ));
    }
}

#[test]
fn add_commands() {
    assert!(matches!(parse_semantic_command("/s add tea"), SemanticCommand::AddUsage));
    match parse_semantic_command("/s add tea facts") {
        SemanticCommand::Add { text, category, confidence } => {
            assert_eq!(text, "tea");
            assert_eq!(category, ConceptCategory::Facts);
            assert_eq!(confidence, None);
        }
        _ => panic!("not an addition"),
    }
    match parse_semantic_command("/s a \"I like  green tea\" pref 0.9 extra") {
        SemanticCommand::Add { text, category, confidence } => {
            assert_eq!(text, "I like green tea");
            assert_eq!(category, ConceptCategory::Preferences);
            assert_eq!(confidence, Some("0.9".to_string()));
        }
        _ => panic!("not an addition"),
    }
    // a text that closes in its first word still gathers up to a closing mark
    assert!(matches!(
        parse_semantic_command("/s add \"tea\" facts"),
        SemanticCommand::AddCategoryMissing
    ));
    assert!(matches!(
        parse_semantic_command("/s add \"never closed facts 0.5"),
        SemanticCommand::AddCategoryMissing
    ));
    assert!(matches!(
        parse_semantic_command("/s add tea general"),
        SemanticCommand::AddUnknownCategory { name } if name == "general"
    ));
    assert!(matches!(
        parse_semantic_command("/s add tea Facts"),
        SemanticCommand::AddUnknownCategory { name } if name == "Facts"
    ));
    match parse_semantic_command("/s add \"a b\"\" rules") {
        SemanticCommand::Add { text, category, .. } => {
            assert_eq!(text, "a b");
            assert_eq!(category, ConceptCategory::Rules);
        }
        _ => panic!("not an addition"),
    }
}

#[test]
fn vote_commands() {
    assert!(matches!(parse_semantic_command("/s vote id"), SemanticCommand::VoteUsage));
    for word in ["up", "U", "+"] {
        assert!(matches!(
            parse_semantic_command(&format!("/s v id {}", word)),
            SemanticCommand::Vote { id, delta: 100_000 } if id == "id"
        ));
    }
    for word in ["down", "D", "-"] {
        assert!(matches!(
            parse_semantic_command(&format!("/s vote id {}", word)),
            SemanticCommand::Vote { id, delta: -100_000 } if id == "id"
        ));
    }
    assert!(matches!(
        parse_semantic_command("/s vote id Sideways"),
        SemanticCommand::VoteUnknownDirection { direction } if direction == "Sideways"
    ));
}

#[test]
fn votes_removals_and_listings() {
    let mut manager = SemanticMemoryManager::new();
    for n in 1..=5u128 {
        let category = if n % 2 == 0 { ConceptCategory::Rules } else { ConceptCategory::Facts };
        manager.add_concept_at(
            format!("statement {}", n),
            category,
            "manual".to_string(),
            Some(950_000),
            (1..=5u128).map(|k| if k == n { 1.0f32.to_bits() } else { 0.0f32.to_bits() }).collect(),
            n,
            0,
        );
    }
    assert_eq!(manager.count(), 5);
    assert!(manager.update_concept_confidence_at(3, 100_000, 9));
    assert_eq!(manager.get_concept(&3).unwrap().confidence, 1_000_000);
    assert_eq!(manager.get_concept(&3).unwrap().updated_at, 9);
    assert!(manager.update_concept_confidence_at(3, -100_000, 10));
    assert_eq!(manager.get_concept(&3).unwrap().confidence, 900_000);
    assert!(manager.update_concept_confidence_at(3, i64::MIN, 11));
    assert_eq!(manager.get_concept(&3).unwrap().confidence, 0);
    assert!(!manager.update_concept_confidence_at(9, 100_000, 12));
    assert!(manager.update_concept_confidence(2, 0));

    let ids = |found: Vec<&ziggurat_mind::semantic::concept::Concept>| -> Vec<u128> {
        found.iter().map(|c| c.id).collect()
    };
    assert_eq!(ids(manager.list_concepts(2, 0)), vec![1, 2]);
    assert_eq!(ids(manager.list_concepts(2, 4)), vec![5]);
    assert_eq!(ids(manager.list_concepts(usize::MAX, 1)), vec![2, 3, 4, 5]);
    assert!(manager.list_concepts(3, 5).is_empty());
    assert!(manager.list_concepts(0, 0).is_empty());
    assert_eq!(ids(manager.list_by_category(&ConceptCategory::Facts, 2)), vec![1, 3]);
    assert_eq!(ids(manager.list_by_category(&ConceptCategory::Rules, 9)), vec![2, 4]);

    assert!(manager.remove_concept(3));
    assert!(!manager.remove_concept(3));
    assert_eq!(ids(manager.list_concepts(9, 0)), vec![1, 2, 4, 5]);
    assert_eq!(ids(manager.get_concepts_by_category(&ConceptCategory::Facts)), vec![1, 5]);
}
