use ziggurat_mind::semantic::concept::{Concept, ConceptCategory, DecayConfig};

const DAY: i64 = 86_400_000;

#[test]
fn test_category_display() {
    assert_eq!(ConceptCategory::Facts.to_string(), "facts");
    assert_eq!(ConceptCategory::Preferences.to_string(), "preferences");
}

#[test]
fn test_concept_creation() {
    let concept = Concept::new(
        "User likes coffee".to_string(),
        ConceptCategory::Preferences,
        "test".to_string(),
    );
    assert!(concept.is_valid());
    assert_eq!(concept.confidence, 500_000);
}

#[test]
fn test_concept_with_confidence() {
    let concept = Concept::new(
        "Test fact".to_string(),
        ConceptCategory::Facts,
        "test".to_string(),
    )
    .with_confidence(900_000);
    assert_eq!(concept.confidence, 900_000);
}

#[test]
fn category_names_parse_back() {
    let all = [
        ConceptCategory::Facts,
        ConceptCategory::Rules,
        ConceptCategory::Preferences,
        ConceptCategory::Skills,
        ConceptCategory::Goals,
        ConceptCategory::General,
    ];
    for (i, category) in all.iter().enumerate() {
        assert_eq!(ConceptCategory::parse(category.name()), Some(*category));
        assert_eq!(ConceptCategory::from_lowercase(category.name()), Some(*category));
        assert_eq!(category.ordinal(), i);
    }
    assert_eq!(ConceptCategory::parse("FACTS"), Some(ConceptCategory::Facts));
    assert_eq!(ConceptCategory::parse("Goals"), Some(ConceptCategory::Goals));
    assert_eq!(ConceptCategory::from_lowercase("Goals"), None);
    assert_eq!(ConceptCategory::parse("science"), None);
    assert_eq!(ConceptCategory::parse(""), None);
    assert_eq!(ConceptCategory::default(), ConceptCategory::General);
}

#[test]
fn decay_parameters_per_category() {
    let expect = [
        (ConceptCategory::Facts, 30, 950_000, 50_000),
        (ConceptCategory::Rules, 60, 980_000, 50_000),
        (ConceptCategory::Preferences, 20, 900_000, 100_000),
        (ConceptCategory::Skills, 90, 980_000, 50_000),
        (ConceptCategory::Goals, 15, 850_000, 100_000),
        (ConceptCategory::General, 25, 920_000, 50_000),
    ];
    for (category, period, rate, floor) in expect {
        let config = category.get_decay_config();
        assert_eq!(config.period_days, period);
        assert_eq!(config.decay_rate, rate);
        assert_eq!(config.min_confidence, floor);
    }
    let config = DecayConfig::default();
    assert_eq!((config.period_days, config.decay_rate, config.min_confidence), (30, 900_000, 100_000));
}

fn concept_at(category: ConceptCategory, confidence: i64, created: i64) -> Concept {
    Concept::with_identity(7, created, "I like tea".to_string(), category, "manual".to_string())
        .with_confidence(confidence)
}

#[test]
fn confidence_is_clamped() {
    let c = concept_at(ConceptCategory::Facts, 2_000_000, 0);
    assert_eq!(c.confidence, 1_000_000);
    let c = concept_at(ConceptCategory::Facts, -5, 0);
    assert_eq!(c.confidence, 0);
    let mut c = concept_at(ConceptCategory::Facts, 900_000, 0);
    c.update_confidence_at(300_000, 5);
    assert_eq!(c.confidence, 1_000_000);
    assert_eq!(c.updated_at, 5);
    c.update_confidence_at(-1_500_000, 6);
    assert_eq!(c.confidence, 0);
    c.update_confidence_at(i64::MAX, 7);
    assert_eq!(c.confidence, 1_000_000);
}

#[test]
fn blank_text_is_not_valid() {
    let c = Concept::with_identity(1, 0, "  \t\n ".to_string(), ConceptCategory::General, "s".to_string());
    assert!(!c.is_valid());
    let c = Concept::with_identity(1, 0, String::new(), ConceptCategory::General, "s".to_string());
    assert!(!c.is_valid());
    let c = Concept::with_identity(1, 0, " x ".to_string(), ConceptCategory::General, "s".to_string());
    assert!(c.is_valid());
}

#[test]
fn usage_is_counted() {
    let mut c = concept_at(ConceptCategory::Facts, 500_000, 0);
    c.increment_usage_at(10);
    c.increment_usage_at(20);
    assert_eq!(c.usage_count, 2);
    assert_eq!(c.updated_at, 20);
    c.usage_count = u32::MAX;
    c.increment_usage_at(30);
    assert_eq!(c.usage_count, u32::MAX);
}

#[test]
fn effective_confidence_follows_the_formula() {
    let c = concept_at(ConceptCategory::Preferences, 900_000, 0);
    // within the first period nothing decays
    assert_eq!(c.effective_confidence_at(19 * DAY), 900_000);
    assert_eq!(c.effective_confidence_at(20 * DAY - 1), 900_000);
    // one period: 0.9 * 0.9
    assert_eq!(c.effective_confidence_at(20 * DAY), 810_000);
    assert_eq!(c.effective_confidence_at(39 * DAY), 810_000);
    // two periods: 0.9 * 0.9^2
    assert_eq!(c.effective_confidence_at(40 * DAY), 729_000);
    // three periods
    assert_eq!(c.effective_confidence_at(60 * DAY), 656_100);
    // far in the future the floor holds
    assert_eq!(c.effective_confidence_at(20_000 * DAY), 100_000);
    // a clock that runs backwards counts as no time at all
    assert_eq!(c.effective_confidence_at(-50 * DAY), 900_000);
    // nothing changed
    assert_eq!(c.confidence, 900_000);
    assert_eq!(c.updated_at, 0);
}

#[test]
fn effective_confidence_never_rises_and_keeps_the_floor() {
    for category in [
        ConceptCategory::Facts,
        ConceptCategory::Rules,
        ConceptCategory::Preferences,
        ConceptCategory::Skills,
        ConceptCategory::Goals,
        ConceptCategory::General,
    ] {
        let config = category.get_decay_config();
        let c = concept_at(category, 870_000, 1_000);
        let mut last = i64::MAX;
        let mut day = config.period_days as i64;
        while day < 4_000 {
            let now = 1_000 + day * DAY;
            let e = c.effective_confidence_at(now);
            assert!(e <= last);
            assert!(e >= config.min_confidence);
            last = e;
            day += 7;
        }
    }
}

#[test]
fn temporal_decay_is_applied_and_tells_when_to_forget() {
    let mut c = concept_at(ConceptCategory::Goals, 200_000, 0);
    assert!(c.apply_temporal_decay_at(14 * DAY));
    assert_eq!(c.confidence, 200_000);
    assert_eq!(c.updated_at, 0);
    // one period: 0.2 * 0.85 = 0.17
    assert!(c.apply_temporal_decay_at(15 * DAY));
    assert_eq!(c.confidence, 170_000);
    assert_eq!(c.updated_at, 15 * DAY);
    // four more periods: 0.17 * 0.85^4 = 0.0887... below the floor of 0.1
    assert!(!c.apply_temporal_decay_at(75 * DAY));
    assert_eq!(c.confidence, 88_740);
    assert_eq!(c.updated_at, 75 * DAY);
}
