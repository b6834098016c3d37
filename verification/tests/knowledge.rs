use ziggurat_mind::episodic::analysis::{
    extract_last_topic, extract_topics, finish_answer, last_topic_prompt, mood_prompt,
    parse_topics, summarize_session, summary_prompt, topics_prompt, unfenced, LlmPipeline,
};
use ziggurat_mind::episodic::manager::DialogueManager;
use ziggurat_mind::episodic::session::Turn;
use ziggurat_mind::semantic::concept::{Concept, ConceptCategory};
use ziggurat_mind::semantic::graph::{KnowledgeGraph, Triple};
use ziggurat_mind::semantic::heuristics::{categorize_concept, extract_facts, parse_definition};
use ziggurat_mind::semantic::manager::{
    accept_extraction, ExtractedConcept, SemanticMemoryManager,
};
use ziggurat_mind::semantic::wording::text_similarity;
use ziggurat_mind::text::{lines, truncate_at_break, truncate_text, trim_end_matches, trim_start_matches};

fn chars(text: &str) -> Vec<char> {
    text.chars().collect()
}

fn text(chars: &[char]) -> String {
    chars.iter().collect()
}

#[test]
fn test_concept_categorization() {
    assert_eq!(categorize_concept("квантовая механика"), "физика");
    assert_eq!(categorize_concept("нейронные сети"), "искусственный интеллект");
    assert_eq!(categorize_concept("программирование"), "программирование");
}

#[test]
fn more_categorization() {
    assert_eq!(categorize_concept("Простое ЧИСЛО"), "математика");
    assert_eq!(categorize_concept("Клетки"), "биология");
    assert_eq!(categorize_concept("Химия"), "химия");
    assert_eq!(categorize_concept("исходный код"), "программирование");
    assert_eq!(categorize_concept("AI assistant"), "искусственный интеллект");
    assert_eq!(categorize_concept("нейронные сети"), "искусственный интеллект".to_string());
    assert_eq!(categorize_concept("личность"), "психология");
    assert_eq!(categorize_concept("история Рима"), "история");
    assert_eq!(categorize_concept("погода"), "общие");
    assert_eq!(categorize_concept(""), "общие");
}

#[test]
fn definitions_and_facts() {
    let parsed = parse_definition(&chars("Квантовая запутанность - это явление."), &chars(" - это "));
    assert_eq!(parsed, Some(("Квантовая запутанность".to_string(), "явление.".to_string())));
    assert_eq!(parse_definition(&chars("a = b = c"), &chars(" = ")), None);
    assert_eq!(parse_definition(&chars("nothing here"), &chars(" = ")), None);
    assert_eq!(parse_definition(&chars("x"), &[]), None);
    assert_eq!(
        parse_definition(&chars("  x   =   y  "), &chars(" = ")),
        Some(("x".to_string(), "y".to_string()))
    );
    let facts = extract_facts("Коротко\n  Известно что вода мокрая.  \nБез признаков факта тут\r\nКак правило, так и есть");
    assert_eq!(facts, vec!["Известно что вода мокрая.".to_string(), "Как правило, так и есть".to_string()]);
    assert!(extract_facts("").is_empty());
}

#[test]
fn lines_agree_with_the_standard_library() {
    let samples = ["", "a", "a\n", "a\nb", "a\r\nb\r\n", "\n\n", "a\r", "\r\n", "x\n\ny\n", "tail\r\n\r"];
    for sample in samples {
        let found: Vec<String> = lines(&chars(sample)).iter().map(|l| text(l)).collect();
        let expected: Vec<String> = sample.lines().map(|l| l.to_string()).collect();
        assert_eq!(found, expected, "{:?}", sample);
    }
}

#[test]
fn truncation() {
    assert_eq!(truncate_text("short", 10), "short");
    assert_eq!(truncate_text("exactly ten", 11), "exactly ten");
    assert_eq!(truncate_text("привет мир", 6), "привет...");
    assert_eq!(truncate_text("abc", 0), "...");
    assert_eq!(truncate_at_break("one two three", 20), "one two three");
    assert_eq!(truncate_at_break("one two three", 9), "one two...");
    assert_eq!(truncate_at_break("one\ntwo three", 9), "one");
    assert_eq!(truncate_at_break("onetwothree", 5), "onetw...");
    for (t, p) in [("```json```x", "```"), ("aaab", "a"), ("abab", "ab"), ("x", ""), ("", "a"), ("[[1]]", "[")] {
        assert_eq!(text(&trim_start_matches(&chars(t), &chars(p))), t.trim_start_matches(p));
        assert_eq!(text(&trim_end_matches(&chars(t), &chars(p))), t.trim_end_matches(p));
    }
    assert_eq!(text(&trim_end_matches(&chars("[1]]]"), &chars("]"))), "[1");
}

#[test]
fn wording_similarity() {
    assert_eq!(text_similarity(&chars(""), &chars("")), 1_000_000);
    assert_eq!(text_similarity(&chars("  "), &chars("\n")), 1_000_000);
    assert_eq!(text_similarity(&chars("a"), &chars("")), 0);
    assert_eq!(text_similarity(&chars(""), &chars("a")), 0);
    assert_eq!(text_similarity(&chars("a b c"), &chars("c b a")), 1_000_000);
    assert_eq!(text_similarity(&chars("a b"), &chars("b c")), 333_333);
    assert_eq!(text_similarity(&chars("a a a b"), &chars("a")), 500_000);
    assert_eq!(text_similarity(&chars("x y"), &chars("z")), 0);
}

#[test]
fn concepts_with_similar_wording() {
    let mut manager = SemanticMemoryManager::new();
    let embed = |n: f32| vec![n.to_bits(), 1.0f32.to_bits()];
    manager.add_concept_at("I like green tea".to_string(), ConceptCategory::Preferences, "s".to_string(), None, embed(1.0), 1, 0);
    manager.add_concept_at("Cats sleep a lot".to_string(), ConceptCategory::Facts, "s".to_string(), None, embed(-1.0), 2, 0);
    manager.add_concept_at("i LIKE black tea".to_string(), ConceptCategory::Preferences, "s".to_string(), None, embed(-0.2), 3, 0);
    let found: Vec<u128> = manager.find_similar_text("I like tea", 500_000).iter().map(|c| c.id).collect();
    assert_eq!(found, vec![1, 3]);
    assert!(manager.find_similar_text("dogs", 0).is_empty());
    assert_eq!(manager.find_similar_text("dogs", -1).len(), 3);
}

#[test]
fn merging_keeps_the_surest_of_each_statement() {
    let make = |id: u128, text: &str, confidence: i64, used: u32| {
        let mut c = Concept::with_identity(id, 0, text.to_string(), ConceptCategory::Facts, "s".to_string())
            .with_confidence(confidence);
        c.usage_count = used;
        c
    };
    let mut manager = SemanticMemoryManager::with_concepts(vec![
        make(1, "Tea is hot", 400_000, 1),
        make(2, "Water is wet", 900_000, 5),
        make(3, "TEA IS HOT", 700_000, 2),
        make(4, "tea is hot", 700_000, 4),
        make(5, "water is WET", 100_000, u32::MAX),
        make(6, "Alone", 1, 0),
    ]);
    assert_eq!(manager.merge_similar(800_000), 3);
    let left: Vec<(u128, String, i64, u32)> = manager
        .concepts()
        .iter()
        .map(|c| (c.id, c.text.clone(), c.confidence, c.usage_count))
        .collect();
    assert_eq!(
        left,
        vec![
            (3, "TEA IS HOT".to_string(), 700_000, 7),
            (2, "Water is wet".to_string(), 900_000, u32::MAX),
            (6, "Alone".to_string(), 1, 0),
        ]
    );
    let facts: Vec<u128> = manager.get_concepts_by_category(&ConceptCategory::Facts).iter().map(|c| c.id).collect();
    assert_eq!(facts, vec![3, 2, 6]);
    assert_eq!(manager.merge_similar(0), 0);
    assert_eq!(manager.count(), 3);
}

#[test]
fn extraction_is_sorted_out() {
    let results = vec![
        ExtractedConcept { text: "  User likes tea ".to_string(), category: "Preferences".to_string(), confidence: 800_000 },
        ExtractedConcept { text: "   ".to_string(), category: "facts".to_string(), confidence: 900_000 },
        ExtractedConcept { text: "x".to_string(), category: "whatever".to_string(), confidence: 2_000_000 },
    ];
    let accepted = accept_extraction(&results);
    assert_eq!(accepted.len(), 2);
    assert_eq!(accepted[0].text, "User likes tea");
    assert_eq!(accepted[0].category, ConceptCategory::Preferences);
    assert_eq!(accepted[0].confidence, 800_000);
    assert_eq!(accepted[1].category, ConceptCategory::General);
    assert_eq!(accepted[1].confidence, 2_000_000);
}

fn graph(edges: &[(u128, u128)]) -> KnowledgeGraph {
    let mut graph = KnowledgeGraph::new();
    for (a, b) in edges {
        graph.add_triple(Triple::at(0, *a, "r".to_string(), *b));
    }
    graph
}

#[test]
fn paths_between_concepts() {
    // 1 - 2 - 3 - 4, 1 - 3, 4 -> 1 seen from either end, and a double edge 1 - 2
    let g = graph(&[(1, 2), (2, 3), (3, 4), (1, 3), (4, 1), (2, 1)]);
    assert_eq!(g.neighbours(1), vec![2, 3, 4, 2]);
    assert_eq!(g.find_paths(&1, &1, 3), vec![vec![1]]);
    assert_eq!(g.find_paths(&1, &4, 0), Vec::<Vec<u128>>::new());
    assert_eq!(g.find_paths(&1, &4, 1), vec![vec![1, 4]]);
    assert_eq!(g.find_paths(&1, &4, 2), vec![vec![1, 4], vec![1, 3, 4]]);
    assert_eq!(
        g.find_paths(&1, &4, 3),
        vec![vec![1, 4], vec![1, 3, 4], vec![1, 2, 3, 4]]
    );
    assert_eq!(g.find_paths(&1, &4, 9), g.find_paths(&1, &4, 3));
    assert_eq!(g.find_paths(&4, &2, 2), vec![vec![4, 1, 2], vec![4, 3, 2]]);
    assert!(g.find_paths(&1, &9, 5).is_empty());
    assert_eq!(g.find_paths(&9, &9, 0), vec![vec![9]]);
    for path in g.find_paths(&2, &4, 4) {
        assert_eq!((path[0], *path.last().unwrap()), (2, 4));
        let mut seen = path.clone();
        seen.sort();
        seen.dedup();
        assert_eq!(seen.len(), path.len());
    }
}

struct Echo;

impl LlmPipeline for Echo {
    fn generate(&self, prompt: &str, max_tokens: usize) -> Result<String, String> {
        Ok(format!("  {} chars, {} tokens \n", prompt.chars().count(), max_tokens))
    }
}

struct Topics;

impl LlmPipeline for Topics {
    fn generate(&self, _prompt: &str, _max_tokens: usize) -> Result<String, String> {
        Ok("```json\n[\"еда\", \"погода\"]\n```".to_string())
    }
}

struct Broken;

impl LlmPipeline for Broken {
    fn generate(&self, _prompt: &str, _max_tokens: usize) -> Result<String, String> {
        Err("offline".to_string())
    }
}

#[test]
fn prompts_and_answers() {
    let turns = vec![
        Turn::at(1, "Привет".to_string(), "Здравствуйте".to_string()),
        Turn::at(2, "Как дела?".to_string(), "Хорошо".to_string()),
    ];
    let expected = "<s>[INST] Ты — ассистент по анализу диалогов. Кратко опиши, о чём был разговор (2-3 предложения на русском).\n\nДиалог:\nTurn 1:\nUser: Привет\nAssistant: Здравствуйте\n\nTurn 2:\nUser: Как дела?\nAssistant: Хорошо\n\n\nКраткое содержание:[/INST]";
    assert_eq!(summary_prompt(&turns), expected);
    let expected = "<s>[INST] Извлеки ключевые темы из диалога. Верни только JSON массив строк, например: [\"тема1\", \"тема2\", \"тема3\"].\nНе более 5 тем. Темы должны быть короткими (1-2 слова), на русском языке.\n\nДиалог:\nUser: Привет\nAssistant: Здравствуйте\n---\nUser: Как дела?\nAssistant: Хорошо\n\nТемы:[/INST]";
    assert_eq!(topics_prompt(&turns), expected);
    let expected = "<s>[INST] Определи эмоциональное состояние пользователя по диалогу.\n Верни только число от 0.0 (негативное/грустное) до 1.0 (позитивное/радостное).\n\nДиалог:\nUser: Привет\nAssistant: Здравствуйте\n---\nUser: Как дела?\nAssistant: Хорошо\n\nЧисло:[/INST]";
    assert_eq!(mood_prompt(&turns), expected);
    assert_eq!(
        last_topic_prompt("Как дела?"),
        "<s>[INST] Определи, о чём был последний вопрос пользователя (1-2 слова на русском).\nВопрос: Как дела?\n\nТема:[/INST]"
    );
    assert_eq!(finish_answer("  ok \n"), "ok");
    assert_eq!(text(&unfenced(" ```json\n[1]``` ")), "[1]");

    assert_eq!(parse_topics("[\"a\", \"b\"]"), Ok(vec!["a".to_string(), "b".to_string()]));
    assert_eq!(parse_topics("```json\n[\"a\"]\n```"), Ok(vec!["a".to_string()]));
    assert_eq!(parse_topics("\"a\", \"b\""), Ok(vec!["a".to_string(), "b".to_string()]));
    assert_eq!(parse_topics("[[\"a\"]]"), Ok(vec!["a".to_string()]));
    assert_eq!(parse_topics("[]"), Ok(vec![]));
    assert_eq!(parse_topics("тема"), Err("Failed to parse topics".to_string()));
    assert_eq!(parse_topics("[1, 2]"), Err("Failed to parse topics".to_string()));

    assert_eq!(summarize_session(&Echo, &[]), Ok(String::new()));
    let summary = summarize_session(&Echo, &turns).unwrap();
    assert!(summary.ends_with("chars, 300 tokens"));
    assert_eq!(extract_topics(&Topics, &turns), Ok(vec!["еда".to_string(), "погода".to_string()]));
    assert_eq!(extract_topics(&Topics, &[]), Ok(vec![]));
    assert_eq!(extract_topics(&Broken, &turns), Err("offline".to_string()));
    assert!(extract_last_topic(&Echo, &turns).unwrap().ends_with("chars, 50 tokens"));
    assert_eq!(extract_last_topic(&Broken, &[]), Ok(String::new()));
    assert_eq!(summarize_session(&Broken, &turns), Err("offline".to_string()));
}

#[test]
fn dialogue_listing_and_report() {
    let mut manager = DialogueManager::with_identity(1, "p".to_string(), 100, 0x11, 0);
    for n in 0..3 {
        manager
            .add_exchange_at(format!("q{}", n), format!("a{}", n), vec![1.0f32.to_bits()], n as u128, 947_638_923_004)
            .unwrap();
    }
    assert_eq!(
        manager.find_session_dialogues(&0x11, 2),
        vec!["Turn 0: q0".to_string(), "Turn 1: q1".to_string()]
    );
    // records match by their kind alone
    assert_eq!(manager.find_session_dialogues(&0x99, 10).len(), 3);
    assert!(manager.find_session_dialogues(&0x11, 0).is_empty());
    assert_eq!(
        manager.stats().format(),
        "💬 Dialogue Manager Stats:\n   Current Session: 00000000-0000-0000-0000-000000000011 (3 turns)\n   Total Sessions: 1\n   Total Turns: 3\n   Last Activity: 2000-01-12 01:02:03"
    );
    let turns = manager.get_turns_for_context(2);
    assert_eq!(turns.len(), 2);
    assert_eq!(turns[0].user, "q1");
}
