use ziggurat_mind::config::{ConfigError, EmbeddingConfig, SystemConfig};
use ziggurat_mind::context::{MemoryContext, SearchStats};
use ziggurat_mind::device::{DeviceInfo, DeviceType};
use ziggurat_mind::persona::{
    ArchetypeLoader, CommunicationStyle, ContextStorage, CreativityLevel, EmotionLevel,
    FormalityLevel, PersonaArchetype, VerbosityLevel,
};

#[test]
fn test_communication_style_default() {
    let style = CommunicationStyle::default();
    assert_eq!(style.style, "neutral");
    assert!(!style.use_honorifics);
}

#[test]
fn test_embedding_config_default() {
    let config = EmbeddingConfig::default();
    assert_eq!(config.embedding_dim, 384);
    assert_eq!(config.max_length, 512);
    assert_eq!(config.batch_size, 32);
    assert!(config.normalize);
}

#[test]
fn communication_style_default_fields() {
    let style = CommunicationStyle::default();
    assert_eq!(style.greeting, "Hello!");
    assert_eq!(style.emoji_frequency, "rare");
    assert_eq!(style.max_response_length, "medium");
    assert_eq!(style.signature, "");
}

#[test]
fn system_config_default_is_valid() {
    let config = SystemConfig::default();
    assert_eq!(config.llm_model_path, "models/mistral-7b-instruct-v0.2.Q4_K_M.gguf");
    assert_eq!(config.embedding_model_path, "models/multilingual-e5-small");
    assert_eq!(config.default_archetype, "scholar");
    assert!(!config.force_cpu);
    assert_eq!(config.max_context_tokens, 4096);
    assert_eq!(config.embedding_dim, 384);
    assert_eq!(config.recall_count, 5);
    assert_eq!(config.validate(), Ok(()));
}

#[test]
fn system_config_validate_reports_first_fault() {
    let mut config = SystemConfig::default();
    config.embedding_dim = 0;
    assert_eq!(config.validate(), Err(ConfigError::ZeroEmbeddingDimension));
    config.embedding_model_path = String::new();
    assert_eq!(config.validate(), Err(ConfigError::MissingEmbeddingModelPath));
    config.llm_model_path = String::new();
    assert_eq!(config.validate(), Err(ConfigError::MissingLlmModelPath));
    assert_eq!(ConfigError::MissingLlmModelPath.message(), "Путь к LLM модели не указан");
    assert_eq!(
        ConfigError::ZeroEmbeddingDimension.message(),
        "Размерность эмбеддинга должна быть > 0"
    );
}

#[test]
fn system_config_optimized() {
    let config = SystemConfig::optimized_for_rtx4090();
    assert!(!config.force_cpu);
    assert_eq!(config.max_context_tokens, 8192);
    assert_eq!(config.recall_count, 10);
    assert_eq!(config.embedding_dim, 384);
}

#[test]
fn device_type_names() {
    let cpu = DeviceType::Cpu { cores: 8 };
    let cuda = DeviceType::Cuda { device_id: 0, name: "RTX".to_string() };
    let metal = DeviceType::Metal { device_id: 1, name: "M2".to_string() };
    assert_eq!(cpu.name(), "CPU");
    assert_eq!(cuda.name(), "CUDA");
    assert_eq!(metal.name(), "Metal");
    assert!(!cpu.is_gpu());
    assert!(cuda.is_gpu());
    assert!(metal.is_gpu());
}

#[test]
fn device_info_line() {
    let info = DeviceInfo {
        device_type: DeviceType::Cuda { device_id: 0, name: "RTX 4090".to_string() },
        name: "RTX 4090".to_string(),
        available_memory_mb: 24576,
        used_memory_mb: 0,
        compute_capability: None,
        supported_dtypes: vec!["f32".to_string()],
    };
    assert_eq!(info.format_info(), "CUDA: RTX 4090 (24576MB доступно)");
}

#[test]
fn default_personas() {
    let scholar = PersonaArchetype::default_scholar();
    assert_eq!(scholar.name, "Ученый");
    assert_eq!(scholar.behavior_rules.len(), 4);
    assert_eq!(scholar.knowledge_domains[3], "Математика");
    assert_eq!(scholar.response_style.formality, FormalityLevel::Academic);
    assert_eq!(scholar.response_style.verbosity, VerbosityLevel::Detailed);
    assert!(scholar.system_prompt.starts_with("Ты — ученый-исследователь"));
    assert!(scholar.system_prompt.ends_with("аргументированную информацию."));
    let params = scholar.get_generation_params();
    assert_eq!(params.temperature, 300_000);
    assert_eq!(params.top_p, 900_000);
    assert_eq!(params.max_tokens, 600);

    let companion = PersonaArchetype::default_companion();
    assert_eq!(companion.name, "Компаньон");
    assert_eq!(companion.response_style.creativity, CreativityLevel::Creative);
    assert_eq!(companion.response_style.emotion, EmotionLevel::Empathetic);
    assert_eq!(companion.behavior_rules[1], "Не осуждай и не критикуй");
    assert_eq!(companion.get_generation_params().max_tokens, 300);
    assert_eq!(companion.get_generation_params().temperature, 700_000);
}

fn no_stats() -> SearchStats {
    SearchStats {
        episodes_found: 0,
        concepts_found: 0,
        episode_search_time_ms: 0,
        concept_search_time_ms: 0,
    }
}

#[test]
fn memory_context_sections() {
    let empty = MemoryContext {
        current_dialogue: String::new(),
        relevant_episodes: vec![],
        relevant_concepts: vec![],
        search_stats: no_stats(),
    };
    assert_eq!(empty.format_for_prompt(), "");

    let full = MemoryContext {
        current_dialogue: "User: hi\nAssistant: hello".to_string(),
        relevant_episodes: vec!["first".to_string(), "second".to_string()],
        relevant_concepts: vec!["coffee (confidence: 0.90): likes coffee".to_string()],
        search_stats: no_stats(),
    };
    let expected = "=== 📚 Relevant Knowledge ===\n🧠 coffee (confidence: 0.90): likes coffee\n\n=== 📝 Relevant Past Dialogues ===\n🗨️ Episode 1: first\n🗨️ Episode 2: second\n\n=== 💬 Current Dialogue ===\nUser: hi\nAssistant: hello\n";
    assert_eq!(full.format_for_prompt(), expected);
}

#[test]
fn prompt_with_memory() {
    let persona = PersonaArchetype::default_companion();
    let context = MemoryContext {
        current_dialogue: "User: hi".to_string(),
        relevant_episodes: vec![],
        relevant_concepts: vec![],
        search_stats: no_stats(),
    };
    let prompt = persona.format_prompt_with_memory("Как дела?", &context);
    let expected = format!(
        "{}\n\n{}\n\n=== Текущий вопрос ===\n{}\n\n=== Ответ в стиле {} ===",
        persona.system_prompt,
        "=== 💬 Current Dialogue ===\nUser: hi\n",
        "Как дела?",
        "Компаньон"
    );
    assert_eq!(prompt, expected);
}

#[test]
fn context_expiry() {
    let day = 86_400u64;
    assert!(!ContextStorage::is_expired(None, 10 * day, 1));
    assert!(!ContextStorage::is_expired(Some(0), 7 * day, 7));
    assert!(!ContextStorage::is_expired(Some(0), 8 * day - 1, 7));
    assert!(ContextStorage::is_expired(Some(0), 8 * day, 7));
    assert!(!ContextStorage::is_expired(Some(5 * day), 3 * day, 0));
    assert!(ContextStorage::is_expired(Some(0), day, 0));
    assert!(!ContextStorage::is_expired(Some(0), 100 * day, -1));
    assert_eq!(ContextStorage::context_path("sage"), "data/session_context/sage.json");
    assert_eq!(
        ArchetypeLoader::archetype_path("config/archetypes", "sage"),
        "config/archetypes/sage.json"
    );
}
