//! System configuration.

use vstd::prelude::*;
use crate::text::owned;

verus! {

/// Why a configuration is refused.
#[derive(Debug, Clone, Copy, PartialEq, Eq, Structural)]
pub enum ConfigError {
    /// No path to the language model.
    MissingLlmModelPath,
    /// No path to the embedding model.
    MissingEmbeddingModelPath,
    /// The embedding dimension is zero.
    ZeroEmbeddingDimension,
}

impl ConfigError {
    /// The message for this error.
    pub fn message(&self) -> (text: &'static str)
        ensures
            text@ == match self {
                ConfigError::MissingLlmModelPath => "Путь к LLM модели не указан"@,
                ConfigError::MissingEmbeddingModelPath => "Путь к эмбеддинг модели не указан"@,
                ConfigError::ZeroEmbeddingDimension => "Размерность эмбеддинга должна быть > 0"@,
            },
    {
        match self {
            ConfigError::MissingLlmModelPath => "Путь к LLM модели не указан",
            ConfigError::MissingEmbeddingModelPath => "Путь к эмбеддинг модели не указан",
            ConfigError::ZeroEmbeddingDimension => "Размерность эмбеддинга должна быть > 0",
        }
    }
}

/// The settings of the whole system.
#[derive(Debug, Clone)]
pub struct SystemConfig {
    /// Path to the language model.
    pub llm_model_path: String,
    /// Path to the embedding model.
    pub embedding_model_path: String,
    /// The persona used when none is named.
    pub default_archetype: String,
    /// Never use a graphics processor.
    pub force_cpu: bool,
    /// Size of the context window in tokens.
    pub max_context_tokens: usize,
    /// Length of an embedding.
    pub embedding_dim: usize,
    /// How many memories a recall brings back.
    pub recall_count: usize,
}

impl SystemConfig {
    /// The settings used when nothing else is configured.
    pub open spec fn is_default(&self) -> bool {
        &&& self.llm_model_path@ == "models/mistral-7b-instruct-v0.2.Q4_K_M.gguf"@
        &&& self.embedding_model_path@ == "models/multilingual-e5-small"@
        &&& self.default_archetype@ == "scholar"@
        &&& !self.force_cpu
        &&& self.max_context_tokens == 4096
        &&& self.embedding_dim == 384
        &&& self.recall_count == 5
    }

    /// What `validate` finds wrong first, if anything.
    pub open spec fn first_fault(&self) -> Option<ConfigError> {
        if self.llm_model_path@.len() == 0 {
            Some(ConfigError::MissingLlmModelPath)
        } else if self.embedding_model_path@.len() == 0 {
            Some(ConfigError::MissingEmbeddingModelPath)
        } else if self.embedding_dim == 0 {
            Some(ConfigError::ZeroEmbeddingDimension)
        } else {
            None
        }
    }

    /// Checks that both model paths are given and the dimension is not zero.
    pub fn validate(&self) -> (outcome: Result<(), ConfigError>)
        ensures
            outcome == match self.first_fault() {
                Some(fault) => Err::<(), ConfigError>(fault),
                None => Ok::<(), ConfigError>(()),
            },
    {
        if self.llm_model_path.as_str().is_empty() {
            return Err(ConfigError::MissingLlmModelPath);
        }
        if self.embedding_model_path.as_str().is_empty() {
            return Err(ConfigError::MissingEmbeddingModelPath);
        }
        if self.embedding_dim == 0 {
            return Err(ConfigError::ZeroEmbeddingDimension);
        }
        Ok(())
    }

    /// The default settings with a larger context window and deeper recall,
    /// for a machine with a large graphics processor.
    pub fn optimized_for_rtx4090() -> (config: SystemConfig)
        ensures
            config.llm_model_path@ == "models/mistral-7b-instruct-v0.2.Q4_K_M.gguf"@,
            config.embedding_model_path@ == "models/multilingual-e5-small"@,
            config.default_archetype@ == "scholar"@,
            !config.force_cpu,
            config.max_context_tokens == 8192,
            config.embedding_dim == 384,
            config.recall_count == 10,
            config.first_fault() is None,
    {
        let mut config = SystemConfig::default();
        config.force_cpu = false;
        config.max_context_tokens = 8192;
        config.recall_count = 10;
        proof {
            reveal_strlit("models/mistral-7b-instruct-v0.2.Q4_K_M.gguf");
            reveal_strlit("models/multilingual-e5-small");
        }
        config
    }
}

impl Default for SystemConfig {
    fn default() -> (config: SystemConfig)
        ensures
            config.is_default(),
    {
        SystemConfig {
            llm_model_path: owned("models/mistral-7b-instruct-v0.2.Q4_K_M.gguf"),
            embedding_model_path: owned("models/multilingual-e5-small"),
            default_archetype: owned("scholar"),
            force_cpu: false,
            max_context_tokens: 4096,
            embedding_dim: 384,
            recall_count: 5,
        }
    }
}

/// The settings of an embedding engine.
#[derive(Debug, Clone, Copy, PartialEq, Eq, Structural)]
pub struct EmbeddingConfig {
    /// Length of an embedding.
    pub embedding_dim: usize,
    /// Longest input, in tokens.
    pub max_length: usize,
    /// Inputs embedded in one batch.
    pub batch_size: usize,
    /// Embeddings kept for reuse.
    pub cache_size: usize,
    /// Whether embeddings are scaled to unit length.
    pub normalize: bool,
}

impl Default for EmbeddingConfig {
    fn default() -> (config: EmbeddingConfig)
        ensures
            config == (EmbeddingConfig {
                embedding_dim: 384,
                max_length: 512,
                batch_size: 32,
                cache_size: 1000,
                normalize: true,
            }),
    {
        EmbeddingConfig {
            embedding_dim: 384,
            max_length: 512,
            batch_size: 32,
            cache_size: 1000,
            normalize: true,
        }
    }
}

} // verus!
