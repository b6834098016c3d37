//! Personas: who the agent speaks as.

use vstd::prelude::*;
use crate::context::MemoryContext;
use crate::text::append_str;
use crate::text::owned;
use crate::text::string_of;
use crate::text::string_views;

verus! {

/// How formal replies are.
#[derive(Debug, Clone, Copy, PartialEq, Eq, Structural)]
pub enum FormalityLevel {
    Casual,
    Neutral,
    Formal,
    Academic,
}

/// How long replies are.
#[derive(Debug, Clone, Copy, PartialEq, Eq, Structural)]
pub enum VerbosityLevel {
    Concise,
    Balanced,
    Detailed,
    Comprehensive,
}

/// How freely replies depart from the facts at hand.
#[derive(Debug, Clone, Copy, PartialEq, Eq, Structural)]
pub enum CreativityLevel {
    Factual,
    Analytical,
    Creative,
    Imaginative,
}

/// How much feeling replies show.
#[derive(Debug, Clone, Copy, PartialEq, Eq, Structural)]
pub enum EmotionLevel {
    Neutral,
    Friendly,
    Empathetic,
    Passionate,
}

/// The style of a persona's replies.
#[derive(Debug, Clone, Copy, PartialEq, Eq, Structural)]
pub struct ResponseStyle {
    pub formality: FormalityLevel,
    pub verbosity: VerbosityLevel,
    pub creativity: CreativityLevel,
    pub emotion: EmotionLevel,
}

/// What a directive is about.
#[derive(Debug, Clone, Copy, PartialEq, Eq, Structural)]
pub enum DirectiveType {
    /// Rules of the system itself.
    Core,
    /// Rules on the use of memory.
    Memory,
    /// Rules on how to speak.
    Communication,
    /// Rules on generation settings.
    Generation,
    /// Anything else.
    Custom,
}

/// Generation settings; the temperature and the nucleus mass are in millionths.
#[derive(Debug, Clone, Copy, PartialEq, Eq, Structural)]
pub struct GenerationParams {
    pub temperature: i64,
    pub top_p: i64,
    pub max_tokens: usize,
}

/// A persona: its prompt, its rules and its style.
#[derive(Debug, Clone)]
pub struct PersonaArchetype {
    pub name: String,
    pub description: String,
    pub system_prompt: String,
    pub behavior_rules: Vec<String>,
    pub response_style: ResponseStyle,
    pub knowledge_domains: Vec<String>,
}

/// The prompt of the scholar.
pub open spec fn scholar_prompt_spec() -> Seq<char> {
    "Ты — ученый-исследователь с многолетним опытом в различных областях знания.\n\nТвой стиль:\n🔬 Анализируй проблемы с научной точки зрения\n📚 Опирайся на факты и доказательства\n🧠 Структурируй ответы логично и последовательно\n💡 Предлагай несколько вариантов решения\n🔍 Указывай на неопределенности и области для дальнейшего исследования\n\nТвоя цель — помочь пользователю разобраться в сложных вопросах, предоставляя точную, хорошо аргументированную информацию."@
}

/// The prompt of the companion.
pub open spec fn companion_prompt_spec() -> Seq<char> {
    "Ты — верный друг и мудрый собеседник.\n\nТвой стиль:\n🤧 Проявляй эмпатию и понимание\n💬 Общайся естественно и непринужденно\n🎯 Помогай найти решения, поддерживай мотивацию\n🌟 Отмечай сильные стороны пользователя\n🔄 Задавай уточняющие вопросы для лучшего понимания\n\nТвоя цель — создать комфортную атмосферу для откровенного разговора и помочь пользователю в любых жизненных ситуациях."@
}

impl PersonaArchetype {
    /// The prompt for one question: the persona's own prompt, what memory has
    /// to say, the question, and a cue to answer in the persona's manner.
    pub open spec fn prompt_spec(&self, user_input: Seq<char>, memory: Seq<char>) -> Seq<char> {
        self.system_prompt@ + "\n\n"@ + memory + "\n\n=== Текущий вопрос ===\n"@ + user_input
            + "\n\n=== Ответ в стиле "@ + self.name@ + " ==="@
    }

    /// Writes the prompt for one question.
    pub fn format_prompt_with_memory(&self, user_input: &str, memory_context: &MemoryContext) -> (prompt:
        String)
        ensures
            prompt@ == self.prompt_spec(user_input@, memory_context.format_for_prompt_spec()),
    {
        let memory = memory_context.format_for_prompt();
        let mut out: Vec<char> = Vec::new();
        append_str(&mut out, self.system_prompt.as_str());
        append_str(&mut out, "\n\n");
        append_str(&mut out, memory.as_str());
        append_str(&mut out, "\n\n=== Текущий вопрос ===\n");
        append_str(&mut out, user_input);
        append_str(&mut out, "\n\n=== Ответ в стиле ");
        append_str(&mut out, self.name.as_str());
        append_str(&mut out, " ===");
        assert(out@ =~= self.prompt_spec(user_input@, memory_context.format_for_prompt_spec()));
        string_of(out.as_slice())
    }

    /// The generation settings that go with the persona's style.
    pub fn get_generation_params(&self) -> (params: GenerationParams)
        ensures
            params.temperature == match self.response_style.creativity {
                CreativityLevel::Factual => 100_000i64,
                CreativityLevel::Analytical => 300_000i64,
                CreativityLevel::Creative => 700_000i64,
                CreativityLevel::Imaginative => 900_000i64,
            },
            params.top_p == 900_000,
            params.max_tokens == match self.response_style.verbosity {
                VerbosityLevel::Concise => 100usize,
                VerbosityLevel::Balanced => 300usize,
                VerbosityLevel::Detailed => 600usize,
                VerbosityLevel::Comprehensive => 1000usize,
            },
    {
        GenerationParams {
            temperature: match self.response_style.creativity {
                CreativityLevel::Factual => 100_000,
                CreativityLevel::Analytical => 300_000,
                CreativityLevel::Creative => 700_000,
                CreativityLevel::Imaginative => 900_000,
            },
            top_p: 900_000,
            max_tokens: match self.response_style.verbosity {
                VerbosityLevel::Concise => 100,
                VerbosityLevel::Balanced => 300,
                VerbosityLevel::Detailed => 600,
                VerbosityLevel::Comprehensive => 1000,
            },
        }
    }

    /// The scholar: academic, detailed, analytical, even-tempered.
    pub fn default_scholar() -> (persona: PersonaArchetype)
        ensures
            persona.name@ == "Ученый"@,
            persona.description@ == "Академичная, аналитическая личность с глубокими знаниями"@,
            persona.system_prompt@ == scholar_prompt_spec(),
            string_views(persona.behavior_rules@) == seq![
                "Всегда проверяй факты перед ответом"@,
                "Структурируй ответ по пунктам"@,
                "Указывай источники знаний"@,
                "Признавай границы своих знаний"@,
            ],
            persona.response_style == (ResponseStyle {
                formality: FormalityLevel::Academic,
                verbosity: VerbosityLevel::Detailed,
                creativity: CreativityLevel::Analytical,
                emotion: EmotionLevel::Neutral,
            }),
            string_views(persona.knowledge_domains@) == seq![
                "Наука"@,
                "Технологии"@,
                "Философия"@,
                "Математика"@,
            ],
    {
        let mut behavior_rules: Vec<String> = Vec::new();
        behavior_rules.push(owned("Всегда проверяй факты перед ответом"));
        behavior_rules.push(owned("Структурируй ответ по пунктам"));
        behavior_rules.push(owned("Указывай источники знаний"));
        behavior_rules.push(owned("Признавай границы своих знаний"));
        let mut knowledge_domains: Vec<String> = Vec::new();
        knowledge_domains.push(owned("Наука"));
        knowledge_domains.push(owned("Технологии"));
        knowledge_domains.push(owned("Философия"));
        knowledge_domains.push(owned("Математика"));
        let persona = PersonaArchetype {
            name: owned("Ученый"),
            description: owned("Академичная, аналитическая личность с глубокими знаниями"),
            system_prompt: owned(
                "Ты — ученый-исследователь с многолетним опытом в различных областях знания.\n\nТвой стиль:\n🔬 Анализируй проблемы с научной точки зрения\n📚 Опирайся на факты и доказательства\n🧠 Структурируй ответы логично и последовательно\n💡 Предлагай несколько вариантов решения\n🔍 Указывай на неопределенности и области для дальнейшего исследования\n\nТвоя цель — помочь пользователю разобраться в сложных вопросах, предоставляя точную, хорошо аргументированную информацию.",
            ),
            behavior_rules,
            response_style: ResponseStyle {
                formality: FormalityLevel::Academic,
                verbosity: VerbosityLevel::Detailed,
                creativity: CreativityLevel::Analytical,
                emotion: EmotionLevel::Neutral,
            },
            knowledge_domains,
        };
        assert(string_views(persona.behavior_rules@) =~= seq![
            "Всегда проверяй факты перед ответом"@,
            "Структурируй ответ по пунктам"@,
            "Указывай источники знаний"@,
            "Признавай границы своих знаний"@,
        ]);
        assert(string_views(persona.knowledge_domains@) =~= seq![
            "Наука"@,
            "Технологии"@,
            "Философия"@,
            "Математика"@,
        ]);
        persona
    }

    /// The companion: casual, balanced, creative, empathetic.
    pub fn default_companion() -> (persona: PersonaArchetype)
        ensures
            persona.name@ == "Компаньон"@,
            persona.description@ == "Дружелюбный, поддерживающий собеседник"@,
            persona.system_prompt@ == companion_prompt_spec(),
            string_views(persona.behavior_rules@) == seq![
                "Проявляй искренний интерес"@,
                "Не осуждай и не критикуй"@,
                "Поддерживай позитивный настрой"@,
                "Делись личным опытом (умышленным)"@,
            ],
            persona.response_style == (ResponseStyle {
                formality: FormalityLevel::Casual,
                verbosity: VerbosityLevel::Balanced,
                creativity: CreativityLevel::Creative,
                emotion: EmotionLevel::Empathetic,
            }),
            string_views(persona.knowledge_domains@) == seq![
                "Психология"@,
                "Жизненный опыт"@,
                "Мотивация"@,
                "Межличностные отношения"@,
            ],
    {
        let mut behavior_rules: Vec<String> = Vec::new();
        behavior_rules.push(owned("Проявляй искренний интерес"));
        behavior_rules.push(owned("Не осуждай и не критикуй"));
        behavior_rules.push(owned("Поддерживай позитивный настрой"));
        behavior_rules.push(owned("Делись личным опытом (умышленным)"));
        let mut knowledge_domains: Vec<String> = Vec::new();
        knowledge_domains.push(owned("Психология"));
        knowledge_domains.push(owned("Жизненный опыт"));
        knowledge_domains.push(owned("Мотивация"));
        knowledge_domains.push(owned("Межличностные отношения"));
        let persona = PersonaArchetype {
            name: owned("Компаньон"),
            description: owned("Дружелюбный, поддерживающий собеседник"),
            system_prompt: owned(
                "Ты — верный друг и мудрый собеседник.\n\nТвой стиль:\n🤧 Проявляй эмпатию и понимание\n💬 Общайся естественно и непринужденно\n🎯 Помогай найти решения, поддерживай мотивацию\n🌟 Отмечай сильные стороны пользователя\n🔄 Задавай уточняющие вопросы для лучшего понимания\n\nТвоя цель — создать комфортную атмосферу для откровенного разговора и помочь пользователю в любых жизненных ситуациях.",
            ),
            behavior_rules,
            response_style: ResponseStyle {
                formality: FormalityLevel::Casual,
                verbosity: VerbosityLevel::Balanced,
                creativity: CreativityLevel::Creative,
                emotion: EmotionLevel::Empathetic,
            },
            knowledge_domains,
        };
        assert(string_views(persona.behavior_rules@) =~= seq![
            "Проявляй искренний интерес"@,
            "Не осуждай и не критикуй"@,
            "Поддерживай позитивный настрой"@,
            "Делись личным опытом (умышленным)"@,
        ]);
        assert(string_views(persona.knowledge_domains@) =~= seq![
            "Психология"@,
            "Жизненный опыт"@,
            "Мотивация"@,
            "Межличностные отношения"@,
        ]);
        persona
    }
}

/// How a persona addresses people.
#[derive(Debug, Clone)]
pub struct CommunicationStyle {
    /// One of "technical", "casual", "formal", "warm", "socratic", "neutral".
    pub style: String,
    pub greeting: String,
    /// Whether the polite form of address is used.
    pub use_honorifics: bool,
    /// One of "rare", "moderate", "frequent".
    pub emoji_frequency: String,
    /// One of "short", "medium", "long".
    pub max_response_length: String,
    /// What closes every message.
    pub signature: String,
}

impl Default for CommunicationStyle {
    fn default() -> (style: CommunicationStyle)
        ensures
            style.style@ == "neutral"@,
            style.greeting@ == "Hello!"@,
            !style.use_honorifics,
            style.emoji_frequency@ == "rare"@,
            style.max_response_length@ == "medium"@,
            style.signature@ == Seq::<char>::empty(),
    {
        CommunicationStyle {
            style: owned("neutral"),
            greeting: owned("Hello!"),
            use_honorifics: false,
            emoji_frequency: owned("rare"),
            max_response_length: owned("medium"),
            signature: String::new(),
        }
    }
}

/// Where persona templates are kept.
pub struct ArchetypeLoader;

impl ArchetypeLoader {
    /// The file of the template `archetype_id` in the directory `directory`.
    pub fn archetype_path(directory: &str, archetype_id: &str) -> (path: String)
        ensures
            path@ == directory@ + "/"@ + archetype_id@ + ".json"@,
    {
        let mut out: Vec<char> = Vec::new();
        append_str(&mut out, directory);
        append_str(&mut out, "/");
        append_str(&mut out, archetype_id);
        append_str(&mut out, ".json");
        assert(out@ =~= directory@ + "/"@ + archetype_id@ + ".json"@);
        string_of(out.as_slice())
    }
}

/// Where the context handed from one session to the next is kept.
pub struct ContextStorage;

/// Seconds in a day.
pub const SECONDS_PER_DAY: u64 = 86_400;

impl ContextStorage {
    /// The file that holds the context of the persona `archetype_id`.
    pub fn context_path(archetype_id: &str) -> (path: String)
        ensures
            path@ == "data/session_context/"@ + archetype_id@ + ".json"@,
    {
        let mut out: Vec<char> = Vec::new();
        append_str(&mut out, "data/session_context/");
        append_str(&mut out, archetype_id);
        append_str(&mut out, ".json");
        assert(out@ =~= "data/session_context/"@ + archetype_id@ + ".json"@);
        string_of(out.as_slice())
    }

    /// Whole days from `last_interaction` to `now`, both in seconds since the epoch.
    pub open spec fn days_old(last_interaction: u64, now: u64) -> int {
        if now <= last_interaction {
            0
        } else {
            (now - last_interaction) / (SECONDS_PER_DAY as int)
        }
    }

    /// Whether a stored context is too old to use: it is when more than
    /// `max_days` whole days have passed since the last interaction. Where no
    /// context is stored (`last_interaction` is `None`) nothing has expired,
    /// nor has anything under a negative limit.
    pub fn is_expired(last_interaction: Option<u64>, now: u64, max_days: i64) -> (expired: bool)
        ensures
            expired == match last_interaction {
                Some(last) => max_days >= 0 && Self::days_old(last, now) > max_days,
                None => false,
            },
    {
        match last_interaction {
            Some(last) => {
                if max_days < 0 || now <= last {
                    false
                } else {
                    (now - last) / SECONDS_PER_DAY > max_days as u64
                }
            },
            None => false,
        }
    }
}

} // verus!
