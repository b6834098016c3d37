//! Analysing a session with the help of a text-generation model: the
//! prompts that are put to the model, and what is made of its answers.

use vstd::prelude::*;
use crate::episodic::session::turn_views;
use crate::episodic::session::Turn;
use crate::episodic::session::TurnView;
use crate::text::append_chars;
use crate::text::append_decimal;
use crate::text::append_str;
use crate::text::chars_of;
use crate::text::decimal_spec;
use crate::text::string_of;
use crate::text::string_views;
use crate::text::trim;
use crate::text::trim_end_matches;
use crate::text::trim_end_matches_spec;
use crate::text::trim_spec;
use crate::text::trim_start_matches;
use crate::text::trim_start_matches_spec;

verus! {

/// The error of `serde_json`, carried through and never looked into.
#[verifier::external_type_specification]
#[verifier::external_body]
pub struct ExJsonError(serde_json::Error);

/// A text-generation model: for a prompt, a text of at most `max_tokens`
/// tokens, or a message that says why there is none.
pub trait LlmPipeline {
    fn generate(&self, prompt: &str, max_tokens: usize) -> Result<String, String>;
}

/// What a session analysis finds. The emotional state runs from the most
/// negative, nothing, to the most positive, one, in millionths.
#[derive(Debug, Clone)]
pub struct SessionAnalysis {
    pub summary: String,
    pub key_topics: Vec<String>,
    pub emotional_state: i64,
    pub last_topic: String,
    pub turn_count: usize,
}

/// Tokens allowed for a summary.
pub const SUMMARY_TOKENS: usize = 300;

/// Tokens allowed for a list of topics.
pub const TOPICS_TOKENS: usize = 200;

/// Tokens allowed for the topic of the last question.
pub const LAST_TOPIC_TOKENS: usize = 50;

/// What `serde_json::from_str` reads from a text as a list of strings, or
/// nothing where the text is not the JSON of such a list.
pub uninterp spec fn string_list_spec(text: Seq<char>) -> Option<Seq<Seq<char>>>;

/// Reads a JSON list of strings by `serde_json::from_str`. The grammar is
/// the crate's and is only named here.
#[verifier::external_body]
pub(crate) fn read_string_list(text: &str) -> (list: Result<Vec<String>, serde_json::Error>)
    ensures
        (list is Ok) == (string_list_spec(text@) is Some),
        list is Ok ==> string_views(list->Ok_0@) == string_list_spec(text@)->0,
{
    serde_json::from_str::<Vec<String>>(text)
}

/// The exchanges as they are shown to the model for a summary: numbered,
/// and separated by empty lines.
pub open spec fn numbered_dialogue_spec(turns: Seq<TurnView>) -> Seq<char>
    decreases turns.len(),
{
    if turns.len() == 0 {
        Seq::empty()
    } else {
        let block = "Turn "@ + decimal_spec(turns.len()) + ":\nUser: "@ + turns.last().user
            + "\nAssistant: "@ + turns.last().assistant + "\n"@;
        if turns.len() == 1 {
            block
        } else {
            numbered_dialogue_spec(turns.drop_last()) + "\n"@ + block
        }
    }
}

/// The exchanges as they are shown to the model for topics: separated by
/// rules.
pub open spec fn plain_dialogue_spec(turns: Seq<TurnView>) -> Seq<char>
    decreases turns.len(),
{
    if turns.len() == 0 {
        Seq::empty()
    } else {
        let block = "User: "@ + turns.last().user + "\nAssistant: "@ + turns.last().assistant;
        if turns.len() == 1 {
            block
        } else {
            plain_dialogue_spec(turns.drop_last()) + "\n---\n"@ + block
        }
    }
}

/// The prompt that asks for a summary.
pub open spec fn summary_prompt_spec(turns: Seq<TurnView>) -> Seq<char> {
    "<s>[INST] Ты — ассистент по анализу диалогов. Кратко опиши, о чём был разговор (2-3 предложения на русском).\n\nДиалог:\n"@
        + numbered_dialogue_spec(turns) + "\n\nКраткое содержание:[/INST]"@
}

/// The prompt that asks for the key topics.
pub open spec fn topics_prompt_spec(turns: Seq<TurnView>) -> Seq<char> {
    "<s>[INST] Извлеки ключевые темы из диалога. Верни только JSON массив строк, например: [\"тема1\", \"тема2\", \"тема3\"].\nНе более 5 тем. Темы должны быть короткими (1-2 слова), на русском языке.\n\nДиалог:\n"@
        + plain_dialogue_spec(turns) + "\n\nТемы:[/INST]"@
}

/// The prompt that asks how the user feels.
pub open spec fn mood_prompt_spec(turns: Seq<TurnView>) -> Seq<char> {
    "<s>[INST] Определи эмоциональное состояние пользователя по диалогу.\n Верни только число от 0.0 (негативное/грустное) до 1.0 (позитивное/радостное).\n\nДиалог:\n"@
        + plain_dialogue_spec(turns) + "\n\nЧисло:[/INST]"@
}

/// The prompt that asks for the topic of a question.
pub open spec fn last_topic_prompt_spec(question: Seq<char>) -> Seq<char> {
    "<s>[INST] Определи, о чём был последний вопрос пользователя (1-2 слова на русском).\nВопрос: "@
        + question + "\n\nТема:[/INST]"@
}

/// Writes the exchanges for a summary.
fn numbered_dialogue(turns: &[Turn]) -> (text: Vec<char>)
    ensures
        text@ == numbered_dialogue_spec(turn_views(turns@)),
{
    let ghost views = turn_views(turns@);
    let mut text: Vec<char> = Vec::new();
    let mut i: usize = 0;
    while i < turns.len()
        invariant
            i <= turns.len(),
            views == turn_views(turns@),
            text@ == numbered_dialogue_spec(views.take(i as int)),
        decreases turns.len() - i,
    {
        let ghost before = text@;
        proof {
            assert(views.take(i + 1).drop_last() =~= views.take(i as int));
            assert(views.take(i + 1).last() == turns@[i as int]@);
        }
        if i > 0 {
            append_str(&mut text, "\n");
        }
        append_str(&mut text, "Turn ");
        append_decimal(&mut text, i as u64 + 1);
        append_str(&mut text, ":\nUser: ");
        append_str(&mut text, turns[i].user.as_str());
        append_str(&mut text, "\nAssistant: ");
        append_str(&mut text, turns[i].assistant.as_str());
        append_str(&mut text, "\n");
        proof {
            assert(text@ =~= numbered_dialogue_spec(views.take(i + 1)));
        }
        i = i + 1;
    }
    proof {
        assert(views.take(i as int) =~= views);
    }
    text
}

/// Writes the exchanges for topics.
fn plain_dialogue(turns: &[Turn]) -> (text: Vec<char>)
    ensures
        text@ == plain_dialogue_spec(turn_views(turns@)),
{
    let ghost views = turn_views(turns@);
    let mut text: Vec<char> = Vec::new();
    let mut i: usize = 0;
    while i < turns.len()
        invariant
            i <= turns.len(),
            views == turn_views(turns@),
            text@ == plain_dialogue_spec(views.take(i as int)),
        decreases turns.len() - i,
    {
        proof {
            assert(views.take(i + 1).drop_last() =~= views.take(i as int));
            assert(views.take(i + 1).last() == turns@[i as int]@);
        }
        if i > 0 {
            append_str(&mut text, "\n---\n");
        }
        append_str(&mut text, "User: ");
        append_str(&mut text, turns[i].user.as_str());
        append_str(&mut text, "\nAssistant: ");
        append_str(&mut text, turns[i].assistant.as_str());
        proof {
            assert(text@ =~= plain_dialogue_spec(views.take(i + 1)));
        }
        i = i + 1;
    }
    proof {
        assert(views.take(i as int) =~= views);
    }
    text
}

/// Writes the prompt that asks for a summary of the exchanges.
pub fn summary_prompt(turns: &[Turn]) -> (prompt: String)
    ensures
        prompt@ == summary_prompt_spec(turn_views(turns@)),
{
    let mut out: Vec<char> = Vec::new();
    append_str(
        &mut out,
        "<s>[INST] Ты — ассистент по анализу диалогов. Кратко опиши, о чём был разговор (2-3 предложения на русском).\n\nДиалог:\n",
    );
    let dialogue = numbered_dialogue(turns);
    append_chars(&mut out, dialogue.as_slice());
    append_str(&mut out, "\n\nКраткое содержание:[/INST]");
    assert(out@ =~= summary_prompt_spec(turn_views(turns@)));
    string_of(out.as_slice())
}

/// Writes the prompt that asks for the key topics of the exchanges.
pub fn topics_prompt(turns: &[Turn]) -> (prompt: String)
    ensures
        prompt@ == topics_prompt_spec(turn_views(turns@)),
{
    let mut out: Vec<char> = Vec::new();
    append_str(
        &mut out,
        "<s>[INST] Извлеки ключевые темы из диалога. Верни только JSON массив строк, например: [\"тема1\", \"тема2\", \"тема3\"].\nНе более 5 тем. Темы должны быть короткими (1-2 слова), на русском языке.\n\nДиалог:\n",
    );
    let dialogue = plain_dialogue(turns);
    append_chars(&mut out, dialogue.as_slice());
    append_str(&mut out, "\n\nТемы:[/INST]");
    assert(out@ =~= topics_prompt_spec(turn_views(turns@)));
    string_of(out.as_slice())
}

/// Writes the prompt that asks how the user feels in the exchanges, as a
/// number from nothing (low) to one (high).
pub fn mood_prompt(turns: &[Turn]) -> (prompt: String)
    ensures
        prompt@ == mood_prompt_spec(turn_views(turns@)),
{
    let mut out: Vec<char> = Vec::new();
    append_str(
        &mut out,
        "<s>[INST] Определи эмоциональное состояние пользователя по диалогу.\n Верни только число от 0.0 (негативное/грустное) до 1.0 (позитивное/радостное).\n\nДиалог:\n",
    );
    let dialogue = plain_dialogue(turns);
    append_chars(&mut out, dialogue.as_slice());
    append_str(&mut out, "\n\nЧисло:[/INST]");
    assert(out@ =~= mood_prompt_spec(turn_views(turns@)));
    string_of(out.as_slice())
}

/// Tokens allowed for the number that says how the user feels.
pub const MOOD_TOKENS: usize = 50;

/// Writes the prompt that asks for the topic of a question.
pub fn last_topic_prompt(question: &str) -> (prompt: String)
    ensures
        prompt@ == last_topic_prompt_spec(question@),
{
    let mut out: Vec<char> = Vec::new();
    append_str(
        &mut out,
        "<s>[INST] Определи, о чём был последний вопрос пользователя (1-2 слова на русском).\nВопрос: ",
    );
    append_str(&mut out, question);
    append_str(&mut out, "\n\nТема:[/INST]");
    assert(out@ =~= last_topic_prompt_spec(question@));
    string_of(out.as_slice())
}

/// An answer without the white space and the code fences around it.
pub open spec fn unfenced_spec(response: Seq<char>) -> Seq<char> {
    trim_spec(
        trim_end_matches_spec(
            trim_start_matches_spec(
                trim_start_matches_spec(trim_spec(response), "```json"@),
                "```"@,
            ),
            "```"@,
        ),
    )
}

/// An unfenced answer without the brackets around it, put in brackets.
pub open spec fn rebracketed_spec(cleaned: Seq<char>) -> Seq<char> {
    "["@ + trim_end_matches_spec(trim_start_matches_spec(cleaned, "["@), "]"@) + "]"@
}

/// The topics that an answer of the model lists: what it reads as once the
/// code fences are off, or else what it reads as with its brackets set right.
pub open spec fn topics_spec(response: Seq<char>) -> Option<Seq<Seq<char>>> {
    let cleaned = unfenced_spec(response);
    match string_list_spec(cleaned) {
        Some(topics) => Some(topics),
        None => string_list_spec(rebracketed_spec(cleaned)),
    }
}

/// Takes the white space and the code fences off an answer.
pub fn unfenced(response: &str) -> (cleaned: Vec<char>)
    ensures
        cleaned@ == unfenced_spec(response@),
{
    let chars = chars_of(response);
    let trimmed = trim(chars.as_slice());
    let fence = chars_of("```");
    let a = trim_start_matches(trimmed.as_slice(), chars_of("```json").as_slice());
    let b = trim_start_matches(a.as_slice(), fence.as_slice());
    let c = trim_end_matches(b.as_slice(), fence.as_slice());
    trim(c.as_slice())
}

/// The message for an answer that lists no topics.
pub open spec fn no_topics_spec() -> Seq<char> {
    "Failed to parse topics"@
}

/// Reads the topics that an answer of the model lists.
pub fn parse_topics(response: &str) -> (outcome: Result<Vec<String>, String>)
    ensures
        match outcome {
            Ok(topics) => topics_spec(response@) == Some(string_views(topics@)),
            Err(message) => topics_spec(response@) is None && message@ == no_topics_spec(),
        },
{
    let cleaned = unfenced(response);
    let text = string_of(cleaned.as_slice());
    match read_string_list(text.as_str()) {
        Ok(topics) => Ok(topics),
        Err(_) => {
            let inner = trim_end_matches(
                trim_start_matches(cleaned.as_slice(), chars_of("[").as_slice()).as_slice(),
                chars_of("]").as_slice(),
            );
            let mut again: Vec<char> = Vec::new();
            append_str(&mut again, "[");
            append_chars(&mut again, inner.as_slice());
            append_str(&mut again, "]");
            assert(again@ =~= rebracketed_spec(cleaned@));
            let retry = string_of(again.as_slice());
            match read_string_list(retry.as_str()) {
                Ok(topics) => Ok(topics),
                Err(_) => Err(crate::text::owned("Failed to parse topics")),
            }
        },
    }
}

/// What is made of an answer that is a short text: the answer, trimmed.
pub fn finish_answer(response: &str) -> (answer: String)
    ensures
        answer@ == trim_spec(response@),
{
    let chars = chars_of(response);
    let trimmed = trim(chars.as_slice());
    string_of(trimmed.as_slice())
}

/// Asks the model for a summary of the exchanges; without exchanges there
/// is nothing to ask, and the summary is empty.
pub fn summarize_session<P: LlmPipeline>(pipeline: &P, turns: &[Turn]) -> (outcome: Result<
    String,
    String,
>)
    ensures
        turns@.len() == 0 ==> outcome is Ok && outcome->Ok_0@.len() == 0,
        turns@.len() > 0 && outcome is Ok ==> exists|response: Seq<char>|
            outcome->Ok_0@ == #[trigger] trim_spec(response),
{
    if turns.len() == 0 {
        return Ok(String::new());
    }
    let prompt = summary_prompt(turns);
    match pipeline.generate(prompt.as_str(), SUMMARY_TOKENS) {
        Ok(response) => Ok(finish_answer(response.as_str())),
        Err(message) => Err(message),
    }
}

/// Asks the model for the key topics of the exchanges; without exchanges
/// there are none.
pub fn extract_topics<P: LlmPipeline>(pipeline: &P, turns: &[Turn]) -> (outcome: Result<
    Vec<String>,
    String,
>)
    ensures
        turns@.len() == 0 ==> outcome is Ok && outcome->Ok_0@.len() == 0,
        turns@.len() > 0 && outcome is Ok ==> exists|response: Seq<char>|
            #[trigger] topics_spec(response) == Some(string_views(outcome->Ok_0@)),
{
    if turns.len() == 0 {
        return Ok(Vec::new());
    }
    let prompt = topics_prompt(turns);
    match pipeline.generate(prompt.as_str(), TOPICS_TOKENS) {
        Ok(response) => parse_topics(response.as_str()),
        Err(message) => Err(message),
    }
}

/// Asks the model for the topic of the last question; without exchanges
/// there is none.
pub fn extract_last_topic<P: LlmPipeline>(pipeline: &P, turns: &[Turn]) -> (outcome: Result<
    String,
    String,
>)
    ensures
        turns@.len() == 0 ==> outcome is Ok && outcome->Ok_0@.len() == 0,
        turns@.len() > 0 && outcome is Ok ==> exists|response: Seq<char>|
            outcome->Ok_0@ == #[trigger] trim_spec(response),
{
    if turns.len() == 0 {
        return Ok(String::new());
    }
    let prompt = last_topic_prompt(turns[turns.len() - 1].user.as_str());
    match pipeline.generate(prompt.as_str(), LAST_TOPIC_TOKENS) {
        Ok(response) => Ok(finish_answer(response.as_str())),
        Err(message) => Err(message),
    }
}

} // verus!
