//! What a recall hands to the prompt.

use vstd::prelude::*;
use crate::text::append_decimal;
use crate::text::append_str;
use crate::text::decimal_spec;
use crate::text::join;
use crate::text::join_spec;
use crate::text::owned;
use crate::text::string_of;
use crate::text::string_views;

verus! {

/// How much a recall found and how long it took.
#[derive(Debug, Clone, Copy, PartialEq, Eq, Structural)]
pub struct SearchStats {
    /// Episodes found.
    pub episodes_found: usize,
    /// Concepts found.
    pub concepts_found: usize,
    /// Time spent searching episodes, in milliseconds.
    pub episode_search_time_ms: u64,
    /// Time spent searching concepts, in milliseconds.
    pub concept_search_time_ms: u64,
}

/// What memory has to say on a query.
#[derive(Debug, Clone)]
pub struct MemoryContext {
    /// The last turns of the current dialogue.
    pub current_dialogue: String,
    /// Relevant episodes of the past, each ready for display.
    pub relevant_episodes: Vec<String>,
    /// Relevant knowledge, each item ready for display.
    pub relevant_concepts: Vec<String>,
    /// How the search went.
    pub search_stats: SearchStats,
}

/// The numbered lines for the episodes `from ..` of `episodes`.
pub open spec fn episode_lines_spec(episodes: Seq<Seq<char>>) -> Seq<Seq<char>> {
    Seq::new(
        episodes.len(),
        |i: int| "🗨️ Episode "@ + decimal_spec((i + 1) as nat) + ": "@ + episodes[i],
    )
}

/// The lines for the knowledge items.
pub open spec fn concept_lines_spec(concepts: Seq<Seq<char>>) -> Seq<Seq<char>> {
    Seq::new(concepts.len(), |i: int| "🧠 "@ + concepts[i])
}

impl MemoryContext {
    /// The blocks of the prompt section, in order: knowledge, episodes,
    /// current dialogue; each under its heading and followed by an empty line,
    /// and each left out when it has nothing to show.
    pub open spec fn prompt_lines_spec(&self) -> Seq<Seq<char>> {
        let concepts = string_views(self.relevant_concepts@);
        let episodes = string_views(self.relevant_episodes@);
        let first = if concepts.len() > 0 {
            seq!["=== 📚 Relevant Knowledge ==="@] + concept_lines_spec(concepts) + seq![
                Seq::<char>::empty(),
            ]
        } else {
            Seq::<Seq<char>>::empty()
        };
        let second = if episodes.len() > 0 {
            seq!["=== 📝 Relevant Past Dialogues ==="@] + episode_lines_spec(episodes) + seq![
                Seq::<char>::empty(),
            ]
        } else {
            Seq::<Seq<char>>::empty()
        };
        let third = if self.current_dialogue@.len() > 0 {
            seq!["=== 💬 Current Dialogue ==="@, self.current_dialogue@, Seq::<char>::empty()]
        } else {
            Seq::<Seq<char>>::empty()
        };
        first + second + third
    }

    /// The prompt section: the lines joined by line breaks.
    pub open spec fn format_for_prompt_spec(&self) -> Seq<char> {
        join_spec(self.prompt_lines_spec(), "\n"@)
    }

    /// Writes the context as a section of a prompt.
    pub fn format_for_prompt(&self) -> (section: String)
        ensures
            section@ == self.format_for_prompt_spec(),
    {
        let mut lines: Vec<String> = Vec::new();
        let ghost concepts = string_views(self.relevant_concepts@);
        let ghost episodes = string_views(self.relevant_episodes@);
        let ghost mut first = Seq::<Seq<char>>::empty();
        assert(string_views(lines@) =~= first);
        if self.relevant_concepts.len() > 0 {
            lines.push(owned("=== 📚 Relevant Knowledge ==="));
            let mut i: usize = 0;
            assert(string_views(lines@) =~= seq!["=== 📚 Relevant Knowledge ==="@]
                + concept_lines_spec(concepts).take(0));
            while i < self.relevant_concepts.len()
                invariant
                    i <= self.relevant_concepts.len(),
                    concepts == string_views(self.relevant_concepts@),
                    string_views(lines@) == seq!["=== 📚 Relevant Knowledge ==="@]
                        + concept_lines_spec(concepts).take(i as int),
                decreases self.relevant_concepts.len() - i,
            {
                let mut line: Vec<char> = Vec::new();
                append_str(&mut line, "🧠 ");
                append_str(&mut line, self.relevant_concepts[i].as_str());
                let ghost before = string_views(lines@);
                let text = string_of(line.as_slice());
                lines.push(text);
                proof {
                    assert(line@ =~= concept_lines_spec(concepts)[i as int]);
                    assert(string_views(lines@) =~= before.push(line@));
                    assert(concept_lines_spec(concepts).take(i + 1) =~= concept_lines_spec(
                        concepts,
                    ).take(i as int).push(line@));
                    assert(string_views(lines@) =~= seq!["=== 📚 Relevant Knowledge ==="@]
                        + concept_lines_spec(concepts).take(i + 1));
                }
                i = i + 1;
            }
            let ghost before = string_views(lines@);
            lines.push(String::new());
            proof {
                assert(concept_lines_spec(concepts).take(i as int) =~= concept_lines_spec(concepts));
                first = seq!["=== 📚 Relevant Knowledge ==="@] + concept_lines_spec(concepts)
                    + seq![Seq::<char>::empty()];
                assert(string_views(lines@) =~= before.push(Seq::<char>::empty()));
                assert(string_views(lines@) =~= first);
            }
        }
        let ghost mut second = Seq::<Seq<char>>::empty();
        if self.relevant_episodes.len() > 0 {
            let ghost before = string_views(lines@);
            lines.push(owned("=== 📝 Relevant Past Dialogues ==="));
            let mut i: usize = 0;
            assert(string_views(lines@) =~= first + (seq!["=== 📝 Relevant Past Dialogues ==="@]
                + episode_lines_spec(episodes).take(0)));
            while i < self.relevant_episodes.len()
                invariant
                    i <= self.relevant_episodes.len(),
                    episodes == string_views(self.relevant_episodes@),
                    string_views(lines@) == first + (seq!["=== 📝 Relevant Past Dialogues ==="@]
                        + episode_lines_spec(episodes).take(i as int)),
                decreases self.relevant_episodes.len() - i,
            {
                let mut line: Vec<char> = Vec::new();
                append_str(&mut line, "🗨️ Episode ");
                append_decimal(&mut line, (i as u64) + 1);
                append_str(&mut line, ": ");
                append_str(&mut line, self.relevant_episodes[i].as_str());
                let ghost before = string_views(lines@);
                let text = string_of(line.as_slice());
                lines.push(text);
                proof {
                    assert(line@ =~= episode_lines_spec(episodes)[i as int]);
                    assert(string_views(lines@) =~= before.push(line@));
                    assert(episode_lines_spec(episodes).take(i + 1) =~= episode_lines_spec(
                        episodes,
                    ).take(i as int).push(line@));
                    assert(string_views(lines@) =~= first + (seq![
                        "=== 📝 Relevant Past Dialogues ==="@,
                    ] + episode_lines_spec(episodes).take(i + 1)));
                }
                i = i + 1;
            }
            let ghost before = string_views(lines@);
            lines.push(String::new());
            proof {
                assert(episode_lines_spec(episodes).take(i as int) =~= episode_lines_spec(episodes));
                second = seq!["=== 📝 Relevant Past Dialogues ==="@] + episode_lines_spec(episodes)
                    + seq![Seq::<char>::empty()];
                assert(string_views(lines@) =~= before.push(Seq::<char>::empty()));
                assert(string_views(lines@) =~= first + second);
            }
        } else {
            assert(string_views(lines@) =~= first + second);
        }
        if !self.current_dialogue.as_str().is_empty() {
            let ghost before = string_views(lines@);
            lines.push(owned("=== 💬 Current Dialogue ==="));
            lines.push(self.current_dialogue.clone());
            lines.push(String::new());
            proof {
                assert(string_views(lines@) =~= before + seq![
                    "=== 💬 Current Dialogue ==="@,
                    self.current_dialogue@,
                    Seq::<char>::empty(),
                ]);
            }
        } else {
            assert(string_views(lines@) =~= first + second + Seq::<Seq<char>>::empty());
        }
        let joined = join(&lines, "\n");
        string_of(joined.as_slice())
    }
}

} // verus!
