//! The commands by which a person looks after the semantic memory: what a
//! line of input asks for.

use vstd::prelude::*;
use crate::semantic::concept::ConceptCategory;
use crate::semantic::manager::VOTE_STEP;
use crate::text::append_chars;
use crate::text::append_str;
use crate::text::chars_of;
use crate::text::lowercase;
use crate::text::lowercase_spec;
use crate::text::same_chars;
use crate::text::split_whitespace;
use crate::text::string_of;
use crate::text::trim_end_matches;
use crate::text::trim_end_matches_spec;
use crate::text::trim_start_matches;
use crate::text::trim_start_matches_spec;
use crate::text::words_spec;

verus! {

/// How many concepts a listing shows unless told otherwise.
pub const DEFAULT_LIST_LIMIT: usize = 10;

/// How many concepts a listing of one category shows unless told otherwise.
pub const DEFAULT_CATEGORY_LIMIT: usize = 20;

/// What a line of input asks for.
#[derive(Debug, Clone)]
pub enum SemanticCommand {
    /// Show the commands.
    Help,
    /// List concepts, of all categories or of one.
    List { only: Option<ConceptCategory>, limit: usize },
    /// Show statistics.
    Stats,
    /// Search for concepts.
    Search { query: String },
    /// A search without a query.
    SearchUsage,
    /// Add a concept; the confidence is given as it was written.
    Add { text: String, category: ConceptCategory, confidence: Option<String> },
    /// An addition with too few words.
    AddUsage,
    /// An addition without a category behind the text.
    AddCategoryMissing,
    /// An addition to a category that there is not.
    AddUnknownCategory { name: String },
    /// Delete the concept with the identifier as written.
    Delete { id: String },
    /// A deletion without an identifier.
    DeleteUsage,
    /// Merge concepts that say the same.
    Merge,
    /// Show the concept with the identifier as written.
    Get { id: String },
    /// A request for a concept without an identifier.
    GetUsage,
    /// Move the confidence in a concept by `delta`.
    Vote { id: String, delta: i64 },
    /// A vote with too few words.
    VoteUsage,
    /// A vote in a direction that there is not.
    VoteUnknownDirection { direction: String },
    /// Say how many concepts there are.
    Count,
    /// A command that there is not.
    Unknown { command: String },
}

/// The mathematical value of a `SemanticCommand`.
pub enum SemanticCommandView {
    Help,
    List { only: Option<ConceptCategory>, limit: usize },
    Stats,
    Search { query: Seq<char> },
    SearchUsage,
    Add { text: Seq<char>, category: ConceptCategory, confidence: Option<Seq<char>> },
    AddUsage,
    AddCategoryMissing,
    AddUnknownCategory { name: Seq<char> },
    Delete { id: Seq<char> },
    DeleteUsage,
    Merge,
    Get { id: Seq<char> },
    GetUsage,
    Vote { id: Seq<char>, delta: i64 },
    VoteUsage,
    VoteUnknownDirection { direction: Seq<char> },
    Count,
    Unknown { command: Seq<char> },
}

impl View for SemanticCommand {
    type V = SemanticCommandView;

    open spec fn view(&self) -> SemanticCommandView {
        match self {
            SemanticCommand::Help => SemanticCommandView::Help,
            SemanticCommand::List { only, limit } => SemanticCommandView::List {
                only: *only,
                limit: *limit,
            },
            SemanticCommand::Stats => SemanticCommandView::Stats,
            SemanticCommand::Search { query } => SemanticCommandView::Search { query: query@ },
            SemanticCommand::SearchUsage => SemanticCommandView::SearchUsage,
            SemanticCommand::Add { text, category, confidence } => SemanticCommandView::Add {
                text: text@,
                category: *category,
                confidence: match confidence {
                    Some(written) => Some(written@),
                    None => None,
                },
            },
            SemanticCommand::AddUsage => SemanticCommandView::AddUsage,
            SemanticCommand::AddCategoryMissing => SemanticCommandView::AddCategoryMissing,
            SemanticCommand::AddUnknownCategory { name } => SemanticCommandView::AddUnknownCategory {
                name: name@,
            },
            SemanticCommand::Delete { id } => SemanticCommandView::Delete { id: id@ },
            SemanticCommand::DeleteUsage => SemanticCommandView::DeleteUsage,
            SemanticCommand::Merge => SemanticCommandView::Merge,
            SemanticCommand::Get { id } => SemanticCommandView::Get { id: id@ },
            SemanticCommand::GetUsage => SemanticCommandView::GetUsage,
            SemanticCommand::Vote { id, delta } => SemanticCommandView::Vote {
                id: id@,
                delta: *delta,
            },
            SemanticCommand::VoteUsage => SemanticCommandView::VoteUsage,
            SemanticCommand::VoteUnknownDirection { direction } => {
                SemanticCommandView::VoteUnknownDirection { direction: direction@ }
            },
            SemanticCommand::Count => SemanticCommandView::Count,
            SemanticCommand::Unknown { command } => SemanticCommandView::Unknown {
                command: command@,
            },
        }
    }
}

/// The value of a decimal digit.
pub open spec fn digit_value_spec(c: char) -> Option<nat> {
    if c == '0' {
        Some(0nat)
    } else if c == '1' {
        Some(1nat)
    } else if c == '2' {
        Some(2nat)
    } else if c == '3' {
        Some(3nat)
    } else if c == '4' {
        Some(4nat)
    } else if c == '5' {
        Some(5nat)
    } else if c == '6' {
        Some(6nat)
    } else if c == '7' {
        Some(7nat)
    } else if c == '8' {
        Some(8nat)
    } else if c == '9' {
        Some(9nat)
    } else {
        None
    }
}

/// The number that a run of decimal digits denotes, where it is one and the
/// number is a count that fits.
pub open spec fn digits_spec(word: Seq<char>) -> Option<nat>
    decreases word.len(),
{
    if word.len() == 0 {
        Some(0nat)
    } else {
        match (digits_spec(word.drop_last()), digit_value_spec(word.last())) {
            (Some(head), Some(digit)) => if head * 10 + digit <= usize::MAX {
                Some(head * 10 + digit)
            } else {
                None
            },
            _ => None,
        }
    }
}

/// The count that a word denotes: decimal digits, at least one, with or
/// without a plus sign before them.
pub open spec fn count_spec(word: Seq<char>) -> Option<nat> {
    let digits = if word.len() > 0 && word[0] == '+' {
        word.skip(1)
    } else {
        word
    };
    if digits.len() == 0 {
        None
    } else {
        digits_spec(digits)
    }
}

/// The value of a decimal digit.
fn digit_value(c: char) -> (value: Option<usize>)
    ensures
        match value {
            Some(v) => digit_value_spec(c) == Some(v as nat) && v < 10,
            None => digit_value_spec(c) is None,
        },
{
    if c == '0' {
        Some(0)
    } else if c == '1' {
        Some(1)
    } else if c == '2' {
        Some(2)
    } else if c == '3' {
        Some(3)
    } else if c == '4' {
        Some(4)
    } else if c == '5' {
        Some(5)
    } else if c == '6' {
        Some(6)
    } else if c == '7' {
        Some(7)
    } else if c == '8' {
        Some(8)
    } else if c == '9' {
        Some(9)
    } else {
        None
    }
}

/// Reads a count.
pub fn parse_count(word: &[char]) -> (count: Option<usize>)
    ensures
        match count {
            Some(n) => count_spec(word@) == Some(n as nat),
            None => count_spec(word@) is None,
        },
{
    let start: usize = if word.len() > 0 && word[0] == '+' {
        1
    } else {
        0
    };
    if start >= word.len() {
        proof {
            assert(word@.skip(start as int).len() == 0);
            if start == 0 {
                assert(word@.len() == 0);
            }
        }
        return None;
    }
    let ghost digits = if start == 1 {
        word@.skip(1)
    } else {
        word@
    };
    let mut value: usize = 0;
    let mut i: usize = start;
    proof {
        assert(digits.take(0) =~= Seq::<char>::empty());
    }
    while i < word.len()
        invariant
            start <= i <= word.len(),
            start <= 1,
            start < word.len(),
            start == 1 <==> word@[0] == '+',
            digits == (if start == 1 {
                word@.skip(1)
            } else {
                word@
            }),
            digits_spec(digits.take(i - start)) == Some(value as nat),
        decreases word.len() - i,
    {
        proof {
            assert(digits.take(i - start + 1).drop_last() =~= digits.take(i - start));
            assert(digits.take(i - start + 1).last() == word@[i as int]);
        }
        let digit = match digit_value(word[i]) {
            Some(digit) => digit,
            None => {
                proof {
                    lemma_digits_fail(digits, i - start + 1);
                }
                return None;
            },
        };
        if value > (usize::MAX - digit) / 10 {
            proof {
                assert(value * 10 + digit > usize::MAX) by (nonlinear_arith)
                    requires
                        value > (usize::MAX - digit) / 10,
                        0 <= digit < 10,
                ;
                lemma_digits_fail(digits, i - start + 1);
            }
            return None;
        }
        proof {
            assert(value * 10 + digit <= usize::MAX) by (nonlinear_arith)
                requires
                    value <= (usize::MAX - digit) / 10,
                    0 <= digit < 10,
            ;
        }
        value = value * 10 + digit;
        i = i + 1;
    }
    proof {
        assert(digits.take(i - start) =~= digits);
    }
    Some(value)
}

/// Once the first digits denote no count, no more digits help.
proof fn lemma_digits_fail(word: Seq<char>, upto: int)
    requires
        0 <= upto <= word.len(),
        digits_spec(word.take(upto)) is None,
    ensures
        digits_spec(word) is None,
    decreases word.len() - upto,
{
    if upto < word.len() {
        assert(word.take(upto + 1).drop_last() =~= word.take(upto));
        lemma_digits_fail(word, upto + 1);
    } else {
        assert(word.take(upto) =~= word);
    }
}

/// The category that a lower-case word names in a listing.
pub open spec fn listed_category_spec(word: Seq<char>) -> Option<ConceptCategory> {
    if word == "facts"@ {
        Some(ConceptCategory::Facts)
    } else if word == "rules"@ {
        Some(ConceptCategory::Rules)
    } else if word == "preferences"@ || word == "pref"@ {
        Some(ConceptCategory::Preferences)
    } else if word == "skills"@ {
        Some(ConceptCategory::Skills)
    } else if word == "general"@ {
        Some(ConceptCategory::General)
    } else {
        None
    }
}

/// The category that a word names in an addition.
pub open spec fn added_category_spec(word: Seq<char>) -> Option<ConceptCategory> {
    if word == "facts"@ {
        Some(ConceptCategory::Facts)
    } else if word == "rules"@ {
        Some(ConceptCategory::Rules)
    } else if word == "preferences"@ || word == "pref"@ {
        Some(ConceptCategory::Preferences)
    } else if word == "skills"@ {
        Some(ConceptCategory::Skills)
    } else {
        None
    }
}

/// By how much a vote in the direction that a lower-case word names moves
/// the confidence.
pub open spec fn vote_delta_spec(direction: Seq<char>) -> Option<i64> {
    if direction == "up"@ || direction == "u"@ || direction == "+"@ {
        Some(VOTE_STEP)
    } else if direction == "down"@ || direction == "d"@ || direction == "-"@ {
        Some((-VOTE_STEP) as i64)
    } else {
        None
    }
}

/// The words from the `from`-th on, joined by single spaces.
pub open spec fn joined_from_spec(words: Seq<Seq<char>>, from: int, upto: int) -> Seq<char>
    decreases upto - from,
{
    if upto <= from {
        Seq::empty()
    } else if upto == from + 1 {
        words[from]
    } else {
        joined_from_spec(words, from, upto - 1) + " "@ + words[upto - 1]
    }
}

/// Whether a word ends with a quotation mark.
pub open spec fn closes_quote_spec(word: Seq<char>) -> bool {
    word.len() > 0 && word.last() == '"'
}

/// The text of an addition that opens with a quotation mark, and the place
/// of the word behind it: words are gathered up to the first that ends with
/// a quotation mark, which closes the text.
pub open spec fn gathered_spec(words: Seq<Seq<char>>, text: Seq<char>, at: int) -> (Seq<char>, int)
    decreases words.len() - at,
{
    if at < 0 || at >= words.len() {
        (text, at)
    } else if closes_quote_spec(words[at]) {
        (text + " "@ + trim_end_matches_spec(words[at], "\""@), at + 1)
    } else {
        gathered_spec(words, text + " "@ + words[at], at + 1)
    }
}

/// The text of an addition and the place of the word behind it.
pub open spec fn added_text_spec(words: Seq<Seq<char>>) -> (Seq<char>, int) {
    if words[2].len() > 0 && words[2][0] == '"' {
        gathered_spec(words, trim_start_matches_spec(words[2], "\""@), 3)
    } else {
        (words[2], 3)
    }
}

/// What the words of a line ask for; the second word is the command.
pub open spec fn command_spec(words: Seq<Seq<char>>) -> SemanticCommandView {
    let command = if words.len() > 1 {
        words[1]
    } else {
        Seq::<char>::empty()
    };
    if command == "help"@ || command == "h"@ {
        SemanticCommandView::Help
    } else if command == "list"@ || command == "l"@ {
        if words.len() >= 3 {
            match listed_category_spec(lowercase_spec(words[2])) {
                Some(category) => SemanticCommandView::List {
                    only: Some(category),
                    limit: if words.len() > 3 && count_spec(words[3]) is Some {
                        count_spec(words[3])->0 as usize
                    } else {
                        DEFAULT_CATEGORY_LIMIT
                    },
                },
                None => SemanticCommandView::List {
                    only: None,
                    limit: if count_spec(words[2]) is Some {
                        count_spec(words[2])->0 as usize
                    } else {
                        DEFAULT_LIST_LIMIT
                    },
                },
            }
        } else {
            SemanticCommandView::List { only: None, limit: DEFAULT_LIST_LIMIT }
        }
    } else if command == "stats"@ || command == "st"@ {
        SemanticCommandView::Stats
    } else if command == "search"@ || command == "s"@ {
        if words.len() < 3 {
            SemanticCommandView::SearchUsage
        } else {
            SemanticCommandView::Search { query: joined_from_spec(words, 2, words.len() as int) }
        }
    } else if command == "add"@ || command == "a"@ {
        if words.len() < 4 {
            SemanticCommandView::AddUsage
        } else {
            let (text, at) = added_text_spec(words);
            if at >= words.len() {
                SemanticCommandView::AddCategoryMissing
            } else {
                match added_category_spec(words[at]) {
                    Some(category) => SemanticCommandView::Add {
                        text,
                        category,
                        confidence: if at + 1 < words.len() {
                            Some(words[at + 1])
                        } else {
                            None
                        },
                    },
                    None => SemanticCommandView::AddUnknownCategory { name: words[at] },
                }
            }
        }
    } else if command == "delete"@ || command == "del"@ || command == "remove"@ || command
        == "rm"@ {
        if words.len() < 3 {
            SemanticCommandView::DeleteUsage
        } else {
            SemanticCommandView::Delete { id: words[2] }
        }
    } else if command == "merge"@ {
        SemanticCommandView::Merge
    } else if command == "get"@ {
        if words.len() < 3 {
            SemanticCommandView::GetUsage
        } else {
            SemanticCommandView::Get { id: words[2] }
        }
    } else if command == "vote"@ || command == "v"@ {
        if words.len() < 4 {
            SemanticCommandView::VoteUsage
        } else {
            match vote_delta_spec(lowercase_spec(words[3])) {
                Some(delta) => SemanticCommandView::Vote { id: words[2], delta },
                None => SemanticCommandView::VoteUnknownDirection { direction: words[3] },
            }
        }
    } else if command.len() == 0 {
        SemanticCommandView::Count
    } else {
        SemanticCommandView::Unknown { command }
    }
}

/// Whether a word is the given one.
fn is_word(word: &Vec<char>, wanted: &str) -> (same: bool)
    ensures
        same == (word@ == wanted@),
{
    let other = chars_of(wanted);
    same_chars(word.as_slice(), other.as_slice())
}

/// The category that a lower-case word names in a listing.
fn listed_category(word: &Vec<char>) -> (category: Option<ConceptCategory>)
    ensures
        category == listed_category_spec(word@),
{
    if is_word(word, "facts") {
        Some(ConceptCategory::Facts)
    } else if is_word(word, "rules") {
        Some(ConceptCategory::Rules)
    } else if is_word(word, "preferences") || is_word(word, "pref") {
        Some(ConceptCategory::Preferences)
    } else if is_word(word, "skills") {
        Some(ConceptCategory::Skills)
    } else if is_word(word, "general") {
        Some(ConceptCategory::General)
    } else {
        None
    }
}

/// The category that a word names in an addition.
fn added_category(word: &Vec<char>) -> (category: Option<ConceptCategory>)
    ensures
        category == added_category_spec(word@),
{
    if is_word(word, "facts") {
        Some(ConceptCategory::Facts)
    } else if is_word(word, "rules") {
        Some(ConceptCategory::Rules)
    } else if is_word(word, "preferences") || is_word(word, "pref") {
        Some(ConceptCategory::Preferences)
    } else if is_word(word, "skills") {
        Some(ConceptCategory::Skills)
    } else {
        None
    }
}

/// The values of a list of words.
pub open spec fn word_views(words: Seq<Vec<char>>) -> Seq<Seq<char>> {
    Seq::new(words.len(), |i: int| words[i]@)
}

/// Joins the words from the `from`-th on by single spaces.
fn joined_from(words: &Vec<Vec<char>>, from: usize) -> (text: Vec<char>)
    requires
        from <= words@.len(),
    ensures
        text@ == joined_from_spec(word_views(words@), from as int, words@.len() as int),
{
    let ghost views = word_views(words@);
    let mut text: Vec<char> = Vec::new();
    let mut i: usize = from;
    while i < words.len()
        invariant
            from <= i <= words.len(),
            views == word_views(words@),
            text@ == joined_from_spec(views, from as int, i as int),
        decreases words.len() - i,
    {
        if i > from {
            append_str(&mut text, " ");
        }
        append_chars(&mut text, words[i].as_slice());
        proof {
            assert(views[i as int] == words@[i as int]@);
            assert(text@ =~= joined_from_spec(views, from as int, i + 1));
        }
        i = i + 1;
    }
    text
}

/// Gathers the text of an addition that opens with a quotation mark.
fn gathered(words: &Vec<Vec<char>>, start: Vec<char>) -> (found: (Vec<char>, usize))
    requires
        words@.len() >= 3,
    ensures
        (found.0@, found.1 as int) == gathered_spec(word_views(words@), start@, 3),
        3 <= found.1 <= words@.len(),
{
    let ghost views = word_views(words@);
    let mut text = start;
    let mut at: usize = 3;
    let quote = chars_of("\"");
    while at < words.len()
        invariant
            3 <= at <= words.len(),
            views == word_views(words@),
            quote@ == "\""@,
            gathered_spec(views, start@, 3) == gathered_spec(views, text@, at as int),
        decreases words.len() - at,
    {
        let word = &words[at];
        proof {
            assert(views[at as int] == word@);
        }
        let ghost before = text@;
        append_str(&mut text, " ");
        if word.len() > 0 && word[word.len() - 1] == '"' {
            let closed = trim_end_matches(word.as_slice(), quote.as_slice());
            append_chars(&mut text, closed.as_slice());
            proof {
                assert(text@ =~= before + " "@ + trim_end_matches_spec(word@, "\""@));
            }
            return (text, at + 1);
        }
        append_chars(&mut text, word.as_slice());
        proof {
            assert(text@ =~= before + " "@ + word@);
        }
        at = at + 1;
    }
    (text, at)
}

/// Reads what a line of input asks of the semantic memory.
pub fn parse_semantic_command(input: &str) -> (command: SemanticCommand)
    ensures
        command@ == command_spec(words_spec(input@)),
{
    let words = split_whitespace(chars_of(input).as_slice());
    let ghost views = words_spec(input@);
    proof {
        assert(word_views(words@) =~= views);
    }
    let nothing: Vec<char> = Vec::new();
    proof {
        assert(nothing@ =~= Seq::<char>::empty());
        if words.len() > 1 {
            assert(views[1] == words@[1]@);
        }
        if words.len() > 2 {
            assert(views[2] == words@[2]@);
        }
        if words.len() > 3 {
            assert(views[3] == words@[3]@);
        }
    }
    let command = if words.len() > 1 {
        &words[1]
    } else {
        &nothing
    };
    if is_word(command, "help") || is_word(command, "h") {
        SemanticCommand::Help
    } else if is_word(command, "list") || is_word(command, "l") {
        if words.len() >= 3 {
            let lower = lowercase(words[2].as_slice());
            match listed_category(&lower) {
                Some(category) => {
                    let limit = if words.len() > 3 {
                        match parse_count(words[3].as_slice()) {
                            Some(limit) => limit,
                            None => DEFAULT_CATEGORY_LIMIT,
                        }
                    } else {
                        DEFAULT_CATEGORY_LIMIT
                    };
                    SemanticCommand::List { only: Some(category), limit }
                },
                None => {
                    let limit = match parse_count(words[2].as_slice()) {
                        Some(limit) => limit,
                        None => DEFAULT_LIST_LIMIT,
                    };
                    SemanticCommand::List { only: None, limit }
                },
            }
        } else {
            SemanticCommand::List { only: None, limit: DEFAULT_LIST_LIMIT }
        }
    } else if is_word(command, "stats") || is_word(command, "st") {
        SemanticCommand::Stats
    } else if is_word(command, "search") || is_word(command, "s") {
        if words.len() < 3 {
            SemanticCommand::SearchUsage
        } else {
            let query = joined_from(&words, 2);
            SemanticCommand::Search { query: string_of(query.as_slice()) }
        }
    } else if is_word(command, "add") || is_word(command, "a") {
        if words.len() < 4 {
            SemanticCommand::AddUsage
        } else {
            let (text, at) = if words[2].len() > 0 && words[2][0] == '"' {
                let quote = chars_of("\"");
                let opened = trim_start_matches(words[2].as_slice(), quote.as_slice());
                gathered(&words, opened)
            } else {
                let plain = crate::text::slice_chars(words[2].as_slice(), 0, words[2].len());
                proof {
                    assert(plain@ =~= words@[2]@);
                }
                (plain, 3)
            };
            if at >= words.len() {
                SemanticCommand::AddCategoryMissing
            } else {
                proof {
                    assert(views[at as int] == words@[at as int]@);
                    if at + 1 < words.len() {
                        assert(views[at + 1] == words@[at + 1]@);
                    }
                }
                match added_category(&words[at]) {
                    Some(category) => SemanticCommand::Add {
                        text: string_of(text.as_slice()),
                        category,
                        confidence: if at + 1 < words.len() {
                            Some(string_of(words[at + 1].as_slice()))
                        } else {
                            None
                        },
                    },
                    None => SemanticCommand::AddUnknownCategory {
                        name: string_of(words[at].as_slice()),
                    },
                }
            }
        }
    } else if is_word(command, "delete") || is_word(command, "del") || is_word(command, "remove")
        || is_word(command, "rm") {
        if words.len() < 3 {
            SemanticCommand::DeleteUsage
        } else {
            SemanticCommand::Delete { id: string_of(words[2].as_slice()) }
        }
    } else if is_word(command, "merge") {
        SemanticCommand::Merge
    } else if is_word(command, "get") {
        if words.len() < 3 {
            SemanticCommand::GetUsage
        } else {
            SemanticCommand::Get { id: string_of(words[2].as_slice()) }
        }
    } else if is_word(command, "vote") || is_word(command, "v") {
        if words.len() < 4 {
            SemanticCommand::VoteUsage
        } else {
            let direction = lowercase(words[3].as_slice());
            if is_word(&direction, "up") || is_word(&direction, "u") || is_word(&direction, "+") {
                SemanticCommand::Vote { id: string_of(words[2].as_slice()), delta: VOTE_STEP }
            } else if is_word(&direction, "down") || is_word(&direction, "d") || is_word(
                &direction,
                "-",
            ) {
                SemanticCommand::Vote { id: string_of(words[2].as_slice()), delta: -VOTE_STEP }
            } else {
                SemanticCommand::VoteUnknownDirection {
                    direction: string_of(words[3].as_slice()),
                }
            }
        }
    } else if command.len() == 0 {
        SemanticCommand::Count
    } else {
        SemanticCommand::Unknown { command: string_of(command.as_slice()) }
    }
}

} // verus!
