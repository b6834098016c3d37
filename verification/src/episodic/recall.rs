//! Hybrid recall of past exchanges: similarity of embeddings and shared
//! keywords, merged into one ranked list of quotations.

use vstd::prelude::*;
use crate::episodic::manager::DialogueManager;
use crate::episodic::manager::DialogueManagerView;
use crate::fixed::UNIT;
use crate::metadata::lookup_spec;
use crate::ranking::rank;
use crate::ranking::ranking_spec;
use crate::ranking::lemma_ranking_is_ranked;
use crate::similarity::cosine_spec;
use crate::similarity::lemma_cosine_bounds;
use crate::text::append_chars;
use crate::text::append_decimal;
use crate::text::append_str;
use crate::text::chars_of;
use crate::text::contains;
use crate::text::contains_spec;
use crate::text::contains_str;
use crate::text::decimal_spec;
use crate::text::last_index_spec;
use crate::text::lowercase;
use crate::text::lowercase_spec;
use crate::text::rfind_char;
use crate::text::slice_chars;
use crate::text::split_whitespace;
use crate::text::string_of;
use crate::text::words_spec;
use crate::vector_store::entry_views;
use crate::vector_store::located_are;
use crate::vector_store::search_by_type_spec;
use crate::vector_store::MemoryEntry;
use crate::vector_store::MemoryEntryView;
use crate::vector_store::MemoryType;
use crate::vector_store::MemoryTypeView;
use crate::vector_store::VectorStoreView;

verus! {

/// Below this score a recollection is noise.
pub const NOISE_FLOOR: i64 = 300_000;

/// What a keyword match scores on top of its share of matched keywords.
pub const KEYWORD_BONUS: i64 = 100_000;

/// Character budget of one quotation.
pub const QUOTE_BUDGET: usize = 200;

/// A candidate recollection: a score and the position of a record in the store.
#[derive(Debug, Clone)]
pub struct Candidate {
    pub score: i64,
    pub position: usize,
}

/// The keywords of a query: its words of more than three characters.
pub open spec fn keywords_spec(query: Seq<char>) -> Seq<Seq<char>> {
    words_spec(query).filter(|word: Seq<char>| word.len() > 3)
}

/// What the user said in the exchange that `entry` records.
pub open spec fn user_text_spec(entry: MemoryEntryView) -> Seq<char> {
    match lookup_spec(entry.metadata, "user_query"@) {
        Some(text) => text,
        None => entry.text,
    }
}

/// What the assistant answered in the exchange that `entry` records.
pub open spec fn assistant_text_spec(entry: MemoryEntryView) -> Seq<char> {
    match lookup_spec(entry.metadata, "assistant_response"@) {
        Some(text) => text,
        None => Seq::empty(),
    }
}

/// The text of an exchange in which keywords are looked for: both sides in
/// lower case.
pub open spec fn searchable_spec(entry: MemoryEntryView) -> Seq<char> {
    lowercase_spec(user_text_spec(entry)) + " "@ + lowercase_spec(assistant_text_spec(entry))
}

/// How many of `keywords` occur, in lower case, in `text`.
pub open spec fn matched_spec(keywords: Seq<Seq<char>>, text: Seq<char>) -> nat
    decreases keywords.len(),
{
    if keywords.len() == 0 {
        0
    } else {
        matched_spec(keywords.drop_last(), text) + if contains_spec(
            text,
            lowercase_spec(keywords.last()),
        ) {
            1nat
        } else {
            0nat
        }
    }
}

/// The keyword score of an exchange: the share of the keywords that occur in it.
pub open spec fn keyword_score_spec(keywords: Seq<Seq<char>>, entry: MemoryEntryView) -> int {
    (matched_spec(keywords, searchable_spec(entry)) * UNIT) / (keywords.len() as int)
}

/// Whether `entry` records an exchange in which at least one keyword occurs.
pub open spec fn keyword_hit_spec(keywords: Seq<Seq<char>>, entry: MemoryEntryView) -> bool {
    entry.memory_type is Episodic && matched_spec(keywords, searchable_spec(entry)) > 0
}

/// The exchanges in which at least one keyword occurs, each with its keyword
/// score, in the order of the store.
pub open spec fn keyword_matches_spec(entries: Seq<MemoryEntryView>, keywords: Seq<Seq<char>>)
    -> Seq<Candidate>
    decreases entries.len(),
{
    if entries.len() == 0 {
        Seq::empty()
    } else {
        let earlier = keyword_matches_spec(entries.drop_last(), keywords);
        if keyword_hit_spec(keywords, entries.last()) {
            earlier.push(
                Candidate {
                    score: keyword_score_spec(keywords, entries.last()) as i64,
                    position: (entries.len() - 1) as usize,
                },
            )
        } else {
            earlier
        }
    }
}

/// The scores of a list of candidates.
pub open spec fn scores_of(candidates: Seq<Candidate>) -> Seq<i64> {
    Seq::new(candidates.len(), |i: int| candidates[i].score)
}

/// `candidates` by descending score, equal scores in their given order.
pub open spec fn sorted_spec(candidates: Seq<Candidate>) -> Seq<Candidate> {
    let order = ranking_spec(scores_of(candidates));
    Seq::new(candidates.len(), |i: int| candidates[order[i] as int])
}

/// The first `count` of `candidates`.
pub open spec fn first_spec(candidates: Seq<Candidate>, count: nat) -> Seq<Candidate> {
    if count < candidates.len() {
        candidates.take(count as int)
    } else {
        candidates
    }
}

/// What the keyword search finds: the best `top_k` keyword matches, or
/// nothing for a query without keywords.
pub open spec fn keyword_search_spec(entries: Seq<MemoryEntryView>, query: Seq<char>, top_k: nat)
    -> Seq<Candidate> {
    let keywords = keywords_spec(query);
    if keywords.len() == 0 {
        Seq::empty()
    } else {
        first_spec(sorted_spec(keyword_matches_spec(entries, keywords)), top_k)
    }
}

/// Three times `top_k`, or the largest count there is.
pub open spec fn tripled_spec(top_k: usize) -> usize {
    if top_k > usize::MAX / 3 {
        usize::MAX
    } else {
        (3 * top_k) as usize
    }
}

/// The candidates of the similarity search: the best `3 * top_k` exchanges.
pub open spec fn vector_candidates_spec(store: VectorStoreView, embedding: Seq<u32>, top_k: usize)
    -> Seq<Candidate> {
    let found = search_by_type_spec(
        store,
        embedding,
        MemoryTypeView::Episodic { session_id: 0, turn: 0 },
        tripled_spec(top_k) as nat,
    );
    Seq::new(
        found.len(),
        |i: int|
            Candidate {
                score: cosine_spec(embedding, store.entries[found[i] as int].embedding) as i64,
                position: found[i],
            },
    )
}

/// The keyword matches with their bonus.
pub open spec fn boosted_spec(candidates: Seq<Candidate>) -> Seq<Candidate> {
    Seq::new(
        candidates.len(),
        |i: int|
            Candidate {
                score: (candidates[i].score + KEYWORD_BONUS) as i64,
                position: candidates[i].position,
            },
    )
}

/// Which exchange a record stands for: session and turn.
pub open spec fn exchange_key_spec(entry: MemoryEntryView) -> (u128, usize) {
    match entry.memory_type {
        MemoryTypeView::Episodic { session_id, turn } => (session_id, turn),
        _ => (0u128, 0usize),
    }
}

/// Whether one of `candidates` stands for the exchange `key`.
pub open spec fn seen_spec(
    candidates: Seq<Candidate>,
    entries: Seq<MemoryEntryView>,
    key: (u128, usize),
) -> bool
    decreases candidates.len(),
{
    candidates.len() > 0 && (exchange_key_spec(entries[candidates.last().position as int]) == key
        || seen_spec(candidates.drop_last(), entries, key))
}

/// Texts that were stored while trying things out, and empty ones.
pub open spec fn is_placeholder_spec(text: Seq<char>) -> bool {
    text.len() == 0 || contains_spec(text, "# Test"@) || contains_spec(text, "TEST"@)
}

/// Whether a candidate is worth quoting: it scores at or above the noise
/// floor and what the user said is neither empty nor a placeholder.
pub open spec fn relevant_spec(candidate: Candidate, entries: Seq<MemoryEntryView>) -> bool {
    candidate.score >= NOISE_FLOOR && !is_placeholder_spec(
        user_text_spec(entries[candidate.position as int]),
    )
}

/// Of `candidates`, in order: for every exchange its first candidate only,
/// and of those the relevant ones.
pub open spec fn kept_spec(candidates: Seq<Candidate>, entries: Seq<MemoryEntryView>) -> Seq<
    Candidate,
>
    decreases candidates.len(),
{
    if candidates.len() == 0 {
        Seq::empty()
    } else {
        let earlier = candidates.drop_last();
        let last = candidates.last();
        let kept = kept_spec(earlier, entries);
        if !seen_spec(earlier, entries, exchange_key_spec(entries[last.position as int]))
            && relevant_spec(last, entries) {
            kept.push(last)
        } else {
            kept
        }
    }
}

/// The recollections for a query: similarity candidates and boosted keyword
/// matches together, by descending score; one per exchange; without noise and
/// placeholders; the best `top_k`.
pub open spec fn recollections_spec(
    store: VectorStoreView,
    query: Seq<char>,
    embedding: Seq<u32>,
    top_k: usize,
) -> Seq<Candidate> {
    let merged = vector_candidates_spec(store, embedding, top_k) + boosted_spec(
        keyword_search_spec(store.entries, query, top_k as nat),
    );
    first_spec(kept_spec(sorted_spec(merged), store.entries), top_k as nat)
}

/// A quotation that is over budget: cut to the budget, then back to just
/// behind the last quotation mark within it, or else to just before the last
/// space, or else left at the budget; and closed with a mark and an ellipsis.
pub open spec fn shortened_spec(quotation: Seq<char>) -> Seq<char> {
    if quotation.len() > QUOTE_BUDGET {
        let cut = match last_index_spec(quotation, '"', QUOTE_BUDGET as int) {
            Some(at) => at + 1,
            None => match last_index_spec(quotation, ' ', QUOTE_BUDGET as int) {
                Some(at) => at,
                None => QUOTE_BUDGET as int,
            },
        };
        quotation.take(cut) + "\"..."@
    } else {
        quotation
    }
}

/// The whole percents of a score.
pub open spec fn percent_spec(score: i64) -> nat {
    if score <= 0 {
        0
    } else {
        ((score * 100) / (UNIT as int)) as nat
    }
}

/// One recollection as it is shown: the relevance in percent and a quotation
/// of what the user said.
pub open spec fn recollection_line_spec(score: i64, user_text: Seq<char>) -> Seq<char> {
    "[Relevance: "@ + decimal_spec(percent_spec(score)) + "%] "@ + shortened_spec(
        "FROM PAST: User said \""@ + user_text + "\""@,
    )
}

/// The lines for a list of recollections.
pub open spec fn recollection_lines_spec(kept: Seq<Candidate>, entries: Seq<MemoryEntryView>) -> Seq<
    Seq<char>,
> {
    Seq::new(
        kept.len(),
        |i: int|
            recollection_line_spec(kept[i].score, user_text_spec(entries[kept[i].position as int])),
    )
}

/// Writes one recollection: the relevance in percent and a quotation of what
/// the user said, within the quotation budget.
pub fn format_recollection(score: i64, user_text: &str) -> (line: String)
    ensures
        line@ == recollection_line_spec(score, user_text@),
{
    let mut quotation: Vec<char> = Vec::new();
    append_str(&mut quotation, "FROM PAST: User said \"");
    append_str(&mut quotation, user_text);
    append_str(&mut quotation, "\"");
    assert(quotation@ =~= "FROM PAST: User said \""@ + user_text@ + "\""@);
    let mut out: Vec<char> = Vec::new();
    append_str(&mut out, "[Relevance: ");
    let percent: u64 = if score <= 0 {
        0
    } else {
        ((score as i128 * 100) / (UNIT as i128)) as u64
    };
    append_decimal(&mut out, percent);
    append_str(&mut out, "%] ");
    if quotation.len() > QUOTE_BUDGET {
        let cut = match rfind_char(quotation.as_slice(), '"', QUOTE_BUDGET) {
            Some(at) => at + 1,
            None => match rfind_char(quotation.as_slice(), ' ', QUOTE_BUDGET) {
                Some(at) => at,
                None => QUOTE_BUDGET,
            },
        };
        let head = slice_chars(quotation.as_slice(), 0, cut);
        append_chars(&mut out, head.as_slice());
        append_str(&mut out, "\"...");
    } else {
        append_chars(&mut out, quotation.as_slice());
    }
    assert(out@ =~= recollection_line_spec(score, user_text@));
    string_of(out.as_slice())
}

/// The keywords of a query.
pub fn keywords_of(query: &str) -> (keywords: Vec<Vec<char>>)
    ensures
        keywords@.len() == keywords_spec(query@).len(),
        forall|i: int|
            0 <= i < keywords@.len() ==> (#[trigger] keywords@[i])@ == keywords_spec(query@)[i],
{
    let chars = chars_of(query);
    let words = split_whitespace(chars.as_slice());
    let ghost all = words_spec(query@);
    let ghost long = |word: Seq<char>| word.len() > 3;
    let mut keywords: Vec<Vec<char>> = Vec::new();
    let mut i: usize = 0;
    proof {
        reveal(Seq::filter);
        assert(all.take(0).filter(long) =~= Seq::<Seq<char>>::empty());
    }
    while i < words.len()
        invariant
            i <= words.len(),
            all == words_spec(query@),
            long == (|word: Seq<char>| word.len() > 3),
            words@.len() == all.len(),
            forall|j: int| 0 <= j < words@.len() ==> (#[trigger] words@[j])@ == all[j],
            keywords@.len() == all.take(i as int).filter(long).len(),
            forall|j: int|
                0 <= j < keywords@.len() ==> (#[trigger] keywords@[j])@ == all.take(i as int).filter(
                    long,
                )[j],
        decreases words.len() - i,
    {
        proof {
            reveal(Seq::filter);
            assert(all.take(i + 1).drop_last() =~= all.take(i as int));
            assert(all.take(i + 1).last() == all[i as int]);
            assert(words@[i as int]@ == all[i as int]);
        }
        if words[i].len() > 3 {
            keywords.push(words[i].clone());
            proof {
                assert(keywords@.last()@ =~= words@[i as int]@);
            }
        }
        i = i + 1;
    }
    proof {
        assert(all.take(i as int) =~= all);
    }
    keywords
}

/// What the user said in the exchange that `entry` records.
pub fn user_text(entry: &MemoryEntry) -> (text: &String)
    ensures
        text@ == user_text_spec(entry@),
{
    match entry.metadata.get("user_query") {
        Some(text) => text,
        None => &entry.text,
    }
}

/// The text of an exchange in which keywords are looked for.
fn searchable(entry: &MemoryEntry) -> (text: Vec<char>)
    ensures
        text@ == searchable_spec(entry@),
{
    let user = chars_of(user_text(entry).as_str());
    let mut text = lowercase(user.as_slice());
    append_str(&mut text, " ");
    match entry.metadata.get("assistant_response") {
        Some(answer) => {
            let chars = chars_of(answer.as_str());
            let lower = lowercase(chars.as_slice());
            append_chars(&mut text, lower.as_slice());
        },
        None => {
            let nothing: Vec<char> = Vec::new();
            let lower = lowercase(nothing.as_slice());
            append_chars(&mut text, lower.as_slice());
            assert(nothing@ =~= Seq::<char>::empty());
        },
    }
    text
}

/// How many of the keywords occur in `text`; the keywords are given in lower case.
fn count_matches(lowered: &Vec<Vec<char>>, text: &Vec<char>, Ghost(keywords): Ghost<Seq<Seq<char>>>) -> (count:
    usize)
    requires
        lowered@.len() == keywords.len(),
        forall|i: int| 0 <= i < lowered@.len() ==> (#[trigger] lowered@[i])@ == lowercase_spec(keywords[i]),
    ensures
        count == matched_spec(keywords, text@),
        count <= keywords.len(),
{
    let mut count: usize = 0;
    let mut i: usize = 0;
    while i < lowered.len()
        invariant
            i <= lowered.len(),
            lowered@.len() == keywords.len(),
            forall|j: int|
                0 <= j < lowered@.len() ==> (#[trigger] lowered@[j])@ == lowercase_spec(keywords[j]),
            count == matched_spec(keywords.take(i as int), text@),
            count <= i,
        decreases lowered.len() - i,
    {
        proof {
            assert(keywords.take(i + 1).drop_last() =~= keywords.take(i as int));
            assert(keywords.take(i + 1).last() == keywords[i as int]);
        }
        if contains(text.as_slice(), lowered[i].as_slice()) {
            count = count + 1;
        }
        i = i + 1;
    }
    proof {
        assert(keywords.take(i as int) =~= keywords);
    }
    count
}

/// Sorts candidates by descending score, equal scores in their given order.
fn sort_candidates(candidates: &Vec<Candidate>) -> (sorted: Vec<Candidate>)
    ensures
        sorted@ == sorted_spec(candidates@),
{
    let mut scores: Vec<i64> = Vec::new();
    let mut i: usize = 0;
    while i < candidates.len()
        invariant
            i <= candidates.len(),
            scores@ == scores_of(candidates@).take(i as int),
        decreases candidates.len() - i,
    {
        proof {
            assert(scores_of(candidates@).take(i + 1) =~= scores_of(candidates@).take(
                i as int,
            ).push(candidates@[i as int].score));
        }
        scores.push(candidates[i].score);
        i = i + 1;
    }
    proof {
        assert(scores_of(candidates@).take(i as int) =~= scores_of(candidates@));
        lemma_ranking_is_ranked(scores@);
    }
    let order = rank(&scores);
    let mut sorted: Vec<Candidate> = Vec::new();
    let mut k: usize = 0;
    while k < order.len()
        invariant
            k <= order.len(),
            order@ == ranking_spec(scores_of(candidates@)),
            order@.len() == candidates@.len(),
            forall|j: int| 0 <= j < order@.len() ==> (#[trigger] order@[j]) < candidates@.len(),
            sorted@ == sorted_spec(candidates@).take(k as int),
        decreases order.len() - k,
    {
        let at = order[k];
        proof {
            assert(sorted_spec(candidates@).take(k + 1) =~= sorted_spec(candidates@).take(
                k as int,
            ).push(candidates@[at as int]));
        }
        sorted.push(Candidate { score: candidates[at].score, position: candidates[at].position });
        k = k + 1;
    }
    proof {
        assert(sorted_spec(candidates@).take(k as int) =~= sorted_spec(candidates@));
    }
    sorted
}

/// Cuts a list of candidates to its first `count`.
fn keep_first(candidates: Vec<Candidate>, count: usize) -> (first: Vec<Candidate>)
    ensures
        first@ == first_spec(candidates@, count as nat),
{
    let mut first = candidates;
    if count < first.len() {
        first.truncate(count);
        assert(first@ =~= candidates@.take(count as int));
    }
    first
}

impl DialogueManager {
    /// The exchanges that share keywords with `query`: the best `top_k` by
    /// the share of keywords that occur in them.
    pub fn keyword_search(&self, query: &str, top_k: usize) -> (found: Vec<Candidate>)
        ensures
            found@ == keyword_search_spec(self@.store.entries, query@, top_k as nat),
            forall|i: int|
                0 <= i < found@.len() ==> (#[trigger] found@[i]).position < self@.store.entries.len()
                    && 0 <= found@[i].score <= UNIT,
    {
        let keywords = keywords_of(query);
        if keywords.len() == 0 {
            return Vec::new();
        }
        let ghost wanted = keywords_spec(query@);
        let mut lowered: Vec<Vec<char>> = Vec::new();
        let mut i: usize = 0;
        while i < keywords.len()
            invariant
                i <= keywords.len(),
                wanted == keywords_spec(query@),
                keywords@.len() == wanted.len(),
                forall|j: int| 0 <= j < keywords@.len() ==> (#[trigger] keywords@[j])@ == wanted[j],
                lowered@.len() == i,
                forall|j: int| 0 <= j < i ==> (#[trigger] lowered@[j])@ == lowercase_spec(wanted[j]),
            decreases keywords.len() - i,
        {
            lowered.push(lowercase(keywords[i].as_slice()));
            i = i + 1;
        }
        let entries = self.vector_store().entries();
        let ghost views = self@.store.entries;
        let mut matches: Vec<Candidate> = Vec::new();
        let mut at: usize = 0;
        let total = keywords.len();
        while at < entries.len()
            invariant
                at <= entries.len(),
                views == entry_views(entries@),
                wanted.len() == total,
                total > 0,
                lowered@.len() == wanted.len(),
                forall|j: int|
                    0 <= j < lowered@.len() ==> (#[trigger] lowered@[j])@ == lowercase_spec(
                        wanted[j],
                    ),
                matches@ == keyword_matches_spec(views.take(at as int), wanted),
                forall|j: int|
                    0 <= j < matches@.len() ==> (#[trigger] matches@[j]).position < at && 0
                        <= matches@[j].score <= UNIT,
            decreases entries.len() - at,
        {
            proof {
                assert(views.take(at + 1).drop_last() =~= views.take(at as int));
                assert(views.take(at + 1).last() == entries@[at as int]@);
            }
            let entry = &entries[at];
            if entry.memory_type.matches(&MemoryType::Episodic { session_id: 0, turn: 0 }) {
                let text = searchable(entry);
                let count = count_matches(&lowered, &text, Ghost(wanted));
                if count > 0 {
                    proof {
                        assert(0 <= count * 1_000_000 <= total * 1_000_000) by (nonlinear_arith)
                            requires
                                0 <= count <= total,
                        ;
                        assert((count * 1_000_000) / (total as int) <= 1_000_000) by (nonlinear_arith)
                            requires
                                0 <= count * 1_000_000 <= total * 1_000_000,
                                total > 0,
                        ;
                        assert(0 <= (count * 1_000_000) / (total as int)) by (nonlinear_arith)
                            requires
                                0 <= count * 1_000_000,
                                total > 0,
                        ;
                    }
                    let score = ((count as u128 * 1_000_000) / (total as u128)) as i64;
                    matches.push(Candidate { score, position: at });
                }
            }
            at = at + 1;
        }
        proof {
            assert(views.take(at as int) =~= views);
        }
        let matched = matches.len();
        let sorted = sort_candidates(&matches);
        proof {
            assert(scores_of(matches@).len() == matched);
            lemma_ranking_is_ranked(scores_of(matches@));
            let order = ranking_spec(scores_of(matches@));
            assert forall|j: int| 0 <= j < sorted@.len() implies (#[trigger] sorted@[j]).position
                < views.len() && 0 <= sorted@[j].score <= UNIT by {
                assert(order[j] < matches@.len());
                assert(sorted@[j] == matches@[order[j] as int]);
            }
        }
        keep_first(sorted, top_k)
    }

    /// Recalls the exchanges most relevant to a query, given the query's
    /// text and its embedding: at most `top_k` lines, best first, each a
    /// quotation of what the user said with its relevance in percent.
    pub fn find_similar_dialogues_embedded(&mut self, query: &str, query_embedding: &[u32], top_k: usize) -> (lines:
        Vec<String>)
        ensures
            final(self)@ == (DialogueManagerView {
                store: VectorStoreView {
                    query_count: crate::vector_store::VectorStore::next_count(
                        old(self)@.store.query_count,
                    ),
                    ..old(self)@.store
                },
                ..old(self)@
            }),
            crate::text::string_views(lines@) == recollection_lines_spec(
                recollections_spec(old(self)@.store, query@, query_embedding@, top_k),
                old(self)@.store.entries,
            ),
    {
        let ghost store = self@.store;
        let wide = if top_k > usize::MAX / 3 {
            usize::MAX
        } else {
            3 * top_k
        };
        let located = self.locate_exchanges(query_embedding, wide);
        let ghost found = search_by_type_spec(
            store,
            query_embedding@,
            MemoryTypeView::Episodic { session_id: 0, turn: 0 },
            wide as nat,
        );
        let mut merged: Vec<Candidate> = Vec::new();
        let mut i: usize = 0;
        while i < located.len()
            invariant
                i <= located.len(),
                located_are(located@, store.entries, query_embedding@, found),
                merged@ == vector_candidates_spec(store, query_embedding@, top_k).take(i as int),
                found == search_by_type_spec(
                    store,
                    query_embedding@,
                    MemoryTypeView::Episodic { session_id: 0, turn: 0 },
                    tripled_spec(top_k) as nat,
                ),
                forall|j: int| 0 <= j < i ==> (#[trigger] merged@[j]).position < store.entries.len(),
            decreases located.len() - i,
        {
            proof {
                assert(located@[i as int].1 == found[i as int]);
                lemma_cosine_bounds(
                    query_embedding@,
                    store.entries[found[i as int] as int].embedding,
                );
                assert(vector_candidates_spec(store, query_embedding@, top_k).take(i + 1)
                    =~= vector_candidates_spec(store, query_embedding@, top_k).take(i as int).push(
                    Candidate { score: located@[i as int].0, position: located@[i as int].1 },
                ));
            }
            merged.push(Candidate { score: located[i].0, position: located[i].1 });
            i = i + 1;
        }
        proof {
            assert(vector_candidates_spec(store, query_embedding@, top_k).take(i as int)
                =~= vector_candidates_spec(store, query_embedding@, top_k));
        }
        let by_keyword = self.keyword_search(query, top_k);
        let ghost vector_part = merged@;
        let ghost keyword_part = boosted_spec(by_keyword@);
        let mut k: usize = 0;
        while k < by_keyword.len()
            invariant
                k <= by_keyword.len(),
                merged@ == vector_part + keyword_part.take(k as int),
                keyword_part == boosted_spec(by_keyword@),
                forall|j: int|
                    0 <= j < by_keyword@.len() ==> (#[trigger] by_keyword@[j]).position
                        < store.entries.len() && 0 <= by_keyword@[j].score <= UNIT,
                forall|j: int|
                    0 <= j < merged@.len() ==> (#[trigger] merged@[j]).position < store.entries.len(),
            decreases by_keyword.len() - k,
        {
            let ghost before = merged@;
            proof {
                assert(by_keyword@[k as int].position < store.entries.len());
                assert(vector_part + keyword_part.take(k + 1) =~= (vector_part + keyword_part.take(
                    k as int,
                )).push(keyword_part[k as int]));
            }
            merged.push(
                Candidate {
                    score: by_keyword[k].score + KEYWORD_BONUS,
                    position: by_keyword[k].position,
                },
            );
            proof {
                assert forall|j: int| 0 <= j < merged@.len() implies (#[trigger] merged@[j]).position
                    < store.entries.len() by {
                    if j < before.len() {
                        assert(merged@[j] == before[j]);
                    }
                }
            }
            k = k + 1;
        }
        proof {
            assert(keyword_part.take(k as int) =~= keyword_part);
        }
        let candidates = merged.len();
        let sorted = sort_candidates(&merged);
        proof {
            assert(scores_of(merged@).len() == candidates);
            lemma_ranking_is_ranked(scores_of(merged@));
            let order = ranking_spec(scores_of(merged@));
            assert forall|j: int| 0 <= j < sorted@.len() implies (#[trigger] sorted@[j]).position
                < store.entries.len() by {
                assert(order[j] < merged@.len());
                assert(sorted@[j] == merged@[order[j] as int]);
            }
        }
        let entries = self.vector_store().entries();
        let mut kept: Vec<Candidate> = Vec::new();
        let mut at: usize = 0;
        while at < sorted.len()
            invariant
                at <= sorted.len(),
                store.entries == entry_views(entries@),
                forall|j: int|
                    0 <= j < sorted@.len() ==> (#[trigger] sorted@[j]).position < store.entries.len(),
                kept@ == kept_spec(sorted@.take(at as int), store.entries),
                forall|j: int|
                    0 <= j < kept@.len() ==> (#[trigger] kept@[j]).position < store.entries.len(),
            decreases sorted.len() - at,
        {
            let candidate = &sorted[at];
            let entry = &entries[candidate.position];
            proof {
                assert(sorted@.take(at + 1).drop_last() =~= sorted@.take(at as int));
                assert(sorted@.take(at + 1).last() == sorted@[at as int]);
                assert(store.entries[candidate.position as int] == entry@);
            }
            // whether an earlier candidate stands for the same exchange
            let mut seen = false;
            let mut j: usize = 0;
            let ghost key = exchange_key_spec(entry@);
            while j < at
                invariant
                    j <= at <= sorted.len(),
                    store.entries == entry_views(entries@),
                    forall|n: int|
                        0 <= n < sorted@.len() ==> (#[trigger] sorted@[n]).position
                            < store.entries.len(),
                    seen == seen_spec(sorted@.take(j as int), store.entries, key),
                    key == exchange_key_spec(entry@),
                decreases at - j,
            {
                let other = &entries[sorted[j].position];
                proof {
                    assert(sorted@.take(j + 1).drop_last() =~= sorted@.take(j as int));
                    assert(sorted@.take(j + 1).last() == sorted@[j as int]);
                    assert(store.entries[sorted@[j as int].position as int] == other@);
                }
                if same_exchange(&entry.memory_type, &other.memory_type) {
                    seen = true;
                }
                j = j + 1;
            }
            let ghost before = kept@;
            if !seen && candidate.score >= NOISE_FLOOR {
                let said = chars_of(user_text(entry).as_str());
                if said.len() > 0 && !contains_str(said.as_slice(), "# Test") && !contains_str(
                    said.as_slice(),
                    "TEST",
                ) {
                    kept.push(Candidate { score: candidate.score, position: candidate.position });
                    proof {
                        assert forall|n: int| 0 <= n < kept@.len() implies (
                        #[trigger] kept@[n]).position < store.entries.len() by {
                            if n < before.len() {
                                assert(kept@[n] == before[n]);
                            }
                        }
                    }
                }
            }
            at = at + 1;
        }
        proof {
            assert(sorted@.take(at as int) =~= sorted@);
        }
        let best = keep_first(kept, top_k);
        let ghost wanted = recollection_lines_spec(best@, store.entries);
        let mut lines: Vec<String> = Vec::new();
        let mut n: usize = 0;
        while n < best.len()
            invariant
                n <= best.len(),
                store.entries == entry_views(entries@),
                forall|j: int|
                    0 <= j < best@.len() ==> (#[trigger] best@[j]).position < store.entries.len(),
                wanted == recollection_lines_spec(best@, store.entries),
                crate::text::string_views(lines@) == wanted.take(n as int),
            decreases best.len() - n,
        {
            let entry = &entries[best[n].position];
            let line = format_recollection(best[n].score, user_text(entry).as_str());
            proof {
                assert(store.entries[best@[n as int].position as int] == entry@);
                assert(wanted.take(n + 1) =~= wanted.take(n as int).push(line@));
            }
            let ghost before = crate::text::string_views(lines@);
            lines.push(line);
            proof {
                assert(crate::text::string_views(lines@) =~= before.push(line@));
            }
            n = n + 1;
        }
        proof {
            assert(wanted.take(n as int) =~= wanted);
        }
        lines
    }
}

/// Whether two kinds stand for the same exchange.
fn same_exchange(a: &MemoryType, b: &MemoryType) -> (same: bool)
    ensures
        same == (exchange_key_of(a@) == exchange_key_of(b@)),
{
    let left = match a {
        MemoryType::Episodic { session_id, turn } => (*session_id, *turn),
        _ => (0u128, 0usize),
    };
    let right = match b {
        MemoryType::Episodic { session_id, turn } => (*session_id, *turn),
        _ => (0u128, 0usize),
    };
    left.0 == right.0 && left.1 == right.1
}

/// Which exchange a kind stands for.
pub open spec fn exchange_key_of(kind: MemoryTypeView) -> (u128, usize) {
    match kind {
        MemoryTypeView::Episodic { session_id, turn } => (session_id, turn),
        _ => (0u128, 0usize),
    }
}

impl DialogueManager {
    /// Recalls the exchanges most relevant to a query. The query is embedded
    /// first; where the embedder gives no embedding, nothing is recalled and
    /// nothing changes.
    pub fn find_similar_dialogues<E: crate::embedder::Embedder>(
        &mut self,
        embedder: &E,
        query: &str,
        top_k: usize,
    ) -> (outcome: Result<Vec<String>, crate::embedder::MemoryFailure>)
        ensures
            outcome is Err ==> final(self)@ == old(self)@ && outcome->Err_0 is Embedder,
            outcome is Ok ==> final(self)@ == (DialogueManagerView {
                store: VectorStoreView {
                    query_count: crate::vector_store::VectorStore::next_count(
                        old(self)@.store.query_count,
                    ),
                    ..old(self)@.store
                },
                ..old(self)@
            }) && exists|embedding: Seq<u32>|
                crate::text::string_views(outcome->Ok_0@) == recollection_lines_spec(
                    #[trigger] recollections_spec(old(self)@.store, query@, embedding, top_k),
                    old(self)@.store.entries,
                ),
    {
        match embedder.embed(query) {
            Ok(embedding) => Ok(
                self.find_similar_dialogues_embedded(query, embedding.as_slice(), top_k),
            ),
            Err(message) => Err(crate::embedder::MemoryFailure::Embedder { message }),
        }
    }
}

} // verus!
