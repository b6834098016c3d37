//! Turns and sessions.

use vstd::prelude::*;
use crate::clock::now;
use crate::ids::new_id;
use crate::metadata::Metadata;
use crate::text::append_chars;
use crate::text::append_str;
use crate::text::chars_of;
use crate::text::rfind_char;
use crate::text::slice_chars;
use crate::text::string_of;
use crate::text::last_index_spec;
use crate::text::trim_end_spec;

verus! {

/// One exchange: what the user said and what the assistant answered.
#[derive(Debug, Clone)]
pub struct Turn {
    pub user: String,
    pub assistant: String,
    /// When the exchange took place.
    pub timestamp: i64,
    pub metadata: Metadata,
}

/// The mathematical value of a `Turn`.
pub struct TurnView {
    pub user: Seq<char>,
    pub assistant: Seq<char>,
    pub timestamp: i64,
    pub metadata: Seq<(Seq<char>, Seq<char>)>,
}

impl View for Turn {
    type V = TurnView;

    open spec fn view(&self) -> TurnView {
        TurnView {
            user: self.user@,
            assistant: self.assistant@,
            timestamp: self.timestamp,
            metadata: self.metadata@,
        }
    }
}

/// The values of a list of turns.
pub open spec fn turn_views(turns: Seq<Turn>) -> Seq<TurnView> {
    Seq::new(turns.len(), |i: int| turns[i]@)
}

impl Turn {
    /// An exchange that took place at `timestamp`.
    pub fn at(timestamp: i64, user: String, assistant: String) -> (turn: Turn)
        ensures
            turn@ == (TurnView {
                user: user@,
                assistant: assistant@,
                timestamp,
                metadata: Seq::empty(),
            }),
    {
        Turn { user, assistant, timestamp, metadata: Metadata::new() }
    }

    /// An exchange that takes place now.
    pub fn new(user: String, assistant: String) -> (turn: Turn)
        ensures
            turn@ == (TurnView {
                user: user@,
                assistant: assistant@,
                timestamp: turn.timestamp,
                metadata: Seq::empty(),
            }),
    {
        let timestamp = now();
        Turn::at(timestamp, user, assistant)
    }

    /// Both sides of the exchange as one text.
    pub fn combined_text(&self) -> (text: String)
        ensures
            text@ == "User: "@ + self@.user + "\nAssistant: "@ + self@.assistant,
    {
        let mut out: Vec<char> = Vec::new();
        append_str(&mut out, "User: ");
        append_str(&mut out, self.user.as_str());
        append_str(&mut out, "\nAssistant: ");
        append_str(&mut out, self.assistant.as_str());
        assert(out@ =~= "User: "@ + self@.user + "\nAssistant: "@ + self@.assistant);
        string_of(out.as_slice())
    }

    /// The exchange with one more annotation.
    pub fn with_metadata(self, key: String, value: String) -> (turn: Turn)
        ensures
            turn@ == (TurnView { metadata: self@.metadata.push((key@, value@)), ..self@ }),
    {
        let mut turn = self;
        turn.metadata.insert(key, value);
        turn
    }

    /// A copy of the exchange.
    pub fn duplicate(&self) -> (copy: Turn)
        ensures
            copy@ == self@,
    {
        Turn {
            user: self.user.clone(),
            assistant: self.assistant.clone(),
            timestamp: self.timestamp,
            metadata: self.metadata.duplicate(),
        }
    }
}

/// A conversation.
#[derive(Debug, Clone)]
pub struct Session {
    pub id: u128,
    /// Who the assistant spoke as.
    pub persona_name: String,
    /// The exchanges, in order; they are only ever appended.
    pub turns: Vec<Turn>,
    pub created_at: i64,
    pub updated_at: i64,
    pub metadata: Metadata,
}

/// The mathematical value of a `Session`.
pub struct SessionView {
    pub id: u128,
    pub persona_name: Seq<char>,
    pub turns: Seq<TurnView>,
    pub created_at: i64,
    pub updated_at: i64,
    pub metadata: Seq<(Seq<char>, Seq<char>)>,
}

impl View for Session {
    type V = SessionView;

    open spec fn view(&self) -> SessionView {
        SessionView {
            id: self.id,
            persona_name: self.persona_name@,
            turns: turn_views(self.turns@),
            created_at: self.created_at,
            updated_at: self.updated_at,
            metadata: self.metadata@,
        }
    }
}

/// The values of a list of sessions.
pub open spec fn session_views(sessions: Seq<Session>) -> Seq<SessionView> {
    Seq::new(sessions.len(), |i: int| sessions[i]@)
}

/// `text` cut to at most `limit` characters.
pub open spec fn capped_spec(text: Seq<char>, limit: nat) -> Seq<char> {
    if text.len() > limit {
        text.take(limit as int)
    } else {
        text
    }
}

/// One exchange as it is rendered: both sides, each cut to `limit` characters.
pub open spec fn block_spec(turn: TurnView, limit: nat) -> Seq<char> {
    "User: "@ + capped_spec(turn.user, limit) + "\nAssistant: "@ + capped_spec(
        turn.assistant,
        limit,
    ) + "\n\n"@
}

/// The rendered exchanges, one after the other.
pub open spec fn blocks_spec(turns: Seq<TurnView>, limit: nat) -> Seq<char>
    decreases turns.len(),
{
    if turns.len() == 0 {
        Seq::empty()
    } else {
        blocks_spec(turns.drop_last(), limit) + block_spec(turns.last(), limit)
    }
}

/// The last position before `limit` at which an empty line begins in
/// `text`: a line break that is followed by another.
pub open spec fn last_gap_spec(text: Seq<char>, limit: int) -> Option<int>
    decreases limit,
{
    if limit <= 0 {
        None
    } else if limit < text.len() && text[limit - 1] == '\n' && text[limit] == '\n' {
        Some(limit - 1)
    } else {
        last_gap_spec(text, limit - 1)
    }
}

/// A text that is over budget, cut within the budget where no exchange is
/// cut in two: before the last empty line that begins within the budget;
/// where there is none, before the last line break within the budget; and
/// where there is none either, where the budget ends.
pub open spec fn cut_at_break_spec(text: Seq<char>, budget: nat) -> Seq<char> {
    match last_gap_spec(text, budget as int) {
        Some(at) => text.take(at),
        None => match last_index_spec(text, '\n', budget as int) {
            Some(at) => text.take(at),
            None => text.take(budget as int),
        },
    }
}

/// The last `count` of `turns`.
pub open spec fn last_turns_spec(turns: Seq<TurnView>, count: nat) -> Seq<TurnView> {
    if turns.len() > count {
        turns.skip(turns.len() - count)
    } else {
        turns
    }
}

/// The context that `format_context` renders from `turns`.
pub open spec fn context_spec(turns: Seq<TurnView>, max_turns: nat, max_chars: nat) -> Seq<char> {
    let whole = blocks_spec(last_turns_spec(turns, max_turns), max_chars / 4);
    if whole.len() > max_chars {
        cut_at_break_spec(whole, max_chars)
    } else {
        trim_end_spec(whole)
    }
}

impl SessionView {
    /// A session was not updated before it was created.
    pub open spec fn wf(self) -> bool {
        self.created_at <= self.updated_at
    }

    /// The later of the last update and `now`.
    pub open spec fn touched(self, now: i64) -> i64 {
        if now > self.updated_at {
            now
        } else {
            self.updated_at
        }
    }
}

/// Appends `text`, cut to `limit` characters.
fn append_capped(out: &mut Vec<char>, text: &str, limit: usize)
    ensures
        final(out)@ == old(out)@ + capped_spec(text@, limit as nat),
{
    let chars = chars_of(text);
    if chars.len() > limit {
        let head = slice_chars(chars.as_slice(), 0, limit);
        append_chars(out, head.as_slice());
    } else {
        append_chars(out, chars.as_slice());
    }
}

/// Length of `text` without its trailing white space.
fn trimmed_length(text: &Vec<char>) -> (end: usize)
    ensures
        end <= text.len(),
        trim_end_spec(text@) == text@.take(end as int),
{
    let mut end: usize = text.len();
    assert(text@.take(end as int) =~= text@);
    while end > 0 && crate::text::is_space(text[end - 1])
        invariant
            end <= text.len(),
            trim_end_spec(text@) == trim_end_spec(text@.take(end as int)),
        decreases end,
    {
        proof {
            assert(text@.take(end as int).drop_last() =~= text@.take(end - 1));
        }
        end = end - 1;
    }
    end
}

impl Session {
    /// A session was not updated before it was created.
    pub open spec fn wf(&self) -> bool {
        self@.wf()
    }

    /// An empty session with the given identity, created at `created_at`.
    pub fn with_identity(id: u128, created_at: i64, persona_name: String) -> (session: Session)
        ensures
            session.wf(),
            session@ == (SessionView {
                id,
                persona_name: persona_name@,
                turns: Seq::empty(),
                created_at,
                updated_at: created_at,
                metadata: Seq::empty(),
            }),
    {
        let session = Session {
            id,
            persona_name,
            turns: Vec::new(),
            created_at,
            updated_at: created_at,
            metadata: Metadata::new(),
        };
        assert(session@.turns =~= Seq::empty());
        session
    }

    /// An empty session with a fresh identifier, created now.
    pub fn new(persona_name: String) -> (session: Session)
        ensures
            session.wf(),
            session@ == (SessionView {
                id: session.id,
                persona_name: persona_name@,
                turns: Seq::empty(),
                created_at: session.created_at,
                updated_at: session.created_at,
                metadata: Seq::empty(),
            }),
    {
        let id = new_id();
        let created_at = now();
        Session::with_identity(id, created_at, persona_name)
    }

    /// Appends an exchange at the instant `now`. The time of the last update
    /// moves to `now` unless that would move it backwards.
    pub fn add_turn_at(&mut self, turn: Turn, now: i64)
        requires
            old(self).wf(),
        ensures
            final(self).wf(),
            final(self)@ == (SessionView {
                turns: old(self)@.turns.push(turn@),
                updated_at: old(self)@.touched(now),
                ..old(self)@
            }),
    {
        let ghost before = self@.turns;
        self.turns.push(turn);
        if now > self.updated_at {
            self.updated_at = now;
        }
        assert(self@.turns =~= before.push(turn@));
    }

    /// Appends an exchange, now.
    pub fn add_turn(&mut self, turn: Turn)
        requires
            old(self).wf(),
        ensures
            final(self).wf(),
            final(self)@ == (SessionView {
                turns: old(self)@.turns.push(turn@),
                updated_at: final(self)@.updated_at,
                ..old(self)@
            }),
            final(self)@.updated_at >= old(self)@.updated_at,
    {
        let instant = now();
        self.add_turn_at(turn, instant);
    }

    /// Number of exchanges.
    pub fn turn_count(&self) -> (count: usize)
        ensures
            count == self@.turns.len(),
    {
        self.turns.len()
    }

    /// The latest exchange.
    pub fn last_turn(&self) -> (turn: Option<&Turn>)
        ensures
            match turn {
                Some(last) => self@.turns.len() > 0 && last@ == self@.turns.last(),
                None => self@.turns.len() == 0,
            },
    {
        if self.turns.len() == 0 {
            None
        } else {
            Some(&self.turns[self.turns.len() - 1])
        }
    }

    /// The latest `count` exchanges, oldest first.
    pub fn last_turns(&self, count: usize) -> (turns: &[Turn])
        ensures
            turn_views(turns@) == last_turns_spec(self@.turns, count as nat),
    {
        let start = if self.turns.len() > count {
            self.turns.len() - count
        } else {
            0
        };
        let turns = vstd::slice::slice_subrange(self.turns.as_slice(), start, self.turns.len());
        proof {
            assert(turn_views(turns@) =~= last_turns_spec(self@.turns, count as nat));
        }
        turns
    }

    /// Renders the latest `max_turns` exchanges as `User: … / Assistant: …`
    /// blocks. Each side of an exchange is cut to a quarter of `max_chars`.
    /// Where the whole is longer than `max_chars`, it is cut within
    /// `max_chars` behind the last exchange that fits, and failing that at a
    /// line break; otherwise trailing white space is removed.
    pub fn format_context(&self, max_turns: usize, max_chars: usize) -> (context: String)
        ensures
            context@ == context_spec(self@.turns, max_turns as nat, max_chars as nat),
    {
        let recent = self.last_turns(max_turns);
        let limit = max_chars / 4;
        let mut whole: Vec<char> = Vec::new();
        let mut i: usize = 0;
        let ghost views = turn_views(recent@);
        while i < recent.len()
            invariant
                i <= recent.len(),
                views == turn_views(recent@),
                whole@ == blocks_spec(views.take(i as int), limit as nat),
            decreases recent.len() - i,
        {
            let ghost before = whole@;
            append_str(&mut whole, "User: ");
            append_capped(&mut whole, recent[i].user.as_str(), limit);
            append_str(&mut whole, "\nAssistant: ");
            append_capped(&mut whole, recent[i].assistant.as_str(), limit);
            append_str(&mut whole, "\n\n");
            proof {
                assert(views.take(i + 1).drop_last() =~= views.take(i as int));
                assert(views.take(i + 1).last() == recent@[i as int]@);
                assert(whole@ =~= before + block_spec(recent@[i as int]@, limit as nat));
            }
            i = i + 1;
        }
        proof {
            assert(views.take(i as int) =~= views);
        }
        if whole.len() > max_chars {
            let cut = match last_gap(&whole, max_chars) {
                Some(at) => at,
                None => match rfind_char(whole.as_slice(), '\n', max_chars) {
                    Some(at) => at,
                    None => max_chars,
                },
            };
            let kept = slice_chars(whole.as_slice(), 0, cut);
            string_of(kept.as_slice())
        } else {
            let end = trimmed_length(&whole);
            let kept = slice_chars(whole.as_slice(), 0, end);
            string_of(kept.as_slice())
        }
    }

    /// A copy of the session.
    pub fn duplicate(&self) -> (copy: Session)
        ensures
            copy@ == self@,
    {
        let mut turns: Vec<Turn> = Vec::new();
        let mut i: usize = 0;
        while i < self.turns.len()
            invariant
                i <= self.turns.len(),
                turns@.len() == i,
                forall|j: int| 0 <= j < i ==> (#[trigger] turns@[j])@ == self.turns@[j]@,
            decreases self.turns.len() - i,
        {
            turns.push(self.turns[i].duplicate());
            i = i + 1;
        }
        let copy = Session {
            id: self.id,
            persona_name: self.persona_name.clone(),
            turns,
            created_at: self.created_at,
            updated_at: self.updated_at,
            metadata: self.metadata.duplicate(),
        };
        assert(copy@.turns =~= self@.turns);
        copy
    }
}

/// The last position before `limit` at which an empty line begins.
fn last_gap(text: &Vec<char>, limit: usize) -> (found: Option<usize>)
    requires
        limit <= text.len(),
    ensures
        match found {
            Some(at) => last_gap_spec(text@, limit as int) == Some(at as int) && at < limit,
            None => last_gap_spec(text@, limit as int) is None,
        },
{
    let mut at: usize = limit;
    while at > 0
        invariant
            at <= limit <= text.len(),
            last_gap_spec(text@, limit as int) == last_gap_spec(text@, at as int),
        decreases at,
    {
        if at < text.len() && text[at - 1] == '\n' && text[at] == '\n' {
            return Some(at - 1);
        }
        at = at - 1;
    }
    None
}

} // verus!
