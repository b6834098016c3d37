//! The episodic memory manager: one current session, a bounded history of
//! past sessions, and a vector store with one record per exchange.

use vstd::prelude::*;
use crate::clock::now;
use crate::episodic::session::session_views;
use crate::episodic::session::turn_views;
use crate::episodic::session::context_spec;
use crate::episodic::session::last_turns_spec;
use crate::episodic::session::Session;
use crate::episodic::session::SessionView;
use crate::episodic::session::Turn;
use crate::episodic::session::TurnView;
use crate::error::MemoryError;
use crate::fixed::MILLIS_PER_DAY;
use crate::ids::format_id;
use crate::ids::hyphenated_spec;
use crate::ids::new_id;
use crate::ids::RANDOM_ID_MARK;
use crate::ids::RANDOM_ID_MASK;
use crate::text::append_str;
use crate::text::decimal;
use crate::text::decimal_spec;
use crate::text::owned;
use crate::text::string_of;
use crate::vector_store::same_kind;
use crate::vector_store::MemoryEntry;
use crate::vector_store::MemoryEntryView;
use crate::vector_store::MemoryType;
use crate::vector_store::MemoryTypeView;
use crate::vector_store::VectorStore;
use crate::vector_store::VectorStoreView;

verus! {

/// How many sessions a manager keeps unless told otherwise.
pub const DEFAULT_MAX_SESSIONS: usize = 100;

/// Records of exchanges older than this many days are dropped when a new
/// session starts.
pub const RETENTION_DAYS: i64 = 7;

/// Character budget of the rendered current context.
pub const CONTEXT_BUDGET: usize = 512;

/// The mathematical value of a manager.
pub struct DialogueManagerView {
    pub current: SessionView,
    pub store: VectorStoreView,
    pub history: Seq<SessionView>,
    pub max_sessions: usize,
}

/// No two of `history` share an identifier, and none has the identifier `current`.
pub open spec fn ids_distinct(history: Seq<SessionView>, current: u128) -> bool {
    &&& forall|i: int| 0 <= i < history.len() ==> (#[trigger] history[i]).id != current
    &&& forall|i: int, j: int|
        0 <= i < j < history.len() ==> (#[trigger] history[i]).id != (#[trigger] history[j]).id
}

/// The position of the session `id` in `history`.
pub open spec fn position_spec(history: Seq<SessionView>, id: u128) -> Option<int>
    decreases history.len(),
{
    if history.len() == 0 {
        None
    } else if history.last().id == id {
        Some(history.len() - 1)
    } else {
        position_spec(history.drop_last(), id)
    }
}

/// `history` without the session `id`.
pub open spec fn without_spec(history: Seq<SessionView>, id: u128) -> Seq<SessionView> {
    match position_spec(history, id) {
        Some(at) => history.remove(at),
        None => history,
    }
}

/// The position of the session that was updated longest ago; among several,
/// the one that stands first.
pub open spec fn oldest_spec(history: Seq<SessionView>) -> int
    decreases history.len(),
{
    if history.len() <= 1 {
        0
    } else {
        let earlier = oldest_spec(history.drop_last());
        if history.last().updated_at < history[earlier].updated_at {
            history.len() - 1
        } else {
            earlier
        }
    }
}

/// What eviction leaves of `history`: as long as the history and the current
/// session together exceed `max_sessions`, the session updated longest ago
/// goes.
pub open spec fn evicted_spec(history: Seq<SessionView>, max_sessions: usize) -> Seq<SessionView>
    decreases history.len(),
{
    let oldest = oldest_spec(history);
    if history.len() + 1 > max_sessions && 0 <= oldest < history.len() {
        evicted_spec(history.remove(oldest), max_sessions)
    } else {
        history
    }
}

/// The records that are not memories of exchanges.
pub open spec fn without_episodes(entries: Seq<MemoryEntryView>) -> Seq<MemoryEntryView> {
    entries.filter(
        |e: MemoryEntryView|
            !same_kind(e.memory_type, MemoryTypeView::Episodic { session_id: 0, turn: 0 }),
    )
}

/// The records that are left once eviction has taken `history` to `kept`:
/// where a session was evicted, every memory of an exchange goes.
pub open spec fn purged_spec(
    entries: Seq<MemoryEntryView>,
    history: Seq<SessionView>,
    kept: Seq<SessionView>,
) -> Seq<MemoryEntryView> {
    if kept.len() < history.len() {
        without_episodes(entries)
    } else {
        entries
    }
}

/// The record that stands for one exchange.
pub open spec fn exchange_entry_spec(
    session: SessionView,
    turn: usize,
    user: Seq<char>,
    assistant: Seq<char>,
    embedding: Seq<u32>,
    entry_id: u128,
    now: i64,
) -> MemoryEntryView {
    MemoryEntryView {
        id: entry_id,
        text: user,
        embedding,
        metadata: seq![
            ("session_id"@, hyphenated_spec(session.id)),
            ("turn"@, decimal_spec(turn as nat)),
            ("persona"@, session.persona_name),
            ("user_query"@, user),
            ("assistant_response"@, assistant),
        ],
        timestamp: now,
        memory_type: MemoryTypeView::Episodic { session_id: session.id, turn },
    }
}

/// The instant `days` days before `now`, held within the instants there are.
pub open spec fn days_before_spec(now: i64, days: i64) -> i64 {
    if now - days * MILLIS_PER_DAY < i64::MIN {
        i64::MIN
    } else if now - days * MILLIS_PER_DAY > i64::MAX {
        i64::MAX
    } else {
        (now - days * MILLIS_PER_DAY) as i64
    }
}

impl DialogueManagerView {
    /// The store is well formed, no session was updated before it was
    /// created, and no two sessions share an identifier.
    pub open spec fn wf(self) -> bool {
        &&& self.store.wf()
        &&& self.current.wf()
        &&& forall|i: int| 0 <= i < self.history.len() ==> (#[trigger] self.history[i]).wf()
        &&& ids_distinct(self.history, self.current.id)
    }

    /// The manager after one exchange in the current session.
    pub open spec fn after_exchange(
        self,
        user: Seq<char>,
        assistant: Seq<char>,
        embedding: Seq<u32>,
        entry_id: u128,
        now: i64,
    ) -> DialogueManagerView {
        let turn = TurnView { user, assistant, timestamp: now, metadata: Seq::empty() };
        let current = SessionView {
            turns: self.current.turns.push(turn),
            updated_at: self.current.touched(now),
            ..self.current
        };
        if embedding.len() != self.store.dimension {
            DialogueManagerView { current, ..self }
        } else {
            let entry = exchange_entry_spec(
                self.current,
                self.current.turns.len() as usize,
                user,
                assistant,
                embedding,
                entry_id,
                now,
            );
            let kept = evicted_spec(self.history, self.max_sessions);
            DialogueManagerView {
                current,
                store: VectorStoreView {
                    entries: purged_spec(self.store.entries.push(entry), self.history, kept),
                    ..self.store
                },
                history: kept,
                max_sessions: self.max_sessions,
            }
        }
    }

    /// The manager after a new session `id` has been started at `now`: the
    /// current session is archived, a session that already had the new
    /// identifier is dropped, records older than the retention period go, and
    /// the history is brought back within its bound.
    pub open spec fn after_new_session(self, persona: Seq<char>, id: u128, now: i64)
        -> DialogueManagerView {
        let archived = without_spec(self.history.push(self.current), id);
        let kept = evicted_spec(archived, self.max_sessions);
        let cutoff = days_before_spec(now, RETENTION_DAYS);
        let recent = self.store.entries.filter(|e: MemoryEntryView| e.timestamp > cutoff);
        DialogueManagerView {
            current: SessionView {
                id,
                persona_name: persona,
                turns: Seq::empty(),
                created_at: now,
                updated_at: now,
                metadata: Seq::empty(),
            },
            store: VectorStoreView { entries: purged_spec(recent, archived, kept), ..self.store },
            history: kept,
            max_sessions: self.max_sessions,
        }
    }

    /// The manager after the session `id` of the history has changed places
    /// with the current session; unchanged where the history has no such session.
    pub open spec fn after_load(self, id: u128) -> DialogueManagerView {
        match position_spec(self.history, id) {
            Some(at) => DialogueManagerView {
                current: self.history[at],
                history: self.history.update(at, self.current),
                ..self
            },
            None => self,
        }
    }

    /// The manager after the session `id` has been deleted from the history,
    /// and with it every memory of an exchange; unchanged where the history
    /// has no such session.
    pub open spec fn after_delete(self, id: u128) -> DialogueManagerView {
        match position_spec(self.history, id) {
            Some(at) => DialogueManagerView {
                history: self.history.remove(at),
                store: VectorStoreView {
                    entries: without_episodes(self.store.entries),
                    ..self.store
                },
                ..self
            },
            None => self,
        }
    }
}

/// Where a position is found, it holds the identifier; where none is found,
/// no session has it.
pub proof fn lemma_position(history: Seq<SessionView>, id: u128)
    ensures
        match position_spec(history, id) {
            Some(at) => 0 <= at < history.len() && history[at].id == id,
            None => forall|i: int| 0 <= i < history.len() ==> (#[trigger] history[i]).id != id,
        },
    decreases history.len(),
{
    if history.len() > 0 && history.last().id != id {
        lemma_position(history.drop_last(), id);
        let shorter = history.drop_last();
        if position_spec(shorter, id) is None {
            assert forall|i: int| 0 <= i < history.len() implies (#[trigger] history[i]).id
                != id by {
                if i < shorter.len() {
                    assert(shorter[i] == history[i]);
                }
            }
        }
    }
}

/// The oldest position lies within the history.
pub proof fn lemma_oldest(history: Seq<SessionView>)
    requires
        history.len() > 0,
    ensures
        0 <= oldest_spec(history) < history.len(),
        forall|i: int|
            0 <= i < history.len() ==> history[oldest_spec(history)].updated_at <= (
            #[trigger] history[i]).updated_at,
    decreases history.len(),
{
    if history.len() > 1 {
        let shorter = history.drop_last();
        lemma_oldest(shorter);
        assert forall|i: int| 0 <= i < history.len() implies history[oldest_spec(
            history,
        )].updated_at <= (#[trigger] history[i]).updated_at by {
            if i < shorter.len() {
                assert(shorter[i] == history[i]);
            }
            assert(shorter[oldest_spec(shorter)] == history[oldest_spec(shorter)]);
        }
    }
}

/// Taking a session out of a history keeps what held of all its sessions.
pub proof fn lemma_remove_keeps(history: Seq<SessionView>, current: u128, at: int)
    requires
        0 <= at < history.len(),
        ids_distinct(history, current),
        forall|i: int| 0 <= i < history.len() ==> (#[trigger] history[i]).wf(),
    ensures
        ids_distinct(history.remove(at), current),
        forall|i: int| 0 <= i < history.remove(at).len() ==> (#[trigger] history.remove(at)[i]).wf(),
        forall|i: int|
            0 <= i < history.remove(at).len() ==> (#[trigger] history.remove(at)[i]).id
                != history[at].id,
{
    let rest = history.remove(at);
    assert forall|i: int| 0 <= i < rest.len() implies (#[trigger] rest[i]).id != current
        && rest[i].wf() && rest[i].id != history[at].id by {
        let k = if i < at {
            i
        } else {
            i + 1
        };
        assert(rest[i] == history[k]);
        if k < at {
            assert(history[k].id != history[at].id);
        } else {
            assert(history[at].id != history[k].id);
        }
    }
    assert forall|i: int, j: int| 0 <= i < j < rest.len() implies (#[trigger] rest[i]).id != (
    #[trigger] rest[j]).id by {
        let a = if i < at {
            i
        } else {
            i + 1
        };
        let b = if j < at {
            j
        } else {
            j + 1
        };
        assert(rest[i] == history[a]);
        assert(rest[j] == history[b]);
    }
}

/// Eviction keeps only sessions of the history, keeps what held of them, and,
/// unless no session at all may be kept, brings the history and the current
/// session together within the bound.
pub proof fn lemma_evicted(history: Seq<SessionView>, current: u128, max_sessions: usize)
    requires
        ids_distinct(history, current),
        forall|i: int| 0 <= i < history.len() ==> (#[trigger] history[i]).wf(),
    ensures
        ids_distinct(evicted_spec(history, max_sessions), current),
        forall|i: int|
            0 <= i < evicted_spec(history, max_sessions).len() ==> (#[trigger] evicted_spec(
                history,
                max_sessions,
            )[i]).wf(),
        evicted_spec(history, max_sessions).len() <= history.len(),
        max_sessions >= 1 ==> evicted_spec(history, max_sessions).len() + 1 <= max_sessions,
        max_sessions == 0 ==> evicted_spec(history, max_sessions).len() == 0,
        history.len() + 1 <= max_sessions ==> evicted_spec(history, max_sessions) == history,
    decreases history.len(),
{
    if history.len() > 0 {
        lemma_oldest(history);
    }
    if history.len() + 1 > max_sessions && history.len() > 0 {
        lemma_remove_keeps(history, current, oldest_spec(history));
        lemma_evicted(history.remove(oldest_spec(history)), current, max_sessions);
    }
}

/// The episodic memory manager. The history is kept in the order in which
/// the sessions were archived, no two under one identifier: which of several
/// equally old sessions is evicted first is then the same on every run, which
/// the walk of a hash map would not give.
#[derive(Debug, Clone)]
pub struct DialogueManager {
    pub(crate) current_session: Session,
    pub(crate) vector_store: VectorStore,
    pub(crate) session_history: Vec<Session>,
    pub(crate) max_sessions: usize,
}

impl View for DialogueManager {
    type V = DialogueManagerView;

    closed spec fn view(&self) -> DialogueManagerView {
        DialogueManagerView {
            current: self.current_session@,
            store: self.vector_store@,
            history: session_views(self.session_history@),
            max_sessions: self.max_sessions,
        }
    }
}

/// Counts of a manager.
#[derive(Debug, Clone, Copy, PartialEq, Eq, Structural)]
pub struct DialogueManagerStats {
    pub current_session_id: u128,
    pub current_session_turns: usize,
    /// The sessions of the history and the current one.
    pub total_sessions: usize,
    /// The exchanges that have a record in the store.
    pub total_turns: usize,
    pub last_activity: i64,
}

/// The instant `days` days before `now`.
pub fn days_before(now: i64, days: i64) -> (instant: i64)
    ensures
        instant == days_before_spec(now, days),
{
    assert(-0x8000_0000_0000_0000 * 86_400_000 <= days * 86_400_000 <= 0x8000_0000_0000_0000
        * 86_400_000) by (nonlinear_arith)
        requires
            -0x8000_0000_0000_0000 <= days <= 0x7fff_ffff_ffff_ffff,
    ;
    let span: i128 = days as i128 * MILLIS_PER_DAY as i128;
    let moved: i128 = now as i128 - span;
    if moved < i64::MIN as i128 {
        i64::MIN
    } else if moved > i64::MAX as i128 {
        i64::MAX
    } else {
        moved as i64
    }
}

impl DialogueManager {
    /// The manager's invariant.
    pub open spec fn wf(&self) -> bool {
        self@.wf()
    }

    /// A manager with one empty current session and nothing else.
    pub fn with_identity(
        dimension: usize,
        persona_name: String,
        max_sessions: usize,
        session_id: u128,
        now: i64,
    ) -> (manager: DialogueManager)
        ensures
            manager.wf(),
            manager@.max_sessions == max_sessions,
            manager@.history.len() == 0,
            manager@.store.entries.len() == 0,
            manager@.store.dimension == dimension,
            manager@.store.query_count == 0,
            manager@.current == (SessionView {
                id: session_id,
                persona_name: persona_name@,
                turns: Seq::empty(),
                created_at: now,
                updated_at: now,
                metadata: Seq::empty(),
            }),
    {
        DialogueManager {
            current_session: Session::with_identity(session_id, now, persona_name),
            vector_store: VectorStore::new(dimension),
            session_history: Vec::new(),
            max_sessions,
        }
    }

    /// A manager for embeddings of the given dimension that keeps up to
    /// `max_sessions` sessions, with a fresh current session.
    pub fn with_config(dimension: usize, persona_name: String, max_sessions: usize) -> (manager:
        DialogueManager)
        ensures
            manager.wf(),
            manager@.max_sessions == max_sessions,
            manager@.history.len() == 0,
            manager@.store.entries.len() == 0,
            manager@.store.dimension == dimension,
            manager@.current.persona_name == persona_name@,
            manager@.current.turns.len() == 0,
    {
        let id = new_id();
        let created = now();
        DialogueManager::with_identity(dimension, persona_name, max_sessions, id, created)
    }

    /// A manager for embeddings of the given dimension with the usual bound on
    /// the number of sessions.
    pub fn new(dimension: usize, persona_name: String) -> (manager: DialogueManager)
        ensures
            manager.wf(),
            manager@.max_sessions == DEFAULT_MAX_SESSIONS,
            manager@.history.len() == 0,
            manager@.store.entries.len() == 0,
            manager@.store.dimension == dimension,
            manager@.current.persona_name == persona_name@,
            manager@.current.turns.len() == 0,
    {
        DialogueManager::with_config(dimension, persona_name, DEFAULT_MAX_SESSIONS)
    }

    /// The current session.
    pub fn current_session(&self) -> (session: &Session)
        ensures
            session@ == self@.current,
    {
        &self.current_session
    }

    /// The sessions of the history.
    pub fn session_history(&self) -> (history: &Vec<Session>)
        ensures
            session_views(history@) == self@.history,
    {
        &self.session_history
    }

    /// The store of the exchanges' records.
    pub fn vector_store(&self) -> (store: &VectorStore)
        ensures
            store@ == self@.store,
    {
        &self.vector_store
    }

    /// The best `top_k` records of exchanges for an embedding, each as score
    /// and position in the store. Counts as one query.
    pub fn locate_exchanges(&mut self, query: &[u32], top_k: usize) -> (hits: Vec<(i64, usize)>)
        ensures
            final(self)@ == (DialogueManagerView {
                store: VectorStoreView {
                    query_count: VectorStore::next_count(old(self)@.store.query_count),
                    ..old(self)@.store
                },
                ..old(self)@
            }),
            crate::vector_store::located_are(
                hits@,
                old(self)@.store.entries,
                query@,
                crate::vector_store::search_by_type_spec(
                    old(self)@.store,
                    query@,
                    MemoryTypeView::Episodic { session_id: 0, turn: 0 },
                    top_k as nat,
                ),
            ),
    {
        self.vector_store.locate_by_type(
            query,
            &MemoryType::Episodic { session_id: 0, turn: 0 },
            top_k,
        )
    }

    /// The bound on the number of sessions.
    pub fn max_sessions(&self) -> (bound: usize)
        ensures
            bound == self@.max_sessions,
    {
        self.max_sessions
    }

    /// The position of the session `id` in the history.
    fn position(&self, id: u128) -> (found: Option<usize>)
        ensures
            match found {
                Some(at) => position_spec(self@.history, id) == Some(at as int) && at
                    < self.session_history@.len(),
                None => position_spec(self@.history, id) is None,
            },
    {
        let mut at: usize = self.session_history.len();
        let ghost history = self@.history;
        assert(history.take(at as int) =~= history);
        while at > 0
            invariant
                at <= self.session_history.len(),
                history == self@.history,
                position_spec(history, id) == position_spec(history.take(at as int), id),
            decreases at,
        {
            proof {
                assert(history.take(at as int).drop_last() =~= history.take(at - 1));
                assert(history.take(at as int).last() == self.session_history@[at - 1]@);
            }
            at = at - 1;
            if self.session_history[at].id == id {
                return Some(at);
            }
        }
        None
    }

    /// The position of the session that was updated longest ago.
    fn oldest(&self) -> (at: usize)
        requires
            self.session_history@.len() > 0,
        ensures
            at == oldest_spec(self@.history),
            at < self.session_history@.len(),
    {
        let ghost history = self@.history;
        let mut best: usize = 0;
        let mut i: usize = 1;
        assert(history.take(1).len() == 1);
        while i < self.session_history.len()
            invariant
                1 <= i <= self.session_history.len(),
                history == self@.history,
                best < i,
                best == oldest_spec(history.take(i as int)),
            decreases self.session_history.len() - i,
        {
            proof {
                assert(history.take(i + 1).drop_last() =~= history.take(i as int));
                assert(history.take(i + 1).last() == self.session_history@[i as int]@);
                assert(history.take(i + 1)[best as int] == self.session_history@[best as int]@);
            }
            if self.session_history[i].updated_at < self.session_history[best].updated_at {
                best = i;
            }
            i = i + 1;
        }
        proof {
            assert(history.take(i as int) =~= history);
        }
        best
    }

    /// Brings the history back within its bound; where a session had to go,
    /// the memories of exchanges go with it.
    fn cleanup_if_needed(&mut self)
        requires
            old(self).wf(),
        ensures
            final(self).wf(),
            final(self)@ == (DialogueManagerView {
                history: evicted_spec(old(self)@.history, old(self)@.max_sessions),
                store: VectorStoreView {
                    entries: purged_spec(
                        old(self)@.store.entries,
                        old(self)@.history,
                        evicted_spec(old(self)@.history, old(self)@.max_sessions),
                    ),
                    ..old(self)@.store
                },
                ..old(self)@
            }),
    {
        let mut evicted = false;
        let ghost start = self@.history;
        while self.session_history.len() > 0 && self.session_history.len() >= self.max_sessions
            invariant
                self.wf(),
                self@.current == old(self)@.current,
                self@.store == old(self)@.store,
                self@.max_sessions == old(self)@.max_sessions,
                start == old(self)@.history,
                evicted_spec(self@.history, self@.max_sessions) == evicted_spec(
                    start,
                    self@.max_sessions,
                ),
                self@.history.len() <= start.len(),
                evicted <==> self@.history.len() < start.len(),
            decreases self.session_history.len(),
        {
            let at = self.oldest();
            let ghost before = self@.history;
            proof {
                lemma_remove_keeps(before, self@.current.id, at as int);
            }
            self.session_history.remove(at);
            proof {
                assert(self@.history =~= before.remove(at as int));
            }
            evicted = true;
        }
        proof {
            lemma_evicted(start, self@.current.id, self@.max_sessions);
        }
        if evicted {
            self.vector_store.clear_by_type(&MemoryType::Episodic { session_id: 0, turn: 0 });
        }
    }

    /// Records one exchange in the current session, with the given record
    /// identifier, at the instant `now`. The exchange is appended to the
    /// session in any case. Where the embedding has the store's dimension, a
    /// record of the exchange is stored and the history is brought within its
    /// bound; otherwise the outcome is an error and nothing else changes.
    pub fn add_exchange_at(
        &mut self,
        user: String,
        assistant: String,
        embedding: Vec<u32>,
        entry_id: u128,
        now: i64,
    ) -> (outcome: Result<(), MemoryError>)
        requires
            old(self).wf(),
        ensures
            final(self).wf(),
            final(self)@ == old(self)@.after_exchange(user@, assistant@, embedding@, entry_id, now),
            embedding@.len() == old(self)@.store.dimension ==> outcome is Ok,
            embedding@.len() != old(self)@.store.dimension ==> outcome == Err::<(), MemoryError>(
                MemoryError::DimensionMismatch {
                    expected: old(self)@.store.dimension,
                    actual: embedding@.len() as usize,
                },
            ),
    {
        let turn_index = self.current_session.turn_count();
        let turn = Turn::at(now, user.clone(), assistant.clone());
        let ghost session = self@.current;
        self.current_session.add_turn_at(turn, now);
        let turn_text = string_of(decimal(turn_index as u64).as_slice());
        let entry = MemoryEntry::with_identity(
            entry_id,
            now,
            user.clone(),
            embedding,
            MemoryType::Episodic { session_id: self.current_session.id, turn: turn_index },
        ).with_metadata(owned("session_id"), format_id(self.current_session.id)).with_metadata(
            owned("turn"),
            turn_text,
        ).with_metadata(owned("persona"), self.current_session.persona_name.clone()).with_metadata(
            owned("user_query"),
            user,
        ).with_metadata(owned("assistant_response"), assistant);
        proof {
            assert(entry@.metadata =~= exchange_entry_spec(
                session,
                turn_index,
                user@,
                assistant@,
                embedding@,
                entry_id,
                now,
            ).metadata);
            assert(entry@ == exchange_entry_spec(
                session,
                turn_index,
                user@,
                assistant@,
                embedding@,
                entry_id,
                now,
            ));
        }
        match self.vector_store.add(entry) {
            Ok(()) => {},
            Err(error) => {
                return Err(error);
            },
        }
        self.cleanup_if_needed();
        Ok(())
    }

    /// Records one exchange in the current session, now, given the embedding
    /// of what the user said.
    pub fn add_exchange_embedded(&mut self, user: String, assistant: String, embedding: Vec<u32>) -> (outcome:
        Result<(), MemoryError>)
        requires
            old(self).wf(),
        ensures
            final(self).wf(),
            exists|entry_id: u128, now: i64|
                final(self)@ == old(self)@.after_exchange(
                    user@,
                    assistant@,
                    embedding@,
                    entry_id,
                    now,
                ),
            outcome is Ok <==> embedding@.len() == old(self)@.store.dimension,
    {
        let entry_id = new_id();
        let instant = now();
        let outcome = self.add_exchange_at(user, assistant, embedding, entry_id, instant);
        outcome
    }

    /// Takes the session `id` out of the history, if it is there.
    fn forget(&mut self, id: u128) -> (existed: bool)
        requires
            old(self).wf(),
        ensures
            final(self).wf(),
            existed == (position_spec(old(self)@.history, id) is Some),
            final(self)@ == (DialogueManagerView {
                history: without_spec(old(self)@.history, id),
                ..old(self)@
            }),
            forall|i: int|
                0 <= i < final(self)@.history.len() ==> (#[trigger] final(self)@.history[i]).id
                    != id,
    {
        proof {
            lemma_position(self@.history, id);
        }
        match self.position(id) {
            Some(at) => {
                let ghost before = self@.history;
                proof {
                    lemma_remove_keeps(before, self@.current.id, at as int);
                }
                self.session_history.remove(at);
                proof {
                    assert(self@.history =~= before.remove(at as int));
                }
                true
            },
            None => false,
        }
    }

    /// Starts the session `id` at the instant `now` and returns `id`.
    pub fn start_new_session_at(&mut self, persona_name: String, id: u128, now: i64) -> (started:
        u128)
        requires
            old(self).wf(),
        ensures
            final(self).wf(),
            started == id,
            final(self)@ == old(self)@.after_new_session(persona_name@, id, now),
            final(self)@.max_sessions >= 1 ==> final(self)@.history.len() + 1 <= final(self)@.max_sessions,
    {
        let fresh = Session::with_identity(id, now, persona_name);
        let ghost before = self@;
        let mut previous = fresh;
        // the new session becomes the current one; the previous one is archived
        std::mem::swap(&mut self.current_session, &mut previous);
        let ghost old_history = self@.history;
        proof {
            lemma_position(old_history.push(before.current), id);
        }
        if previous.id != id {
            // a session of the history that already has the new identifier goes
            match self.position(id) {
                Some(at) => {
                    proof {
                        lemma_position(old_history, id);
                        lemma_remove_keeps(old_history, before.current.id, at as int);
                    }
                    self.session_history.remove(at);
                    proof {
                        assert(self@.history =~= old_history.remove(at as int));
                    }
                },
                None => {
                    proof {
                        lemma_position(old_history, id);
                    }
                },
            }
            let ghost trimmed = self@.history;
            self.session_history.push(previous);
            proof {
                let pushed = old_history.push(before.current);
                assert(self@.history =~= trimmed.push(before.current));
                lemma_without_push(old_history, before.current, id);
                assert(self@.history == without_spec(pushed, id));
                assert(ids_distinct(self@.history, id)) by {
                    let h = self@.history;
                    assert forall|i: int| 0 <= i < h.len() implies (#[trigger] h[i]).id != id by {
                        if i < trimmed.len() {
                            assert(h[i] == trimmed[i]);
                        }
                    }
                    assert forall|i: int, j: int| 0 <= i < j < h.len() implies (#[trigger] h[i]).id
                        != (#[trigger] h[j]).id by {
                        assert(h[i] == trimmed[i]);
                        if j < trimmed.len() {
                            assert(h[j] == trimmed[j]);
                        }
                    }
                }
                assert forall|i: int| 0 <= i < self@.history.len() implies (
                #[trigger] self@.history[i]).wf() by {
                    if i < trimmed.len() {
                        assert(self@.history[i] == trimmed[i]);
                    }
                }
            }
        } else {
            // the previous session had the new identifier itself: it goes
            proof {
                let pushed = old_history.push(before.current);
                assert(pushed.drop_last() =~= old_history);
                assert(without_spec(pushed, id) =~= old_history);
            }
        }
        let cutoff = days_before(now, RETENTION_DAYS);
        self.vector_store.cleanup_old(cutoff);
        proof {
            lemma_evicted(self@.history, id, self@.max_sessions);
        }
        self.cleanup_if_needed();
        id
    }

    /// Starts a new session with a fresh identifier, now, and returns the
    /// identifier, which is never that of the session that was current: a
    /// draw that repeats it is altered in its last bit.
    pub fn start_new_session(&mut self, persona_name: String) -> (started: u128)
        requires
            old(self).wf(),
        ensures
            final(self).wf(),
            started != old(self)@.current.id,
            started & RANDOM_ID_MASK == RANDOM_ID_MARK,
            final(self)@.current.id == started,
            exists|now: i64|
                final(self)@ == old(self)@.after_new_session(persona_name@, started, now),
            final(self)@.max_sessions >= 1 ==> final(self)@.history.len() + 1 <= final(self)@.max_sessions,
    {
        let drawn = new_id();
        let id = if drawn == self.current_session.id {
            assert(drawn ^ 1 != drawn && (drawn ^ 1) & 0x0000_0000_0000_f000_c000_0000_0000_0000
                == drawn & 0x0000_0000_0000_f000_c000_0000_0000_0000) by (bit_vector);
            drawn ^ 1
        } else {
            drawn
        };
        let instant = now();
        self.start_new_session_at(persona_name, id, instant)
    }

    /// Makes the session `id` of the history the current one; the session
    /// that was current takes its place in the history. Says whether the
    /// history had such a session.
    pub fn load_session(&mut self, id: u128) -> (loaded: bool)
        requires
            old(self).wf(),
        ensures
            final(self).wf(),
            loaded == (position_spec(old(self)@.history, id) is Some),
            final(self)@ == old(self)@.after_load(id),
    {
        proof {
            lemma_position(self@.history, id);
        }
        match self.position(id) {
            Some(at) => {
                let ghost before = self@;
                let mut slot = self.session_history.remove(at);
                std::mem::swap(&mut self.current_session, &mut slot);
                self.session_history.insert(at, slot);
                proof {
                    let h = self@.history;
                    assert(h =~= before.history.update(at as int, before.current));
                    assert forall|i: int| 0 <= i < h.len() implies (#[trigger] h[i]).id
                        != self@.current.id && h[i].wf() by {
                        if i != at {
                            assert(h[i] == before.history[i]);
                            if i < at {
                                assert(before.history[i].id != before.history[at as int].id);
                            } else {
                                assert(before.history[at as int].id != before.history[i].id);
                            }
                        }
                    }
                    assert forall|i: int, j: int| 0 <= i < j < h.len() implies (#[trigger] h[i]).id
                        != (#[trigger] h[j]).id by {
                        if i != at {
                            assert(h[i] == before.history[i]);
                        }
                        if j != at {
                            assert(h[j] == before.history[j]);
                        }
                    }
                }
                true
            },
            None => false,
        }
    }

    /// Deletes the session `id` from the history and, with it, the memories
    /// of exchanges. Says whether the history had such a session.
    pub fn delete_session(&mut self, id: u128) -> (existed: bool)
        requires
            old(self).wf(),
        ensures
            final(self).wf(),
            existed == (position_spec(old(self)@.history, id) is Some),
            final(self)@ == old(self)@.after_delete(id),
    {
        let existed = self.forget(id);
        if existed {
            self.vector_store.clear_by_type(&MemoryType::Episodic { session_id: 0, turn: 0 });
        }
        existed
    }

    /// The latest `max_turns` exchanges of the current session as text, within
    /// the budget of `CONTEXT_BUDGET` characters.
    pub fn get_current_context(&self, max_turns: usize) -> (context: String)
        ensures
            context@ == context_spec(
                self@.current.turns,
                max_turns as nat,
                CONTEXT_BUDGET as nat,
            ),
    {
        self.current_session.format_context(max_turns, CONTEXT_BUDGET)
    }

    /// Copies of the latest `max_turns` exchanges of the current session.
    pub fn get_turns_for_context(&self, max_turns: usize) -> (turns: Vec<Turn>)
        ensures
            turn_views(turns@) == last_turns_spec(self@.current.turns, max_turns as nat),
    {
        let recent = self.current_session.last_turns(max_turns);
        let mut turns: Vec<Turn> = Vec::new();
        let mut i: usize = 0;
        while i < recent.len()
            invariant
                i <= recent.len(),
                turns@.len() == i,
                forall|j: int| 0 <= j < i ==> (#[trigger] turns@[j])@ == recent@[j]@,
            decreases recent.len() - i,
        {
            turns.push(recent[i].duplicate());
            i = i + 1;
        }
        assert(turn_views(turns@) =~= turn_views(recent@));
        turns
    }

    /// Counts of the manager.
    pub fn stats(&self) -> (stats: DialogueManagerStats)
        ensures
            stats.current_session_id == self@.current.id,
            stats.current_session_turns == self@.current.turns.len(),
            stats.total_sessions == if self@.history.len() < usize::MAX {
                self@.history.len() + 1
            } else {
                usize::MAX as nat
            },
            stats.total_turns == crate::vector_store::positions_of_kind(
                self@.store.entries,
                MemoryTypeView::Episodic { session_id: 0, turn: 0 },
            ).len(),
            stats.last_activity == self@.current.updated_at,
    {
        let store = self.vector_store.stats();
        DialogueManagerStats {
            current_session_id: self.current_session.id,
            current_session_turns: self.current_session.turn_count(),
            total_sessions: if self.session_history.len() < usize::MAX {
                self.session_history.len() + 1
            } else {
                usize::MAX
            },
            total_turns: store.episodic_count,
            last_activity: self.current_session.updated_at,
        }
    }
}

/// Pushing a session whose identifier differs from `id` and then dropping the
/// session `id` is dropping it first and pushing then.
proof fn lemma_without_push(history: Seq<SessionView>, last: SessionView, id: u128)
    requires
        last.id != id,
    ensures
        without_spec(history.push(last), id) == without_spec(history, id).push(last),
{
    let pushed = history.push(last);
    assert(pushed.drop_last() =~= history);
    lemma_position(history, id);
    match position_spec(history, id) {
        Some(at) => {
            assert(pushed.remove(at) =~= history.remove(at).push(last));
        },
        None => {},
    }
}

/// However a new session is started, the history and the current session
/// together stay within the bound, as long as the bound admits the current
/// session at all.
pub proof fn lemma_new_session_keeps_bound(
    manager: DialogueManagerView,
    persona: Seq<char>,
    id: u128,
    now: i64,
)
    requires
        manager.wf(),
        manager.max_sessions >= 1,
    ensures
        manager.after_new_session(persona, id, now).history.len() + 1 <= manager.max_sessions,
{
    let archived = without_spec(manager.history.push(manager.current), id);
    lemma_evicted_len(archived, manager.max_sessions);
}

/// Eviction brings any history within the bound.
pub proof fn lemma_evicted_len(history: Seq<SessionView>, max_sessions: usize)
    requires
        max_sessions >= 1,
    ensures
        evicted_spec(history, max_sessions).len() + 1 <= max_sessions,
    decreases history.len(),
{
    if history.len() > 0 {
        lemma_oldest(history);
    }
    if history.len() + 1 > max_sessions && history.len() > 0 {
        lemma_evicted_len(history.remove(oldest_spec(history)), max_sessions);
    }
}

/// The history after the session `session` has been taken in: in the place
/// of a session with the same identifier, or else at the end; a session with
/// the identifier of the current session is not taken in.
pub open spec fn adopted_spec(history: Seq<SessionView>, current: u128, session: SessionView) -> Seq<
    SessionView,
> {
    if session.id == current {
        history
    } else {
        match position_spec(history, session.id) {
            Some(at) => history.update(at, session),
            None => history.push(session),
        }
    }
}

impl DialogueManager {
    /// Takes a session into the history.
    pub fn adopt_session(&mut self, session: Session)
        requires
            old(self).wf(),
            session.wf(),
        ensures
            final(self).wf(),
            final(self)@ == (DialogueManagerView {
                history: adopted_spec(old(self)@.history, old(self)@.current.id, session@),
                ..old(self)@
            }),
    {
        if session.id == self.current_session.id {
            return ;
        }
        proof {
            lemma_position(self@.history, session.id);
        }
        let ghost before = self@.history;
        match self.position(session.id) {
            Some(at) => {
                self.session_history.remove(at);
                self.session_history.insert(at, session);
                proof {
                    let h = self@.history;
                    assert(h =~= before.update(at as int, session@));
                    assert forall|i: int| 0 <= i < h.len() implies (#[trigger] h[i]).id
                        != self@.current.id && h[i].wf() by {
                        if i != at {
                            assert(h[i] == before[i]);
                        }
                    }
                    assert forall|i: int, j: int| 0 <= i < j < h.len() implies (#[trigger] h[i]).id
                        != (#[trigger] h[j]).id by {
                        assert(h[i].id == before[i].id);
                        assert(h[j].id == before[j].id);
                    }
                }
            },
            None => {
                self.session_history.push(session);
                proof {
                    let h = self@.history;
                    assert(h =~= before.push(session@));
                    assert forall|i: int| 0 <= i < h.len() implies (#[trigger] h[i]).id
                        != self@.current.id && h[i].wf() by {
                        if i < before.len() {
                            assert(h[i] == before[i]);
                        }
                    }
                    assert forall|i: int, j: int| 0 <= i < j < h.len() implies (#[trigger] h[i]).id
                        != (#[trigger] h[j]).id by {
                        assert(h[i] == before[i]);
                        if j < before.len() {
                            assert(h[j] == before[j]);
                        }
                    }
                }
            },
        }
    }

    /// Puts a record into the store, as `VectorStore::add` does.
    pub fn restore_entry(&mut self, entry: MemoryEntry) -> (outcome: Result<(), MemoryError>)
        requires
            old(self).wf(),
        ensures
            final(self).wf(),
            entry@.embedding.len() == old(self)@.store.dimension ==> outcome is Ok && final(self)@
                == (DialogueManagerView {
                store: VectorStoreView {
                    entries: old(self)@.store.entries.push(entry@),
                    ..old(self)@.store
                },
                ..old(self)@
            }),
            entry@.embedding.len() != old(self)@.store.dimension ==> outcome is Err && final(self)@ == old(self)@,
    {
        self.vector_store.add(entry)
    }
}

/// The line for one record of an exchange in a list of a session's dialogue.
pub open spec fn dialogue_line_spec(entry: MemoryEntryView) -> Seq<char> {
    "Turn "@ + match crate::metadata::lookup_spec(entry.metadata, "turn"@) {
        Some(turn) => turn,
        None => "?"@,
    } + ": "@ + entry.text
}

/// The first `top_k` records of exchanges, each as a line.
pub open spec fn dialogue_lines_spec(entries: Seq<MemoryEntryView>, top_k: nat) -> Seq<Seq<char>> {
    let positions = crate::vector_store::positions_of_kind(
        entries,
        MemoryTypeView::Episodic { session_id: 0, turn: 0 },
    );
    let count = if top_k < positions.len() {
        top_k
    } else {
        positions.len()
    };
    Seq::new(count, |i: int| dialogue_line_spec(entries[positions[i] as int]))
}

impl DialogueManagerStats {
    /// The report for these counts.
    pub open spec fn format_spec(self) -> Seq<char> {
        "💬 Dialogue Manager Stats:\n   Current Session: "@ + hyphenated_spec(
            self.current_session_id,
        ) + " ("@ + decimal_spec(self.current_session_turns as nat)
            + " turns)\n   Total Sessions: "@ + decimal_spec(self.total_sessions as nat)
            + "\n   Total Turns: "@ + decimal_spec(self.total_turns as nat)
            + "\n   Last Activity: "@ + crate::clock::display_time_spec(self.last_activity)
    }

    /// Writes the counts as a short report.
    pub fn format(&self) -> (text: String)
        ensures
            text@ == self.format_spec(),
    {
        let mut out: Vec<char> = Vec::new();
        append_str(&mut out, "💬 Dialogue Manager Stats:\n   Current Session: ");
        append_str(&mut out, format_id(self.current_session_id).as_str());
        append_str(&mut out, " (");
        crate::text::append_decimal(&mut out, self.current_session_turns as u64);
        append_str(&mut out, " turns)\n   Total Sessions: ");
        crate::text::append_decimal(&mut out, self.total_sessions as u64);
        append_str(&mut out, "\n   Total Turns: ");
        crate::text::append_decimal(&mut out, self.total_turns as u64);
        append_str(&mut out, "\n   Last Activity: ");
        let time = crate::clock::display_time(self.last_activity);
        crate::text::append_chars(&mut out, time.as_slice());
        assert(out@ =~= self.format_spec());
        string_of(out.as_slice())
    }
}

impl DialogueManager {
    /// The first `top_k` exchanges that have a record, each as a line with
    /// the number of the exchange and what the user said. Records match by
    /// their kind alone, so the exchanges of all sessions are listed.
    pub fn find_session_dialogues(&self, session_id: &u128, top_k: usize) -> (lines: Vec<String>)
        ensures
            crate::text::string_views(lines@) == dialogue_lines_spec(
                self@.store.entries,
                top_k as nat,
            ),
    {
        let found = self.vector_store.get_by_type(
            &MemoryType::Episodic { session_id: *session_id, turn: 0 },
        );
        let ghost entries = self@.store.entries;
        let ghost positions = crate::vector_store::positions_of_kind(
            entries,
            MemoryTypeView::Episodic { session_id: 0, turn: 0 },
        );
        proof {
            crate::vector_store::lemma_positions_of_any_kind(
                entries,
                MemoryTypeView::Episodic { session_id: *session_id, turn: 0 },
                MemoryTypeView::Episodic { session_id: 0, turn: 0 },
            );
        }
        let ghost wanted = dialogue_lines_spec(entries, top_k as nat);
        let count = if top_k < found.len() {
            top_k
        } else {
            found.len()
        };
        let mut lines: Vec<String> = Vec::new();
        let mut i: usize = 0;
        while i < count
            invariant
                i <= count <= found.len(),
                entries == self@.store.entries,
                wanted == dialogue_lines_spec(entries, top_k as nat),
                wanted.len() == count,
                positions == crate::vector_store::positions_of_kind(
                    entries,
                    MemoryTypeView::Episodic { session_id: 0, turn: 0 },
                ),
                found@.len() == positions.len(),
                forall|j: int|
                    0 <= j < found@.len() ==> (#[trigger] found@[j])@ == entries[positions[j] as int],
                crate::text::string_views(lines@) == wanted.take(i as int),
            decreases count - i,
        {
            let entry = found[i];
            let mut line: Vec<char> = Vec::new();
            append_str(&mut line, "Turn ");
            match entry.metadata.get("turn") {
                Some(turn) => {
                    append_str(&mut line, turn.as_str());
                },
                None => {
                    append_str(&mut line, "?");
                },
            }
            append_str(&mut line, ": ");
            append_str(&mut line, entry.text.as_str());
            proof {
                assert(found@[i as int]@ == entries[positions[i as int] as int]);
                assert(line@ =~= dialogue_line_spec(entries[positions[i as int] as int]));
                assert(wanted.take(i + 1) =~= wanted.take(i as int).push(line@));
            }
            let ghost before = crate::text::string_views(lines@);
            let text = string_of(line.as_slice());
            lines.push(text);
            proof {
                assert(crate::text::string_views(lines@) =~= before.push(line@));
            }
            i = i + 1;
        }
        proof {
            assert(wanted.take(i as int) =~= wanted);
        }
        lines
    }
}

/// The text that is embedded for an exchange.
pub open spec fn exchange_query_spec(user: Seq<char>) -> Seq<char> {
    "User query: "@ + user
}

/// The text that is handed to the embedder for an exchange: the user's words
/// behind a fixed label.
pub fn exchange_query(user: &str) -> (text: String)
    ensures
        text@ == exchange_query_spec(user@),
{
    let mut query: Vec<char> = Vec::new();
    append_str(&mut query, "User query: ");
    append_str(&mut query, user);
    string_of(query.as_slice())
}

impl DialogueManagerView {
    /// The manager with one more exchange in the current session and
    /// nothing else changed.
    pub open spec fn with_turn(self, user: Seq<char>, assistant: Seq<char>, now: i64)
        -> DialogueManagerView {
        DialogueManagerView {
            current: SessionView {
                turns: self.current.turns.push(
                    TurnView { user, assistant, timestamp: now, metadata: Seq::empty() },
                ),
                updated_at: self.current.touched(now),
                ..self.current
            },
            ..self
        }
    }
}

impl DialogueManager {
    /// Appends an exchange to the current session and does nothing else.
    fn append_turn_at(&mut self, user: String, assistant: String, now: i64)
        requires
            old(self).wf(),
        ensures
            final(self).wf(),
            final(self)@ == old(self)@.with_turn(user@, assistant@, now),
    {
        let turn = Turn::at(now, user, assistant);
        self.current_session.add_turn_at(turn, now);
    }

    /// Records one exchange in the current session, now: the exchange is
    /// appended to the session; what the user said is embedded; and where
    /// the embedder gives an embedding of the store's dimension, a record of
    /// the exchange is stored and the history is brought within its bound.
    pub fn add_exchange<E: crate::embedder::Embedder>(
        &mut self,
        embedder: &E,
        user: String,
        assistant: String,
    ) -> (outcome: Result<(), crate::embedder::MemoryFailure>)
        requires
            old(self).wf(),
        ensures
            final(self).wf(),
            outcome is Ok ==> exists|embedding: Seq<u32>, entry_id: u128, now: i64|
                embedding.len() == old(self)@.store.dimension && final(self)@ == #[trigger] old(self)@.after_exchange(user@, assistant@, embedding, entry_id, now),
            outcome is Err ==> exists|now: i64|
                final(self)@ == #[trigger] old(self)@.with_turn(user@, assistant@, now),
            outcome is Err && outcome->Err_0 is Memory ==> outcome->Err_0->error
                is DimensionMismatch,
    {
        let instant = now();
        let text = exchange_query(user.as_str());
        match embedder.embed(text.as_str()) {
            Ok(embedding) => {
                let entry_id = new_id();
                let ghost given = embedding@;
                match self.add_exchange_at(user, assistant, embedding, entry_id, instant) {
                    Ok(()) => Ok(()),
                    Err(error) => {
                        proof {
                            assert(old(self)@.after_exchange(
                                user@,
                                assistant@,
                                given,
                                entry_id,
                                instant,
                            ) == old(self)@.with_turn(user@, assistant@, instant));
                        }
                        Err(crate::embedder::MemoryFailure::Memory { error })
                    },
                }
            },
            Err(message) => {
                self.append_turn_at(user, assistant, instant);
                Err(crate::embedder::MemoryFailure::Embedder { message })
            },
        }
    }
}

} // verus!
