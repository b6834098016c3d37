//! The structured store of sessions: the records that are written out, and
//! how sessions are turned into them and back.

use vstd::prelude::*;
use crate::episodic::session::Session;
use crate::episodic::session::SessionView;
use crate::episodic::session::Turn;
use crate::episodic::session::TurnView;
use crate::error::MemoryError;
use crate::ids::format_id;
use crate::ids::hyphenated_spec;
use crate::ids::parse_uuid;
use crate::ids::parsed_id_spec;
use crate::metadata::Metadata;
use crate::text::owned;

verus! {

/// The version of the structured store that this library writes.
pub open spec fn storage_version_spec() -> Seq<char> {
    "2.0"@
}

/// The embedding dimension assumed for a store that does not state one.
pub const DEFAULT_EMBEDDING_DIM: usize = 384;

/// One exchange as it is written out.
#[derive(Debug, Clone)]
pub struct SerializedTurn {
    pub user: String,
    pub assistant: String,
    pub timestamp: i64,
    pub metadata: Metadata,
}

/// One session as it is written out: the identifier in its canonical text.
#[derive(Debug, Clone)]
pub struct SerializedSession {
    pub id: String,
    pub persona_name: String,
    pub turns: Vec<SerializedTurn>,
    pub created_at: i64,
    pub updated_at: i64,
    pub metadata: Metadata,
}

/// The mathematical value of a `SerializedSession`; its turns have the same
/// value as the turns of a session.
pub struct SerializedSessionView {
    pub id: Seq<char>,
    pub persona_name: Seq<char>,
    pub turns: Seq<TurnView>,
    pub created_at: i64,
    pub updated_at: i64,
    pub metadata: Seq<(Seq<char>, Seq<char>)>,
}

impl View for SerializedTurn {
    type V = TurnView;

    open spec fn view(&self) -> TurnView {
        TurnView {
            user: self.user@,
            assistant: self.assistant@,
            timestamp: self.timestamp,
            metadata: self.metadata@,
        }
    }
}

/// The values of a list of written-out turns.
pub open spec fn record_turn_views(turns: Seq<SerializedTurn>) -> Seq<TurnView> {
    Seq::new(turns.len(), |i: int| turns[i]@)
}

impl View for SerializedSession {
    type V = SerializedSessionView;

    open spec fn view(&self) -> SerializedSessionView {
        SerializedSessionView {
            id: self.id@,
            persona_name: self.persona_name@,
            turns: record_turn_views(self.turns@),
            created_at: self.created_at,
            updated_at: self.updated_at,
            metadata: self.metadata@,
        }
    }
}

/// The values of a list of written-out sessions.
pub open spec fn record_views(records: Seq<SerializedSession>) -> Seq<SerializedSessionView> {
    Seq::new(records.len(), |i: int| records[i]@)
}

/// What heads the structured store.
#[derive(Debug, Clone)]
pub struct StorageMetadata {
    pub version: String,
    pub created_at: i64,
    pub last_saved_at: i64,
    pub total_sessions: usize,
    pub total_turns: usize,
    pub embedding_dim: usize,
}

/// The structured store: its head and the sessions.
#[derive(Debug, Clone)]
pub struct MemoryStorage {
    pub metadata: StorageMetadata,
    pub sessions: Vec<SerializedSession>,
}

/// A session as it is written out.
pub open spec fn serialized_spec(session: SessionView) -> SerializedSessionView {
    SerializedSessionView {
        id: hyphenated_spec(session.id),
        persona_name: session.persona_name,
        turns: session.turns,
        created_at: session.created_at,
        updated_at: session.updated_at,
        metadata: session.metadata,
    }
}

/// The session that a record denotes, or nothing where its identifier cannot
/// be read. A record that claims an update before the creation is taken as
/// updated at its creation.
pub open spec fn deserialized_spec(record: SerializedSessionView) -> Option<SessionView> {
    match parsed_id_spec(record.id) {
        Some(id) => Some(
            SessionView {
                id,
                persona_name: record.persona_name,
                turns: record.turns,
                created_at: record.created_at,
                updated_at: if record.updated_at < record.created_at {
                    record.created_at
                } else {
                    record.updated_at
                },
                metadata: record.metadata,
            },
        ),
        None => None,
    }
}

/// The number of exchanges in all the records together, or the largest count
/// there is.
pub open spec fn total_turns_spec(records: Seq<SerializedSessionView>) -> nat
    decreases records.len(),
{
    if records.len() == 0 {
        0
    } else {
        let sum = total_turns_spec(records.drop_last()) + records.last().turns.len();
        if sum > usize::MAX {
            usize::MAX as nat
        } else {
            sum
        }
    }
}

/// A session reads back from its record as it was written, as long as its
/// identifier reads back from its canonical text.
pub proof fn lemma_session_round_trip(session: SessionView)
    requires
        session.wf(),
        parsed_id_spec(hyphenated_spec(session.id)) == Some(session.id),
    ensures
        deserialized_spec(serialized_spec(session)) == Some(session),
{
}

impl StorageMetadata {
    /// The head of a store that holds nothing.
    pub fn empty_at(now: i64) -> (metadata: StorageMetadata)
        ensures
            metadata.version@ == "1.0"@,
            metadata.created_at == now,
            metadata.last_saved_at == now,
            metadata.total_sessions == 0,
            metadata.total_turns == 0,
            metadata.embedding_dim == DEFAULT_EMBEDDING_DIM,
    {
        StorageMetadata {
            version: owned("1.0"),
            created_at: now,
            last_saved_at: now,
            total_sessions: 0,
            total_turns: 0,
            embedding_dim: DEFAULT_EMBEDDING_DIM,
        }
    }
}

/// Writes out one exchange.
pub fn serialize_turn(turn: &Turn) -> (record: SerializedTurn)
    ensures
        record@ == turn@,
{
    SerializedTurn {
        user: turn.user.clone(),
        assistant: turn.assistant.clone(),
        timestamp: turn.timestamp,
        metadata: turn.metadata.duplicate(),
    }
}

/// Writes out one session.
pub fn serialize_session(session: &Session) -> (record: SerializedSession)
    ensures
        record@ == serialized_spec(session@),
{
    let mut turns: Vec<SerializedTurn> = Vec::new();
    let mut i: usize = 0;
    while i < session.turns.len()
        invariant
            i <= session.turns.len(),
            turns@.len() == i,
            forall|j: int| 0 <= j < i ==> (#[trigger] turns@[j])@ == session.turns@[j]@,
        decreases session.turns.len() - i,
    {
        turns.push(serialize_turn(&session.turns[i]));
        i = i + 1;
    }
    let record = SerializedSession {
        id: format_id(session.id),
        persona_name: session.persona_name.clone(),
        turns,
        created_at: session.created_at,
        updated_at: session.updated_at,
        metadata: session.metadata.duplicate(),
    };
    assert(record@.turns =~= session@.turns);
    record
}

/// Reads one session from its record. Fails where the identifier cannot be
/// read; a session written out by `serialize_session` reads back as it was.
pub fn deserialize_session(record: SerializedSession) -> (outcome: Result<Session, MemoryError>)
    ensures
        match outcome {
            Ok(session) => deserialized_spec(record@) == Some(session@) && session.wf(),
            Err(error) => deserialized_spec(record@) is None && error == MemoryError::InvalidId,
        },
        forall|written: SessionView|
            written.wf() && record@ == serialized_spec(written) ==> outcome is Ok && (
            #[trigger] serialized_spec(written)) == record@ && outcome->Ok_0@ == written,
{
    let id = match parse_uuid(record.id.as_str()) {
        Ok(id) => id,
        Err(_) => {
            return Err(MemoryError::InvalidId);
        },
    };
    let mut turns: Vec<Turn> = Vec::new();
    let mut i: usize = 0;
    while i < record.turns.len()
        invariant
            i <= record.turns.len(),
            turns@.len() == i,
            forall|j: int| 0 <= j < i ==> (#[trigger] turns@[j])@ == record.turns@[j]@,
        decreases record.turns.len() - i,
    {
        let turn = &record.turns[i];
        turns.push(
            Turn {
                user: turn.user.clone(),
                assistant: turn.assistant.clone(),
                timestamp: turn.timestamp,
                metadata: turn.metadata.duplicate(),
            },
        );
        i = i + 1;
    }
    let updated_at = if record.updated_at < record.created_at {
        record.created_at
    } else {
        record.updated_at
    };
    let session = Session {
        id,
        persona_name: record.persona_name,
        turns,
        created_at: record.created_at,
        updated_at,
        metadata: record.metadata,
    };
    assert(session@.turns =~= record@.turns);
    Ok(session)
}

/// The structured store for the given records, saved at `now`.
pub fn storage_of(records: Vec<SerializedSession>, embedding_dim: usize, now: i64) -> (storage:
    MemoryStorage)
    ensures
        record_views(storage.sessions@) == record_views(records@),
        storage.metadata.version@ == storage_version_spec(),
        storage.metadata.created_at == now,
        storage.metadata.last_saved_at == now,
        storage.metadata.total_sessions == records@.len(),
        storage.metadata.total_turns == total_turns_spec(record_views(records@)),
        storage.metadata.embedding_dim == embedding_dim,
{
    let total_turns = count_turns(&records);
    MemoryStorage {
        metadata: StorageMetadata {
            version: owned("2.0"),
            created_at: now,
            last_saved_at: now,
            total_sessions: records.len(),
            total_turns,
            embedding_dim,
        },
        sessions: records,
    }
}

/// The number of exchanges in all the records together.
pub fn count_turns(records: &Vec<SerializedSession>) -> (total: usize)
    ensures
        total == total_turns_spec(record_views(records@)),
{
    let ghost views = record_views(records@);
    let mut total: usize = 0;
    let mut i: usize = 0;
    while i < records.len()
        invariant
            i <= records.len(),
            views == record_views(records@),
            total == total_turns_spec(views.take(i as int)),
        decreases records.len() - i,
    {
        proof {
            assert(views.take(i + 1).drop_last() =~= views.take(i as int));
            assert(views.take(i + 1).last() == records@[i as int]@);
        }
        let turns = records[i].turns.len();
        total = if turns > usize::MAX - total {
            usize::MAX
        } else {
            total + turns
        };
        i = i + 1;
    }
    proof {
        assert(views.take(i as int) =~= views);
    }
    total
}

/// What is left of a store once the sessions last updated at or before
/// `cutoff` are dropped.
pub open spec fn retained_spec(records: Seq<SerializedSessionView>, cutoff: i64) -> Seq<
    SerializedSessionView,
> {
    records.filter(|record: SerializedSessionView| record.updated_at > cutoff)
}

/// Drops the sessions last updated at or before `cutoff` from a store and
/// says how many. Where any was dropped, the counts in the head are brought
/// up to date and the store counts as saved at `now`.
pub fn drop_old_sessions(storage: &mut MemoryStorage, cutoff: i64, now: i64) -> (dropped: usize)
    ensures
        record_views(final(storage).sessions@) == retained_spec(
            record_views(old(storage).sessions@),
            cutoff,
        ),
        dropped == old(storage).sessions@.len() - final(storage).sessions@.len(),
        final(storage).metadata.version == old(storage).metadata.version,
        final(storage).metadata.created_at == old(storage).metadata.created_at,
        final(storage).metadata.embedding_dim == old(storage).metadata.embedding_dim,
        dropped == 0 ==> final(storage).metadata.total_sessions == old(
            storage,
        ).metadata.total_sessions && final(storage).metadata.total_turns == old(
            storage,
        ).metadata.total_turns && final(storage).metadata.last_saved_at == old(
            storage,
        ).metadata.last_saved_at,
        dropped > 0 ==> final(storage).metadata.total_sessions == final(storage).sessions@.len()
            && final(storage).metadata.total_turns == total_turns_spec(
            record_views(final(storage).sessions@),
        ) && final(storage).metadata.last_saved_at == now,
{
    let ghost at_start = record_views(storage.sessions@);
    let ghost keep = |record: SerializedSessionView| record.updated_at > cutoff;
    let initial = storage.sessions.len();
    let mut i: usize = 0;
    let ghost mut seen: int = 0;
    proof {
        reveal(Seq::filter);
        assert(at_start.take(0).filter(keep) =~= record_views(storage.sessions@).take(0));
        assert(record_views(storage.sessions@).skip(0) =~= at_start.skip(0));
    }
    while i < storage.sessions.len()
        invariant
            i <= storage.sessions.len(),
            storage.sessions.len() <= initial,
            initial == at_start.len(),
            i <= seen <= at_start.len(),
            at_start == record_views(old(storage).sessions@),
            storage.metadata == old(storage).metadata,
            keep == (|record: SerializedSessionView| record.updated_at > cutoff),
            record_views(storage.sessions@).take(i as int) == at_start.take(seen).filter(keep),
            record_views(storage.sessions@).skip(i as int) == at_start.skip(seen),
        decreases storage.sessions.len() - i,
    {
        let ghost current = record_views(storage.sessions@);
        proof {
            reveal(Seq::filter);
            assert(current.skip(i as int).len() == at_start.skip(seen).len());
            assert(current.skip(i as int)[0] == at_start.skip(seen)[0]);
            assert(at_start.take(seen + 1).drop_last() =~= at_start.take(seen));
            assert(at_start.take(seen + 1).last() == at_start[seen]);
            assert(current[i as int] == at_start[seen]);
            assert(current[i as int] == storage.sessions@[i as int]@);
        }
        if storage.sessions[i].updated_at > cutoff {
            proof {
                assert(current.take(i + 1) =~= current.take(i as int).push(current[i as int]));
                assert(current.skip(i + 1) =~= current.skip(i as int).drop_first());
                assert(at_start.skip(seen + 1) =~= at_start.skip(seen).drop_first());
            }
            i = i + 1;
        } else {
            storage.sessions.remove(i);
            proof {
                let after = record_views(storage.sessions@);
                assert(after =~= current.remove(i as int));
                assert(after.take(i as int) =~= current.take(i as int));
                assert(after.skip(i as int) =~= current.skip(i as int).drop_first());
                assert(at_start.skip(seen + 1) =~= at_start.skip(seen).drop_first());
            }
        }
        proof {
            seen = seen + 1;
        }
    }
    proof {
        let after = record_views(storage.sessions@);
        assert(after.skip(i as int).len() == 0);
        assert(at_start.skip(seen).len() == 0);
        assert(at_start.take(seen) =~= at_start);
        assert(after.take(i as int) =~= after);
    }
    let dropped = initial - storage.sessions.len();
    if dropped > 0 {
        storage.metadata.total_sessions = storage.sessions.len();
        storage.metadata.total_turns = count_turns(&storage.sessions);
        storage.metadata.last_saved_at = now;
    }
    dropped
}

} // verus!
