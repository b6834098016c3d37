//! Making the episodic memory durable: what is written for a manager, and
//! how a manager is rebuilt from what was written.

use vstd::prelude::*;
use crate::archive::archive_bytes_spec;
use crate::archive::decode_archive;
use crate::archive::decode_spec;
use crate::archive::encode_archive;
use crate::archive::fits_archive;
use crate::archive::ArchiveRecord;
use crate::archive::ArchiveRecordView;
use crate::clock::now;
use crate::episodic::manager::adopted_spec;
use crate::episodic::manager::DialogueManager;
use crate::episodic::manager::DialogueManagerView;
use crate::episodic::manager::DEFAULT_MAX_SESSIONS;
use crate::episodic::records::deserialize_session;
use crate::episodic::records::deserialized_spec;
use crate::episodic::records::record_views;
use crate::episodic::records::serialize_session;
use crate::episodic::records::serialized_spec;
use crate::episodic::records::storage_of;
use crate::episodic::records::storage_version_spec;
use crate::episodic::records::total_turns_spec;
use crate::episodic::records::MemoryStorage;
use crate::episodic::records::SerializedSession;
use crate::episodic::records::SerializedSessionView;
use crate::episodic::records::SerializedTurn;
use crate::episodic::session::session_views;
use crate::episodic::session::Session;
use crate::episodic::session::SessionView;
use crate::error::MemoryError;
use crate::ids::format_id;
use crate::ids::hyphenated_spec;
use crate::ids::new_id;
use crate::ids::parse_id;
use crate::ids::parsed_id_spec;
use crate::text::decimal;
use crate::text::decimal_spec;
use crate::text::owned;
use crate::text::same_text;
use crate::text::string_of;
use crate::vector_store::entry_views;
use crate::vector_store::MemoryEntry;
use crate::vector_store::MemoryEntryView;
use crate::vector_store::MemoryType;
use crate::vector_store::MemoryTypeView;
use crate::vector_store::VectorStoreView;

verus! {

/// The position of the first record of the exchange `turn` of the session `session_id`.
pub open spec fn exchange_entry_at_spec(entries: Seq<MemoryEntryView>, session_id: u128, turn: usize)
    -> Option<int>
    decreases entries.len(),
{
    if entries.len() == 0 {
        None
    } else {
        match exchange_entry_at_spec(entries.drop_last(), session_id, turn) {
            Some(at) => Some(at),
            None => if entries.last().memory_type == (MemoryTypeView::Episodic {
                session_id,
                turn,
            }) {
                Some(entries.len() - 1)
            } else {
                None
            },
        }
    }
}

/// Once the record of an exchange is found among the first records, it stays
/// the one found among all.
proof fn lemma_exchange_entry_stays(
    entries: Seq<MemoryEntryView>,
    session_id: u128,
    turn: usize,
    upto: int,
)
    requires
        0 <= upto <= entries.len(),
        exchange_entry_at_spec(entries.take(upto), session_id, turn) is Some,
    ensures
        exchange_entry_at_spec(entries, session_id, turn) == exchange_entry_at_spec(
            entries.take(upto),
            session_id,
            turn,
        ),
    decreases entries.len() - upto,
{
    if upto < entries.len() {
        assert(entries.take(upto + 1).drop_last() =~= entries.take(upto));
        lemma_exchange_entry_stays(entries, session_id, turn, upto + 1);
    } else {
        assert(entries.take(upto) =~= entries);
    }
}

/// The embeddings archived for the first `count` exchanges of a session: one
/// per exchange that has a record in the store and whose number fits the
/// archive's 32 bits.
pub open spec fn turn_records_spec(entries: Seq<MemoryEntryView>, session_id: u128, count: nat)
    -> Seq<ArchiveRecordView>
    decreases count,
{
    if count == 0 {
        Seq::empty()
    } else {
        let earlier = turn_records_spec(entries, session_id, (count - 1) as nat);
        let turn = count - 1;
        if turn > u32::MAX {
            earlier
        } else {
            match exchange_entry_at_spec(entries, session_id, turn as usize) {
                Some(at) => earlier.push(
                    ArchiveRecordView {
                        session_id,
                        turn_idx: turn as u32,
                        embedding: entries[at].embedding,
                    },
                ),
                None => earlier,
            }
        }
    }
}

/// The embeddings archived for a list of sessions, session by session.
pub open spec fn session_records_spec(entries: Seq<MemoryEntryView>, sessions: Seq<SessionView>)
    -> Seq<ArchiveRecordView>
    decreases sessions.len(),
{
    if sessions.len() == 0 {
        Seq::empty()
    } else {
        session_records_spec(entries, sessions.drop_last()) + turn_records_spec(
            entries,
            sessions.last().id,
            sessions.last().turns.len(),
        )
    }
}

/// The embeddings archived for a manager: those of the sessions of its
/// history, then those of its current session.
pub open spec fn saved_records_spec(manager: DialogueManagerView) -> Seq<ArchiveRecordView> {
    session_records_spec(manager.store.entries, manager.history.push(manager.current))
}

/// The sessions written out for a manager: those of its history, then its
/// current session.
pub open spec fn saved_sessions_spec(manager: DialogueManagerView) -> Seq<SerializedSessionView> {
    Seq::new(
        manager.history.len() + 1,
        |i: int|
            if i < manager.history.len() {
                serialized_spec(manager.history[i])
            } else {
                serialized_spec(manager.current)
            },
    )
}

/// Adds the archive records of one session to `records`.
fn collect_session(records: &mut Vec<ArchiveRecord>, entries: &Vec<MemoryEntry>, session: &Session)
    ensures
        crate::archive::record_views(final(records)@) == crate::archive::record_views(
            old(records)@,
        ) + turn_records_spec(entry_views(entries@), session@.id, session@.turns.len()),
{
    let ghost start = crate::archive::record_views(records@);
    let ghost all = entry_views(entries@);
    let mut turn: usize = 0;
    assert(start + turn_records_spec(all, session.id, 0) =~= start);
    while turn < session.turns.len()
        invariant
            turn <= session.turns.len(),
            all == entry_views(entries@),
            crate::archive::record_views(records@) == start + turn_records_spec(
                all,
                session.id,
                turn as nat,
            ),
        decreases session.turns.len() - turn,
    {
        let ghost so_far = crate::archive::record_views(records@);
        if turn <= u32::MAX as usize {
            // the first record of this exchange
            let mut at: usize = 0;
            let mut found = false;
            while at < entries.len() && !found
                invariant
                    at <= entries.len(),
                    all == entry_views(entries@),
                    !found ==> exchange_entry_at_spec(all.take(at as int), session.id, turn)
                        is None,
                    found ==> at > 0 && exchange_entry_at_spec(all, session.id, turn) == Some(
                        at - 1,
                    ),
                decreases entries.len() - at,
            {
                proof {
                    assert(all.take(at + 1).drop_last() =~= all.take(at as int));
                    assert(all.take(at + 1).last() == entries@[at as int]@);
                }
                let this = match &entries[at].memory_type {
                    MemoryType::Episodic { session_id, turn: number } => *session_id == session.id
                        && *number == turn,
                    _ => false,
                };
                if this {
                    proof {
                        lemma_exchange_entry_stays(all, session.id, turn, at + 1);
                    }
                    found = true;
                }
                at = at + 1;
            }
            if found {
                let embedding = entries[at - 1].embedding.clone();
                proof {
                    assert(embedding@ =~= all[at - 1].embedding);
                }
                records.push(
                    ArchiveRecord { session_id: session.id, turn_idx: turn as u32, embedding },
                );
                proof {
                    assert(crate::archive::record_views(records@) =~= so_far.push(
                        ArchiveRecordView {
                            session_id: session.id,
                            turn_idx: turn as u32,
                            embedding: all[at - 1].embedding,
                        },
                    ));
                }
            } else {
                proof {
                    assert(all.take(at as int) =~= all);
                }
            }
        }
        proof {
            assert(start + turn_records_spec(all, session.id, (turn + 1) as nat)
                =~= crate::archive::record_views(records@));
        }
        turn = turn + 1;
    }
}

/// The embeddings to archive for a manager.
pub fn archive_records(manager: &DialogueManager) -> (records: Vec<ArchiveRecord>)
    ensures
        crate::archive::record_views(records@) == saved_records_spec(manager@),
{
    let entries = manager.vector_store().entries();
    let history = manager.session_history();
    let ghost all = entry_views(entries@);
    let ghost sessions = manager@.history;
    let mut records: Vec<ArchiveRecord> = Vec::new();
    let mut i: usize = 0;
    assert(crate::archive::record_views(records@) =~= session_records_spec(all, sessions.take(0)));
    while i < history.len()
        invariant
            i <= history.len(),
            all == entry_views(entries@),
            sessions == session_views(history@),
            crate::archive::record_views(records@) == session_records_spec(
                all,
                sessions.take(i as int),
            ),
        decreases history.len() - i,
    {
        proof {
            assert(sessions.take(i + 1).drop_last() =~= sessions.take(i as int));
            assert(sessions.take(i + 1).last() == history@[i as int]@);
        }
        collect_session(&mut records, entries, &history[i]);
        i = i + 1;
    }
    proof {
        assert(sessions.take(i as int) =~= sessions);
        assert(sessions.push(manager@.current).drop_last() =~= sessions);
    }
    collect_session(&mut records, entries, manager.current_session());
    records
}

/// The embedding archive of a manager. Fails where a number does not fit
/// its field in the archive; with a well-formed store that can only be the
/// dimension or the number of embeddings.
pub fn embeddings_archive(manager: &DialogueManager) -> (outcome: Result<Vec<u8>, MemoryError>)
    ensures
        outcome is Ok <==> manager@.store.dimension <= u32::MAX && fits_archive(
            saved_records_spec(manager@),
        ),
        outcome is Ok ==> outcome->Ok_0@ == archive_bytes_spec(
            saved_records_spec(manager@),
            manager@.store.dimension as u32,
        ),
        outcome is Err ==> outcome->Err_0 == MemoryError::ArchiveTooLarge,
{
    let dimension = manager.vector_store().dimension();
    if dimension > u32::MAX as usize {
        return Err(MemoryError::ArchiveTooLarge);
    }
    let records = archive_records(manager);
    encode_archive(&records, dimension as u32)
}

/// The structured store of a manager, saved at `now`: the sessions of its
/// history, then its current session.
pub fn sessions_storage(manager: &DialogueManager, now: i64) -> (storage: MemoryStorage)
    ensures
        record_views(storage.sessions@) == saved_sessions_spec(manager@),
        storage.metadata.version@ == storage_version_spec(),
        storage.metadata.created_at == now,
        storage.metadata.last_saved_at == now,
        storage.metadata.total_sessions == storage.sessions@.len(),
        storage.metadata.total_turns == total_turns_spec(saved_sessions_spec(manager@)),
        storage.metadata.embedding_dim == manager@.store.dimension,
{
    let history = manager.session_history();
    let mut records: Vec<SerializedSession> = Vec::new();
    let mut i: usize = 0;
    while i < history.len()
        invariant
            i <= history.len(),
            session_views(history@) == manager@.history,
            records@.len() == i,
            forall|j: int|
                0 <= j < i ==> (#[trigger] records@[j])@ == serialized_spec(manager@.history[j]),
        decreases history.len() - i,
    {
        proof {
            assert(manager@.history[i as int] == history@[i as int]@);
        }
        records.push(serialize_session(&history[i]));
        i = i + 1;
    }
    records.push(serialize_session(manager.current_session()));
    proof {
        assert(record_views(records@) =~= saved_sessions_spec(manager@));
    }
    storage_of(records, manager.vector_store().dimension(), now)
}

/// What is stored as text where the exchange of an embedding is not known.
pub open spec fn unknown_spec() -> Seq<char> {
    "unknown"@
}

/// The first of the written-out sessions whose identifier reads as `session_id`.
pub open spec fn record_of_spec(sessions: Seq<SerializedSessionView>, session_id: u128) -> Option<
    int,
>
    decreases sessions.len(),
{
    if sessions.len() == 0 {
        None
    } else {
        match record_of_spec(sessions.drop_last(), session_id) {
            Some(at) => Some(at),
            None => if parsed_id_spec(sessions.last().id) == Some(session_id) {
                Some(sessions.len() - 1)
            } else {
                None
            },
        }
    }
}

/// Once the record of a session is found among the first records, it stays
/// the one found among all.
proof fn lemma_record_of_stays(sessions: Seq<SerializedSessionView>, session_id: u128, upto: int)
    requires
        0 <= upto <= sessions.len(),
        record_of_spec(sessions.take(upto), session_id) is Some,
    ensures
        record_of_spec(sessions, session_id) == record_of_spec(sessions.take(upto), session_id),
    decreases sessions.len() - upto,
{
    if upto < sessions.len() {
        assert(sessions.take(upto + 1).drop_last() =~= sessions.take(upto));
        lemma_record_of_stays(sessions, session_id, upto + 1);
    } else {
        assert(sessions.take(upto) =~= sessions);
    }
}

/// What the user said and what the assistant answered in the exchange that
/// an archived embedding belongs to, as far as the written-out sessions
/// know it.
pub open spec fn exchange_texts_spec(
    sessions: Seq<SerializedSessionView>,
    session_id: u128,
    turn: u32,
) -> (Seq<char>, Seq<char>) {
    match record_of_spec(sessions, session_id) {
        Some(at) => if turn < sessions[at].turns.len() {
            (sessions[at].turns[turn as int].user, sessions[at].turns[turn as int].assistant)
        } else {
            (unknown_spec(), unknown_spec())
        },
        None => (unknown_spec(), unknown_spec()),
    }
}

/// The record that an archived embedding is restored as.
pub open spec fn restored_entry_spec(
    record: ArchiveRecordView,
    sessions: Seq<SerializedSessionView>,
    entry_id: u128,
    now: i64,
) -> MemoryEntryView {
    let texts = exchange_texts_spec(sessions, record.session_id, record.turn_idx);
    MemoryEntryView {
        id: entry_id,
        text: texts.0,
        embedding: record.embedding,
        metadata: seq![
            ("session_id"@, hyphenated_spec(record.session_id)),
            ("turn"@, decimal_spec(record.turn_idx as nat)),
            ("user_query"@, texts.0),
            ("assistant_response"@, texts.1),
        ],
        timestamp: now,
        memory_type: MemoryTypeView::Episodic {
            session_id: record.session_id,
            turn: record.turn_idx as usize,
        },
    }
}

/// `restored` are the records that the archived embeddings `records` are
/// restored as at `now`, whatever their identifiers.
pub open spec fn restored_are(
    restored: Seq<MemoryEntryView>,
    records: Seq<ArchiveRecordView>,
    sessions: Seq<SerializedSessionView>,
    now: i64,
) -> bool {
    &&& restored.len() == records.len()
    &&& forall|k: int|
        0 <= k < restored.len() ==> (#[trigger] restored[k]) == restored_entry_spec(
            records[k],
            sessions,
            restored[k].id,
            now,
        )
}

/// `after` is `before` with the embeddings of `archive` restored at `now`:
/// nothing changes but the store, which keeps what it held and gains, in
/// the order of the archive, one record per embedding that the archive holds
/// for the store's dimension.
pub open spec fn restored_into(
    before: DialogueManagerView,
    after: DialogueManagerView,
    archive: Seq<u8>,
    sessions: Seq<SerializedSessionView>,
    now: i64,
) -> bool {
    let decoded = decode_spec(archive, before.store.dimension as nat);
    &&& after.current == before.current
    &&& after.history == before.history
    &&& after.max_sessions == before.max_sessions
    &&& after.store.dimension == before.store.dimension
    &&& after.store.query_count == before.store.query_count
    &&& after.store.entries.len() == before.store.entries.len() + decoded.len()
    &&& after.store.entries.take(before.store.entries.len() as int) == before.store.entries
    &&& restored_are(
        after.store.entries.skip(before.store.entries.len() as int),
        decoded,
        sessions,
        now,
    )
}

/// What the user said and what the assistant answered in an exchange.
fn exchange_texts(sessions: &Vec<SerializedSession>, session_id: u128, turn: u32) -> (texts: (
    String,
    String,
))
    ensures
        (texts.0@, texts.1@) == exchange_texts_spec(record_views(sessions@), session_id, turn),
{
    let ghost views = record_views(sessions@);
    let mut i: usize = 0;
    while i < sessions.len()
        invariant
            i <= sessions.len(),
            views == record_views(sessions@),
            record_of_spec(views.take(i as int), session_id) is None,
        decreases sessions.len() - i,
    {
        proof {
            assert(views.take(i + 1).drop_last() =~= views.take(i as int));
            assert(views.take(i + 1).last() == sessions@[i as int]@);
        }
        let session = &sessions[i];
        let matches = match parse_id(session.id.as_str()) {
            Some(id) => id == session_id,
            None => false,
        };
        if matches {
            proof {
                lemma_record_of_stays(views, session_id, i + 1);
                assert(views[i as int] == session@);
            }
            if (turn as usize) < session.turns.len() {
                let found = &session.turns[turn as usize];
                proof {
                    assert(session@.turns[turn as int] == found@);
                }
                return (found.user.clone(), found.assistant.clone());
            } else {
                return (owned("unknown"), owned("unknown"));
            }
        }
        i = i + 1;
    }
    proof {
        assert(views.take(i as int) =~= views);
    }
    (owned("unknown"), owned("unknown"))
}

/// Restores the embeddings of an archive into the store of a manager, at
/// the instant `now`: every embedding that the archive holds for the
/// manager's dimension becomes a record of its exchange, with the texts that
/// the written-out sessions know for that exchange. Fails, changing nothing,
/// where the archive is shorter than a header. Says how many embeddings
/// were restored.
pub fn restore_embeddings_at(
    manager: &mut DialogueManager,
    archive: &[u8],
    sessions: &Vec<SerializedSession>,
    now: i64,
) -> (outcome: Result<usize, MemoryError>)
    requires
        old(manager).wf(),
    ensures
        final(manager).wf(),
        archive@.len() < 32 ==> final(manager)@ == old(manager)@ && outcome == Err::<
            usize,
            MemoryError,
        >(MemoryError::ArchiveTooSmall { actual: archive@.len() as usize }),
        archive@.len() >= 32 ==> outcome is Ok && outcome->Ok_0 == decode_spec(
            archive@,
            old(manager)@.store.dimension as nat,
        ).len() && restored_into(
            old(manager)@,
            final(manager)@,
            archive@,
            record_views(sessions@),
            now,
        ),
{
    let dimension = manager.vector_store().dimension();
    let records = match decode_archive(archive, dimension) {
        Ok(records) => records,
        Err(error) => {
            return Err(error);
        },
    };
    let ghost decoded = crate::archive::record_views(records@);
    let ghost start = manager@.store.entries;
    let ghost views = record_views(sessions@);
    proof {
        crate::archive::lemma_decoded_dimension(
            archive@,
            dimension as nat,
            crate::archive::header_of_spec(archive@).num_embeddings as nat,
        );
        assert(manager@.store.entries.take(start.len() as int) =~= start);
    }
    let mut k: usize = 0;
    while k < records.len()
        invariant
            k <= records.len(),
            manager.wf(),
            decoded == crate::archive::record_views(records@),
            views == record_views(sessions@),
            start == old(manager)@.store.entries,
            dimension == old(manager)@.store.dimension,
            forall|j: int| 0 <= j < decoded.len() ==> (#[trigger] decoded[j]).embedding.len() == dimension,
            manager@.current == old(manager)@.current,
            manager@.history == old(manager)@.history,
            manager@.max_sessions == old(manager)@.max_sessions,
            manager@.store.dimension == dimension,
            manager@.store.query_count == old(manager)@.store.query_count,
            manager@.store.entries.len() == start.len() + k,
            manager@.store.entries.take(start.len() as int) == start,
            restored_are(
                manager@.store.entries.skip(start.len() as int),
                decoded.take(k as int),
                views,
                now,
            ),
        decreases records.len() - k,
    {
        let record = &records[k];
        proof {
            assert(decoded[k as int] == record@);
        }
        let texts = exchange_texts(sessions, record.session_id, record.turn_idx);
        let embedding = record.embedding.clone();
        proof {
            assert(embedding@ =~= record.embedding@);
        }
        let entry = MemoryEntry::with_identity(
            new_id(),
            now,
            texts.0.clone(),
            embedding,
            MemoryType::Episodic { session_id: record.session_id, turn: record.turn_idx as usize },
        ).with_metadata(owned("session_id"), format_id(record.session_id)).with_metadata(
            owned("turn"),
            string_of(decimal(record.turn_idx as u64).as_slice()),
        ).with_metadata(owned("user_query"), texts.0).with_metadata(
            owned("assistant_response"),
            texts.1,
        );
        let ghost before = manager@.store.entries;
        proof {
            assert(entry@.metadata =~= restored_entry_spec(record@, views, entry.id, now).metadata);
            assert(entry@ == restored_entry_spec(record@, views, entry.id, now));
        }
        let _ = manager.restore_entry(entry);
        proof {
            let after = manager@.store.entries;
            assert(after =~= before.push(entry@));
            assert(after.take(start.len() as int) =~= before.take(start.len() as int));
            let tail = after.skip(start.len() as int);
            let old_tail = before.skip(start.len() as int);
            assert(tail =~= old_tail.push(entry@));
            assert forall|j: int| 0 <= j < tail.len() implies (#[trigger] tail[j])
                == restored_entry_spec(decoded.take(k + 1)[j], views, tail[j].id, now) by {
                if j < k {
                    assert(tail[j] == old_tail[j]);
                    assert(decoded.take(k + 1)[j] == decoded.take(k as int)[j]);
                }
            }
        }
        k = k + 1;
    }
    proof {
        assert(decoded.take(k as int) =~= decoded);
    }
    Ok(records.len())
}

/// Restores the embeddings of an archive into the store of a manager, now.
pub fn restore_embeddings(manager: &mut DialogueManager, archive: &[u8], sessions: &Vec<
    SerializedSession,
>) -> (outcome: Result<usize, MemoryError>)
    requires
        old(manager).wf(),
    ensures
        final(manager).wf(),
        outcome is Ok <==> archive@.len() >= 32,
        outcome is Err ==> final(manager)@ == old(manager)@,
        outcome is Ok ==> outcome->Ok_0 == decode_spec(
            archive@,
            old(manager)@.store.dimension as nat,
        ).len() && exists|now: i64|
            #[trigger] restored_into(
                old(manager)@,
                final(manager)@,
                archive@,
                record_views(sessions@),
                now,
            ),
{
    let instant = now();
    restore_embeddings_at(manager, archive, sessions, instant)
}

/// The histories that taking in the first `count` of the written-out
/// sessions leads to: a session is taken in where its persona is the wanted
/// one or the history is still empty, and where its identifier can be read.
pub open spec fn adopted_all_spec(
    sessions: Seq<SerializedSessionView>,
    persona: Seq<char>,
    current: u128,
    count: nat,
) -> Seq<SessionView>
    decreases count,
{
    if count == 0 || count > sessions.len() {
        Seq::empty()
    } else {
        let earlier = adopted_all_spec(sessions, persona, current, (count - 1) as nat);
        let record = sessions[count - 1];
        if record.persona_name == persona || earlier.len() == 0 {
            match deserialized_spec(record) {
                Some(session) => adopted_spec(earlier, current, session),
                None => earlier,
            }
        } else {
            earlier
        }
    }
}

/// A manager for the written-out sessions: a new current session
/// `session_id` for the persona, created at `now`, and in the history the
/// sessions of that persona.
pub fn manager_with_sessions_at(
    dimension: usize,
    persona_name: String,
    sessions: &Vec<SerializedSession>,
    session_id: u128,
    now: i64,
) -> (manager: DialogueManager)
    ensures
        manager.wf(),
        manager@.max_sessions == DEFAULT_MAX_SESSIONS,
        manager@.store.entries.len() == 0,
        manager@.store.dimension == dimension,
        manager@.store.query_count == 0,
        manager@.current == (SessionView {
            id: session_id,
            persona_name: persona_name@,
            turns: Seq::empty(),
            created_at: now,
            updated_at: now,
            metadata: Seq::empty(),
        }),
        manager@.history == adopted_all_spec(
            record_views(sessions@),
            persona_name@,
            session_id,
            sessions@.len(),
        ),
{
    let mut manager = DialogueManager::with_identity(
        dimension,
        persona_name.clone(),
        DEFAULT_MAX_SESSIONS,
        session_id,
        now,
    );
    let ghost views = record_views(sessions@);
    let ghost start = manager@;
    let mut i: usize = 0;
    assert(manager@.history =~= adopted_all_spec(views, persona_name@, session_id, 0));
    while i < sessions.len()
        invariant
            i <= sessions.len(),
            manager.wf(),
            views == record_views(sessions@),
            manager@ == (DialogueManagerView {
                history: adopted_all_spec(views, persona_name@, session_id, i as nat),
                ..start
            }),
            start.current.id == session_id,
        decreases sessions.len() - i,
    {
        let record = &sessions[i];
        proof {
            assert(views[i as int] == record@);
        }
        if same_text(record.persona_name.as_str(), persona_name.as_str())
            || manager.session_history().len() == 0 {
            match deserialize_session(copy_record(record)) {
                Ok(session) => {
                    manager.adopt_session(session);
                },
                Err(_) => {},
            }
        }
        i = i + 1;
    }
    manager
}

/// A copy of a written-out session.
pub fn copy_record(record: &SerializedSession) -> (copy: SerializedSession)
    ensures
        copy@ == record@,
{
    let mut turns: Vec<SerializedTurn> = Vec::new();
    let mut i: usize = 0;
    while i < record.turns.len()
        invariant
            i <= record.turns.len(),
            turns@.len() == i,
            forall|j: int| 0 <= j < i ==> (#[trigger] turns@[j])@ == record.turns@[j]@,
        decreases record.turns.len() - i,
    {
        let turn = &record.turns[i];
        turns.push(
            SerializedTurn {
                user: turn.user.clone(),
                assistant: turn.assistant.clone(),
                timestamp: turn.timestamp,
                metadata: turn.metadata.duplicate(),
            },
        );
        i = i + 1;
    }
    let copy = SerializedSession {
        id: record.id.clone(),
        persona_name: record.persona_name.clone(),
        turns,
        created_at: record.created_at,
        updated_at: record.updated_at,
        metadata: record.metadata.duplicate(),
    };
    assert(copy@.turns =~= record@.turns);
    copy
}

/// A manager for the written-out sessions, with a fresh current session.
pub fn create_dialogue_manager_with_sessions(
    dimension: usize,
    persona_name: String,
    sessions: Vec<SerializedSession>,
) -> (manager: DialogueManager)
    ensures
        manager.wf(),
        manager@.max_sessions == DEFAULT_MAX_SESSIONS,
        manager@.store.entries.len() == 0,
        manager@.store.dimension == dimension,
        manager@.current.persona_name == persona_name@,
        manager@.current.turns.len() == 0,
        manager@.history == adopted_all_spec(
            record_views(sessions@),
            persona_name@,
            manager@.current.id,
            sessions@.len(),
        ),
{
    let id = new_id();
    let instant = now();
    manager_with_sessions_at(dimension, persona_name, &sessions, id, instant)
}

/// Rebuilds a manager from what was written for it: the structured store
/// and, where there is one, the embedding archive. The manager gets a fresh
/// current session for the persona. Fails where the archive is shorter than
/// a header.
pub fn load_with_embeddings(storage: &MemoryStorage, archive: Option<&[u8]>, persona_name: String) -> (outcome:
    Result<DialogueManager, MemoryError>)
    ensures
        outcome is Err <==> archive is Some && archive->0@.len() < 32,
        outcome is Ok ==> {
            let manager = outcome->Ok_0;
            &&& manager.wf()
            &&& manager@.store.dimension == storage.metadata.embedding_dim
            &&& manager@.current.persona_name == persona_name@
            &&& manager@.history == adopted_all_spec(
                record_views(storage.sessions@),
                persona_name@,
                manager@.current.id,
                storage.sessions@.len(),
            )
            &&& manager@.store.entries.len() == match archive {
                Some(bytes) => decode_spec(bytes@, storage.metadata.embedding_dim as nat).len(),
                None => 0,
            }
            &&& archive is Some ==> exists|now: i64|
                #[trigger] restored_are(
                    manager@.store.entries,
                    decode_spec(archive->0@, storage.metadata.embedding_dim as nat),
                    record_views(storage.sessions@),
                    now,
                )
            &&& archive is Some ==> held_tuples_spec(manager@.store.entries)
                == restored_tuples_spec(
                decode_spec(archive->0@, storage.metadata.embedding_dim as nat),
                record_views(storage.sessions@),
            )
        },
{
    let id = new_id();
    let instant = now();
    let mut manager = manager_with_sessions_at(
        storage.metadata.embedding_dim,
        persona_name,
        &storage.sessions,
        id,
        instant,
    );
    match archive {
        Some(bytes) => {
            match restore_embeddings_at(&mut manager, bytes, &storage.sessions, instant) {
                Ok(_) => {
                    proof {
                        assert(manager@.store.entries.skip(0) =~= manager@.store.entries);
                        lemma_restored_hold(
                            manager@.store.entries,
                            decode_spec(bytes@, storage.metadata.embedding_dim as nat),
                            record_views(storage.sessions@),
                            instant,
                        );
                    }
                },
                Err(error) => {
                    return Err(error);
                },
            }
        },
        None => {},
    }
    Ok(manager)
}

/// What is to survive a restart for one exchange: which exchange it is, what
/// was said, and the embedding.
pub struct ExchangeTuple {
    pub session_id: u128,
    pub turn: u32,
    pub user: Seq<char>,
    pub assistant: Seq<char>,
    pub embedding: Seq<u32>,
}

/// What restoring the archived embeddings `records` against the written-out
/// sessions gives, exchange by exchange.
pub open spec fn restored_tuples_spec(
    records: Seq<ArchiveRecordView>,
    sessions: Seq<SerializedSessionView>,
) -> Seq<ExchangeTuple> {
    Seq::new(
        records.len(),
        |k: int|
            ExchangeTuple {
                session_id: records[k].session_id,
                turn: records[k].turn_idx,
                user: exchange_texts_spec(sessions, records[k].session_id, records[k].turn_idx).0,
                assistant: exchange_texts_spec(
                    sessions,
                    records[k].session_id,
                    records[k].turn_idx,
                ).1,
                embedding: records[k].embedding,
            },
    )
}

/// What a record of the store says of its exchange: the session and the
/// number of the exchange that it is filed under, the two texts that it
/// carries as `user_query` and `assistant_response`, and its embedding.
pub open spec fn held_tuple_spec(entry: MemoryEntryView) -> ExchangeTuple {
    ExchangeTuple {
        session_id: match entry.memory_type {
            MemoryTypeView::Episodic { session_id, .. } => session_id,
            _ => 0,
        },
        turn: match entry.memory_type {
            MemoryTypeView::Episodic { turn, .. } => turn as u32,
            _ => 0,
        },
        user: match crate::metadata::lookup_spec(entry.metadata, "user_query"@) {
            Some(text) => text,
            None => unknown_spec(),
        },
        assistant: match crate::metadata::lookup_spec(entry.metadata, "assistant_response"@) {
            Some(text) => text,
            None => unknown_spec(),
        },
        embedding: entry.embedding,
    }
}

/// What the records of a store say of their exchanges, record by record.
pub open spec fn held_tuples_spec(entries: Seq<MemoryEntryView>) -> Seq<ExchangeTuple> {
    Seq::new(entries.len(), |k: int| held_tuple_spec(entries[k]))
}

/// A restored record says of its exchange what the archive and the
/// written-out sessions say of it.
pub proof fn lemma_restored_entry_holds(
    record: ArchiveRecordView,
    sessions: Seq<SerializedSessionView>,
    entry_id: u128,
    now: i64,
)
    ensures
        held_tuple_spec(restored_entry_spec(record, sessions, entry_id, now)) == (ExchangeTuple {
            session_id: record.session_id,
            turn: record.turn_idx,
            user: exchange_texts_spec(sessions, record.session_id, record.turn_idx).0,
            assistant: exchange_texts_spec(sessions, record.session_id, record.turn_idx).1,
            embedding: record.embedding,
        }),
{
    reveal_strlit("session_id");
    reveal_strlit("turn");
    reveal_strlit("user_query");
    reveal_strlit("assistant_response");
    let entry = restored_entry_spec(record, sessions, entry_id, now);
    let pairs = entry.metadata;
    let three = pairs.drop_last();
    assert("user_query"@ != "assistant_response"@) by {
        assert("user_query"@.len() != "assistant_response"@.len());
    }
    assert(pairs.last().0 == "assistant_response"@);
    assert(three.last().0 == "user_query"@);
    assert(crate::metadata::lookup_spec(pairs, "assistant_response"@) == Some(pairs.last().1));
    assert(crate::metadata::lookup_spec(three, "user_query"@) == Some(three.last().1));
    assert(crate::metadata::lookup_spec(pairs, "user_query"@) == Some(three.last().1));
    assert(record.turn_idx as usize as u32 == record.turn_idx);
}

/// The records that archived embeddings are restored as say of their
/// exchanges what the archive and the written-out sessions say of them.
pub proof fn lemma_restored_hold(
    restored: Seq<MemoryEntryView>,
    records: Seq<ArchiveRecordView>,
    sessions: Seq<SerializedSessionView>,
    now: i64,
)
    requires
        restored_are(restored, records, sessions, now),
    ensures
        held_tuples_spec(restored) == restored_tuples_spec(records, sessions),
{
    assert forall|k: int| 0 <= k < restored.len() implies held_tuple_spec(#[trigger] restored[k])
        == restored_tuples_spec(records, sessions)[k] by {
        lemma_restored_entry_holds(records[k], sessions, restored[k].id, now);
    }
    assert(held_tuples_spec(restored) =~= restored_tuples_spec(records, sessions));
}

/// What a manager holds for the first `count` exchanges of a session that
/// have a record in the store.
pub open spec fn turn_tuples_spec(entries: Seq<MemoryEntryView>, session: SessionView, count: nat)
    -> Seq<ExchangeTuple>
    decreases count,
{
    if count == 0 || count > session.turns.len() {
        Seq::empty()
    } else {
        let earlier = turn_tuples_spec(entries, session, (count - 1) as nat);
        let turn = count - 1;
        if turn > u32::MAX {
            earlier
        } else {
            match exchange_entry_at_spec(entries, session.id, turn as usize) {
                Some(at) => earlier.push(
                    ExchangeTuple {
                        session_id: session.id,
                        turn: turn as u32,
                        user: session.turns[turn].user,
                        assistant: session.turns[turn].assistant,
                        embedding: entries[at].embedding,
                    },
                ),
                None => earlier,
            }
        }
    }
}

/// What a manager holds for the exchanges of a list of sessions.
pub open spec fn session_tuples_spec(entries: Seq<MemoryEntryView>, sessions: Seq<SessionView>)
    -> Seq<ExchangeTuple>
    decreases sessions.len(),
{
    if sessions.len() == 0 {
        Seq::empty()
    } else {
        session_tuples_spec(entries, sessions.drop_last()) + turn_tuples_spec(
            entries,
            sessions.last(),
            sessions.last().turns.len(),
        )
    }
}

/// What a manager holds for the exchanges of all its sessions.
pub open spec fn saved_tuples_spec(manager: DialogueManagerView) -> Seq<ExchangeTuple> {
    session_tuples_spec(manager.store.entries, manager.history.push(manager.current))
}

/// Where the record of an exchange is found, it lies in the store.
proof fn lemma_exchange_entry_in_range(entries: Seq<MemoryEntryView>, session_id: u128, turn: usize)
    ensures
        exchange_entry_at_spec(entries, session_id, turn) is Some ==> 0 <= exchange_entry_at_spec(
            entries,
            session_id,
            turn,
        )->0 < entries.len(),
    decreases entries.len(),
{
    if entries.len() > 0 {
        lemma_exchange_entry_in_range(entries.drop_last(), session_id, turn);
    }
}

/// The embeddings archived for a session come from the store.
proof fn lemma_turn_records_dimension(
    store: VectorStoreView,
    session_id: u128,
    count: nat,
)
    requires
        store.wf(),
    ensures
        forall|k: int|
            0 <= k < turn_records_spec(store.entries, session_id, count).len() ==> (
            #[trigger] turn_records_spec(store.entries, session_id, count)[k]).embedding.len()
                == store.dimension,
    decreases count,
{
    if count > 0 {
        lemma_turn_records_dimension(store, session_id, (count - 1) as nat);
        let turn = count - 1;
        if turn <= u32::MAX {
            lemma_exchange_entry_in_range(store.entries, session_id, turn as usize);
        }
        let earlier = turn_records_spec(store.entries, session_id, (count - 1) as nat);
        let all = turn_records_spec(store.entries, session_id, count);
        assert forall|k: int| 0 <= k < all.len() implies (#[trigger] all[k]).embedding.len()
            == store.dimension by {
            if k < earlier.len() {
                assert(all[k] == earlier[k]);
            } else {
                let at = exchange_entry_at_spec(store.entries, session_id, turn as usize)->0;
                assert(store.entries[at].embedding.len() == store.dimension);
            }
        }
    }
}

/// The embeddings archived for a list of sessions come from the store.
proof fn lemma_session_records_dimension(store: VectorStoreView, sessions: Seq<SessionView>)
    requires
        store.wf(),
    ensures
        forall|k: int|
            0 <= k < session_records_spec(store.entries, sessions).len() ==> (
            #[trigger] session_records_spec(store.entries, sessions)[k]).embedding.len()
                == store.dimension,
    decreases sessions.len(),
{
    if sessions.len() > 0 {
        lemma_session_records_dimension(store, sessions.drop_last());
        lemma_turn_records_dimension(store, sessions.last().id, sessions.last().turns.len());
        let earlier = session_records_spec(store.entries, sessions.drop_last());
        let last = turn_records_spec(
            store.entries,
            sessions.last().id,
            sessions.last().turns.len(),
        );
        let all = session_records_spec(store.entries, sessions);
        assert forall|k: int| 0 <= k < all.len() implies (#[trigger] all[k]).embedding.len()
            == store.dimension by {
            if k < earlier.len() {
                assert(all[k] == earlier[k]);
            } else {
                assert(all[k] == last[k - earlier.len()]);
            }
        }
    }
}

/// Among written-out sessions none of which reads as `session_id`, none is found.
proof fn lemma_record_of_none(sessions: Seq<SerializedSessionView>, session_id: u128)
    requires
        forall|j: int|
            0 <= j < sessions.len() ==> parsed_id_spec((#[trigger] sessions[j]).id) != Some(
                session_id,
            ),
    ensures
        record_of_spec(sessions, session_id) is None,
    decreases sessions.len(),
{
    if sessions.len() > 0 {
        let earlier = sessions.drop_last();
        assert forall|j: int| 0 <= j < earlier.len() implies parsed_id_spec(
            (#[trigger] earlier[j]).id,
        ) != Some(session_id) by {
            assert(earlier[j] == sessions[j]);
        }
        lemma_record_of_none(earlier, session_id);
        assert(parsed_id_spec(sessions[sessions.len() - 1].id) != Some(session_id));
    }
}

/// Restoring embeddings one list after the other is restoring the joined list.
proof fn lemma_restored_join(
    first: Seq<ArchiveRecordView>,
    second: Seq<ArchiveRecordView>,
    sessions: Seq<SerializedSessionView>,
)
    ensures
        restored_tuples_spec(first + second, sessions) == restored_tuples_spec(first, sessions)
            + restored_tuples_spec(second, sessions),
{
    assert(restored_tuples_spec(first + second, sessions) =~= restored_tuples_spec(first, sessions)
        + restored_tuples_spec(second, sessions));
}

/// The sessions of a manager have distinct identifiers that read back.
pub open spec fn sessions_read_back(sessions: Seq<SessionView>) -> bool {
    &&& forall|i: int|
        0 <= i < sessions.len() ==> parsed_id_spec(hyphenated_spec((#[trigger] sessions[i]).id))
            == Some(sessions[i].id)
    &&& forall|i: int, j: int|
        0 <= i < j < sessions.len() ==> (#[trigger] sessions[i]).id != (#[trigger] sessions[j]).id
}

/// The written-out forms of a list of sessions.
pub open spec fn written_spec(sessions: Seq<SessionView>) -> Seq<SerializedSessionView> {
    Seq::new(sessions.len(), |i: int| serialized_spec(sessions[i]))
}

/// Every session is found among the written-out sessions at its own place.
proof fn lemma_record_of_own(sessions: Seq<SessionView>, at: int)
    requires
        sessions_read_back(sessions),
        0 <= at < sessions.len(),
    ensures
        record_of_spec(written_spec(sessions), sessions[at].id) == Some(at),
{
    let written = written_spec(sessions);
    let id = sessions[at].id;
    let before = written.take(at);
    assert forall|j: int| 0 <= j < before.len() implies parsed_id_spec((#[trigger] before[j]).id)
        != Some(id) by {
        assert(before[j] == serialized_spec(sessions[j]));
        assert(sessions[j].id != sessions[at].id);
    }
    lemma_record_of_none(before, id);
    let upto = written.take(at + 1);
    assert(upto.drop_last() =~= before);
    assert(upto.last() == serialized_spec(sessions[at]));
    assert(record_of_spec(upto, id) == Some(at));
    lemma_record_of_stays(written, id, at + 1);
}

/// For one session, what is restored is what was held.
proof fn lemma_turns_round_trip(
    entries: Seq<MemoryEntryView>,
    sessions: Seq<SessionView>,
    at: int,
    count: nat,
)
    requires
        sessions_read_back(sessions),
        0 <= at < sessions.len(),
        count <= sessions[at].turns.len(),
    ensures
        restored_tuples_spec(
            turn_records_spec(entries, sessions[at].id, count),
            written_spec(sessions),
        ) == turn_tuples_spec(entries, sessions[at], count),
    decreases count,
{
    let written = written_spec(sessions);
    let session = sessions[at];
    if count == 0 {
        assert(restored_tuples_spec(turn_records_spec(entries, session.id, 0), written)
            =~= turn_tuples_spec(entries, session, 0));
    } else {
        lemma_turns_round_trip(entries, sessions, at, (count - 1) as nat);
        lemma_record_of_own(sessions, at);
        let turn = count - 1;
        let earlier = turn_records_spec(entries, session.id, (count - 1) as nat);
        if turn <= u32::MAX {
            match exchange_entry_at_spec(entries, session.id, turn as usize) {
                Some(found) => {
                    let record = ArchiveRecordView {
                        session_id: session.id,
                        turn_idx: turn as u32,
                        embedding: entries[found].embedding,
                    };
                    assert(written[at] == serialized_spec(session));
                    assert(exchange_texts_spec(written, session.id, turn as u32) == (
                        session.turns[turn].user,
                        session.turns[turn].assistant,
                    ));
                    assert(earlier.push(record) =~= earlier + seq![record]);
                    lemma_restored_join(earlier, seq![record], written);
                    assert(restored_tuples_spec(seq![record], written) =~= seq![
                        ExchangeTuple {
                            session_id: session.id,
                            turn: turn as u32,
                            user: session.turns[turn].user,
                            assistant: session.turns[turn].assistant,
                            embedding: entries[found].embedding,
                        },
                    ]);
                    assert(restored_tuples_spec(earlier.push(record), written)
                        =~= turn_tuples_spec(entries, session, count));
                },
                None => {},
            }
        }
    }
}

/// For the first `count` sessions, what is restored is what was held.
proof fn lemma_sessions_round_trip(entries: Seq<MemoryEntryView>, sessions: Seq<SessionView>, count: nat)
    requires
        sessions_read_back(sessions),
        count <= sessions.len(),
    ensures
        restored_tuples_spec(
            session_records_spec(entries, sessions.take(count as int)),
            written_spec(sessions),
        ) == session_tuples_spec(entries, sessions.take(count as int)),
    decreases count,
{
    let written = written_spec(sessions);
    let upto = sessions.take(count as int);
    if count == 0 {
        assert(restored_tuples_spec(session_records_spec(entries, upto), written)
            =~= session_tuples_spec(entries, upto));
    } else {
        lemma_sessions_round_trip(entries, sessions, (count - 1) as nat);
        assert(upto.drop_last() =~= sessions.take(count - 1));
        assert(upto.last() == sessions[count - 1]);
        lemma_turns_round_trip(entries, sessions, count - 1, sessions[count - 1].turns.len());
        lemma_restored_join(
            session_records_spec(entries, sessions.take(count - 1)),
            turn_records_spec(entries, sessions[count - 1].id, sessions[count - 1].turns.len()),
            written,
        );
    }
}

/// Whether the identifier of every session of the manager, the current one
/// included, reads back from its canonical text.
pub open spec fn identifiers_read_back_spec(manager: DialogueManagerView) -> bool {
    &&& forall|i: int|
        0 <= i < manager.history.len() ==> parsed_id_spec(
            hyphenated_spec((#[trigger] manager.history[i]).id),
        ) == Some(manager.history[i].id)
    &&& parsed_id_spec(hyphenated_spec(manager.current.id)) == Some(manager.current.id)
}

/// Writes the identifier of one session and reads it back.
fn reads_back(id: u128) -> (same: bool)
    ensures
        same,
        parsed_id_spec(hyphenated_spec(id)) == Some(id),
{
    let text = format_id(id);
    match parse_id(text.as_str()) {
        Some(read) => read == id,
        None => false,
    }
}

/// Writes the identifier of every session of the manager and reads it back.
/// Every one reads back as it was written, so what is saved for the manager
/// names its sessions as the manager does.
pub fn identifiers_read_back(manager: &DialogueManager) -> (all: bool)
    ensures
        all,
        identifiers_read_back_spec(manager@),
{
    let history = manager.session_history();
    let mut all = reads_back(manager.current_session().id);
    let mut i: usize = 0;
    while i < history.len()
        invariant
            i <= history.len(),
            all,
            session_views(history@) == manager@.history,
            forall|k: int|
                0 <= k < i ==> parsed_id_spec(hyphenated_spec((#[trigger] manager@.history[k]).id))
                    == Some(manager@.history[k].id),
        decreases history.len() - i,
    {
        let same = reads_back(history[i].id);
        proof {
            assert(manager@.history[i as int] == history@[i as int]@);
        }
        all = all && same;
        i = i + 1;
    }
    all
}

/// Saving a manager and restoring what was saved reproduces, for every
/// exchange that had a record, the session, the number of the exchange, what
/// the user said, what the assistant answered, and the embedding, component
/// for component: as long as the identifiers of the sessions read back from
/// their canonical text and the archive can be written.
pub proof fn lemma_episodic_round_trip(manager: DialogueManagerView)
    requires
        manager.wf(),
        manager.store.dimension <= u32::MAX,
        archive_bytes_spec(saved_records_spec(manager), manager.store.dimension as u32).len()
            <= u64::MAX,
        identifiers_read_back_spec(manager),
    ensures
        decode_spec(
            archive_bytes_spec(saved_records_spec(manager), manager.store.dimension as u32),
            manager.store.dimension as nat,
        ) == saved_records_spec(manager),
        restored_tuples_spec(
            decode_spec(
                archive_bytes_spec(saved_records_spec(manager), manager.store.dimension as u32),
                manager.store.dimension as nat,
            ),
            saved_sessions_spec(manager),
        ) == saved_tuples_spec(manager),
{
    let all = manager.history.push(manager.current);
    let records = saved_records_spec(manager);
    lemma_session_records_dimension(manager.store, all);
    crate::archive::lemma_archive_round_trip(records, manager.store.dimension as u32);
    assert(sessions_read_back(all)) by {
        assert forall|i: int| 0 <= i < all.len() implies parsed_id_spec(
            hyphenated_spec((#[trigger] all[i]).id),
        ) == Some(all[i].id) by {
            if i < manager.history.len() {
                assert(all[i] == manager.history[i]);
            }
        }
        assert forall|i: int, j: int| 0 <= i < j < all.len() implies (#[trigger] all[i]).id != (
        #[trigger] all[j]).id by {
            assert(all[i] == manager.history[i]);
            if j < manager.history.len() {
                assert(all[j] == manager.history[j]);
            }
        }
    }
    assert(written_spec(all) =~= saved_sessions_spec(manager));
    lemma_sessions_round_trip(manager.store.entries, all, all.len());
    assert(all.take(all.len() as int) =~= all);
}

/// What is written for a manager at `now`: its structured store and its
/// embedding archive. Fails where a number does not fit its field in the
/// archive. What is written holds every exchange that had a record: read
/// back, the archive gives the records as they were saved, and with the
/// structured store they give, exchange for exchange, the session, the
/// number of the exchange, both texts and the embedding, word for word.
pub fn save_manager(manager: &DialogueManager, now: i64) -> (outcome: Result<
    (MemoryStorage, Vec<u8>),
    MemoryError,
>)
    requires
        manager.wf(),
    ensures
        outcome is Ok <==> manager@.store.dimension <= u32::MAX && fits_archive(
            saved_records_spec(manager@),
        ),
        outcome is Err ==> outcome->Err_0 == MemoryError::ArchiveTooLarge,
        outcome is Ok ==> {
            let storage = outcome->Ok_0.0;
            let archive = outcome->Ok_0.1;
            let dimension = manager@.store.dimension;
            &&& record_views(storage.sessions@) == saved_sessions_spec(manager@)
            &&& storage.metadata.embedding_dim == dimension
            &&& storage.metadata.last_saved_at == now
            &&& archive@ == archive_bytes_spec(saved_records_spec(manager@), dimension as u32)
            &&& decode_spec(archive@, dimension as nat) == saved_records_spec(manager@)
            &&& restored_tuples_spec(
                decode_spec(archive@, dimension as nat),
                record_views(storage.sessions@),
            ) == saved_tuples_spec(manager@)
        },
{
    let archive = match embeddings_archive(manager) {
        Ok(archive) => archive,
        Err(error) => {
            return Err(error);
        },
    };
    let storage = sessions_storage(manager, now);
    let _ = identifiers_read_back(manager);
    let written = archive.len();
    proof {
        assert(archive@.len() == written);
        lemma_episodic_round_trip(manager@);
    }
    Ok((storage, archive))
}

/// A manager rebuilt from what is saved of `manager` at `now`, as after a
/// restart, with a fresh current session for the persona. Its store says of
/// every exchange that had a record what `manager` held for it: the session,
/// the number of the exchange, both texts and the embedding, word for word.
pub fn reloaded(manager: &DialogueManager, persona_name: String, now: i64) -> (outcome: Result<
    DialogueManager,
    MemoryError,
>)
    requires
        manager.wf(),
    ensures
        outcome is Ok <==> manager@.store.dimension <= u32::MAX && fits_archive(
            saved_records_spec(manager@),
        ),
        outcome is Ok ==> {
            let copy = outcome->Ok_0;
            &&& copy.wf()
            &&& copy@.store.dimension == manager@.store.dimension
            &&& copy@.current.persona_name == persona_name@
            &&& held_tuples_spec(copy@.store.entries) == saved_tuples_spec(manager@)
        },
{
    let (storage, archive) = match save_manager(manager, now) {
        Ok(saved) => saved,
        Err(error) => {
            return Err(error);
        },
    };
    proof {
        crate::archive::lemma_header_round_trip(
            crate::archive::archive_header_spec(
                saved_records_spec(manager@),
                manager@.store.dimension as u32,
            ),
        );
    }
    load_with_embeddings(&storage, Some(archive.as_slice()), persona_name)
}

} // verus!
