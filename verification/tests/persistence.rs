use ziggurat_mind::archive::{
    decode_archive, encode_archive, is_undersized, ArchiveRecord, EmbeddingIndex, EmbeddingsHeader,
};
use ziggurat_mind::episodic::manager::DialogueManager;
use ziggurat_mind::episodic::persistence::{
    archive_records, create_dialogue_manager_with_sessions, embeddings_archive,
    identifiers_read_back, load_with_embeddings, manager_with_sessions_at, reloaded,
    restore_embeddings_at, save_manager, sessions_storage,
};
use ziggurat_mind::episodic::records::{
    deserialize_session, drop_old_sessions, serialize_session, storage_of, StorageMetadata,
};
use ziggurat_mind::episodic::session::{Session, Turn};
use ziggurat_mind::error::MemoryError;
use ziggurat_mind::ids::{format_id, new_id, parse_id};
use ziggurat_mind::persistence::{
    is_backup_name, parse_persistence_format, PersistenceFormat, PersistenceManager,
};
use ziggurat_mind::semantic::concept::{Concept, ConceptCategory};
use ziggurat_mind::semantic::manager::SemanticMemoryManager;
use ziggurat_mind::semantic::persistence::{
    concepts_storage, deserialize_concept, load_concepts, serialize_concept, MetadataValue,
    SemanticPersistenceManager, SerializedConcept,
};
use ziggurat_mind::vector_store::MemoryType;

fn bits(values: &[f32]) -> Vec<u32> {
    values.iter().map(|v| v.to_bits()).collect()
}

#[test]
fn archive_header_round_trips() {
    let header = EmbeddingsHeader {
        version: 1,
        embedding_dim: 384,
        num_embeddings: 2,
        index_offset: 32,
        data_offset: 96,
    };
    let bytes = header.to_bytes();
    assert_eq!(bytes.len(), 32);
    assert_eq!(&bytes[0..4], &[1, 0, 0, 0]);
    assert_eq!(&bytes[4..8], &[0x80, 0x01, 0, 0]);
    assert_eq!(&bytes[8..16], &[2, 0, 0, 0, 0, 0, 0, 0]);
    assert_eq!(&bytes[16..24], &[32, 0, 0, 0, 0, 0, 0, 0]);
    assert_eq!(&bytes[24..32], &[96, 0, 0, 0, 0, 0, 0, 0]);
    assert_eq!(EmbeddingsHeader::from_bytes(&bytes), header);
}

#[test]
fn archive_index_record_round_trips() {
    let id = uuid::Uuid::parse_str("a1a2a3a4-b1b2-c1c2-d1d2-d3d4d5d6d7d8").unwrap();
    let index = EmbeddingIndex {
        session_id: id.as_u128(),
        turn_idx: 0x01020304,
        offset: 0x1122334455667788,
        size: 384,
    };
    let bytes = index.to_bytes();
    assert_eq!(&bytes[..16], id.as_bytes());
    assert_eq!(&bytes[16..20], &0x01020304u32.to_le_bytes());
    assert_eq!(&bytes[20..28], &0x1122334455667788u64.to_le_bytes());
    assert_eq!(&bytes[28..32], &384u32.to_le_bytes());
    assert_eq!(EmbeddingIndex::from_bytes(&bytes), index);
}

fn sample_records() -> Vec<ArchiveRecord> {
    vec![
        ArchiveRecord { session_id: 7, turn_idx: 0, embedding: bits(&[1.0, -2.5, 0.0]) },
        ArchiveRecord { session_id: 7, turn_idx: 1, embedding: bits(&[f32::MIN_POSITIVE, 3.25, -0.0]) },
        ArchiveRecord { session_id: u128::MAX, turn_idx: 9, embedding: vec![0xffff_ffff, 0x7fc0_0001, 1] },
    ]
}

fn tuples(records: &[ArchiveRecord]) -> Vec<(u128, u32, Vec<u32>)> {
    records.iter().map(|r| (r.session_id, r.turn_idx, r.embedding.clone())).collect()
}

#[test]
fn archive_round_trips_bit_for_bit() {
    let records = sample_records();
    let bytes = encode_archive(&records, 3).unwrap();
    assert_eq!(bytes.len(), 32 + 3 * 32 + 3 * 3 * 4);
    let header = EmbeddingsHeader::from_bytes(&bytes);
    assert_eq!(
        header,
        EmbeddingsHeader {
            version: 1,
            embedding_dim: 3,
            num_embeddings: 3,
            index_offset: 32,
            data_offset: 128
        }
    );
    // the layout: raw single-precision words, little-endian, in insertion order
    assert_eq!(&bytes[128..132], &1.0f32.to_le_bytes());
    assert_eq!(&bytes[132..136], &(-2.5f32).to_le_bytes());
    let second = EmbeddingIndex::from_bytes(&bytes[64..96]);
    assert_eq!(second, EmbeddingIndex { session_id: 7, turn_idx: 1, offset: 12, size: 3 });
    let decoded = decode_archive(&bytes, 3).unwrap();
    assert_eq!(tuples(&decoded), tuples(&records));
    assert_eq!(tuples(&decode_archive(&encode_archive(&Vec::new(), 5).unwrap(), 5).unwrap()), vec![]);
}

#[test]
fn archive_reading_passes_over_what_does_not_fit() {
    let records = sample_records();
    let bytes = encode_archive(&records, 3).unwrap();
    // another dimension: every record is passed over
    assert!(decode_archive(&bytes, 4).unwrap().is_empty());
    // shorter than a header: an error
    assert_eq!(
        decode_archive(&bytes[..31], 3).err(),
        Some(MemoryError::ArchiveTooSmall { actual: 31 })
    );
    assert_eq!(
        MemoryError::ArchiveTooSmall { actual: 31 }.message(),
        "Embeddings file is too small: 31 < 32"
    );
    // cut within the data: the complete records are read
    let cut = &bytes[..bytes.len() - 4];
    assert_eq!(tuples(&decode_archive(cut, 3).unwrap()), tuples(&records[..2]));
    // cut within the index: nothing can be read
    assert!(decode_archive(&bytes[..100], 3).unwrap().is_empty());
    // a header alone
    assert!(decode_archive(&bytes[..32], 3).unwrap().is_empty());
    // records of mixed lengths: only those of the wanted dimension
    let mixed = vec![
        ArchiveRecord { session_id: 1, turn_idx: 0, embedding: bits(&[1.0]) },
        ArchiveRecord { session_id: 1, turn_idx: 1, embedding: bits(&[1.0, 2.0]) },
        ArchiveRecord { session_id: 1, turn_idx: 2, embedding: bits(&[3.0]) },
    ];
    let bytes = encode_archive(&mixed, 1).unwrap();
    let read = decode_archive(&bytes, 1).unwrap();
    assert_eq!(tuples(&read), vec![(1, 0, bits(&[1.0])), (1, 2, bits(&[3.0]))]);
}

#[test]
fn identifiers_are_written_and_read_by_uuid() {
    let id = 0xa1a2a3a4_b1b2_c1c2_d1d2_d3d4d5d6d7d8u128;
    assert_eq!(format_id(id), "a1a2a3a4-b1b2-c1c2-d1d2-d3d4d5d6d7d8");
    assert_eq!(format_id(0), "00000000-0000-0000-0000-000000000000");
    assert_eq!(parse_id("a1a2a3a4-b1b2-c1c2-d1d2-d3d4d5d6d7d8"), Some(id));
    assert_eq!(parse_id("A1A2A3A4B1B2C1C2D1D2D3D4D5D6D7D8"), Some(id));
    assert_eq!(parse_id("not an id"), None);
    assert_eq!(parse_id(""), None);
    for _ in 0..50 {
        let fresh = new_id();
        assert_eq!(parse_id(&format_id(fresh)), Some(fresh));
        assert_eq!(uuid::Uuid::from_u128(fresh).get_version_num(), 4);
        assert_eq!(fresh & 0x0000_0000_0000_f000_c000_0000_0000_0000, 0x0000_0000_0000_4000_8000_0000_0000_0000);
    }
    assert_ne!(new_id(), new_id());
}

fn populated() -> DialogueManager {
    let mut manager = DialogueManager::with_identity(2, "sage".to_string(), 100, 0x11, 1_000);
    manager.add_exchange_at("one q".to_string(), "one a".to_string(), bits(&[1.0, 0.5]), 1, 1_100).unwrap();
    manager.add_exchange_at("two q".to_string(), "two a".to_string(), bits(&[-1.0, 0.25]), 2, 1_200).unwrap();
    manager.start_new_session_at("sage".to_string(), 0x22, 2_000);
    manager.add_exchange_at("three q".to_string(), "three a".to_string(), bits(&[0.0, 7.0]), 3, 2_100).unwrap();
    manager
}

fn exchange_tuples(manager: &DialogueManager) -> Vec<(u128, usize, String, String, Vec<u32>)> {
    manager
        .vector_store()
        .entries()
        .iter()
        .map(|e| match e.memory_type {
            MemoryType::Episodic { session_id, turn } => (
                session_id,
                turn,
                e.metadata.get("user_query").unwrap().clone(),
                e.metadata.get("assistant_response").unwrap().clone(),
                e.embedding.clone(),
            ),
            _ => panic!("not an exchange"),
        })
        .collect()
}

#[test]
fn saved_manager_loads_with_the_same_exchanges_and_embeddings() {
    let manager = populated();
    let storage = sessions_storage(&manager, 5_000);
    assert_eq!(storage.metadata.version, "2.0");
    assert_eq!(storage.metadata.total_sessions, 2);
    assert_eq!(storage.metadata.total_turns, 3);
    assert_eq!(storage.metadata.embedding_dim, 2);
    assert_eq!(storage.metadata.last_saved_at, 5_000);
    assert_eq!(storage.sessions[0].id, "00000000-0000-0000-0000-000000000011");
    let archive = embeddings_archive(&manager).unwrap();
    assert_eq!(archive_records(&manager).len(), 3);

    let loaded = load_with_embeddings(&storage, Some(&archive), "sage".to_string()).unwrap();
    assert_eq!(exchange_tuples(&loaded), exchange_tuples(&manager));
    // both saved sessions are in the history of the loaded manager
    let ids: Vec<u128> = loaded.session_history().iter().map(|s| s.id).collect();
    assert_eq!(ids, vec![0x11, 0x22]);
    assert_eq!(loaded.session_history()[0].turns[1].user, "two q");
    assert_eq!(loaded.session_history()[0].turns[1].timestamp, 1_200);
    assert_eq!(loaded.current_session().turn_count(), 0);
    assert_eq!(loaded.current_session().persona_name, "sage");
    assert_eq!(loaded.vector_store().dimension(), 2);
    assert_eq!(loaded.vector_store().entries()[0].text, "one q");
    assert_eq!(loaded.vector_store().entries()[0].metadata.get("turn").unwrap(), "0");

    // without an archive the sessions are loaded alone
    let loaded = load_with_embeddings(&storage, None, "sage".to_string()).unwrap();
    assert_eq!(loaded.session_history().len(), 2);
    assert_eq!(loaded.vector_store().len(), 0);
    // an archive shorter than a header is an error
    assert!(load_with_embeddings(&storage, Some(&archive[..10]), "sage".to_string()).is_err());
}

#[test]
fn a_manager_survives_saving_and_reloading() {
    let manager = populated();
    assert!(identifiers_read_back(&manager));
    let (storage, archive) = save_manager(&manager, 5_000).unwrap();
    assert_eq!(storage.metadata.last_saved_at, 5_000);
    assert_eq!(storage.sessions.len(), 2);
    assert_eq!(archive, embeddings_archive(&manager).unwrap());
    assert_eq!(decode_archive(&archive, 2).unwrap().len(), 3);

    let copy = reloaded(&manager, "sage".to_string(), 6_000).unwrap();
    assert_eq!(exchange_tuples(&copy), exchange_tuples(&manager));
    assert_eq!(copy.vector_store().dimension(), 2);
    assert_eq!(copy.current_session().persona_name, "sage");
    assert_eq!(copy.current_session().turn_count(), 0);
    for (restored, held) in copy.vector_store().entries().iter().zip(manager.vector_store().entries()) {
        assert_eq!(restored.embedding, held.embedding);
    }

    // a manager without exchanges is saved and reloaded as well
    let empty = DialogueManager::with_identity(2, "p".to_string(), 100, 7, 0);
    let copy = reloaded(&empty, "p".to_string(), 1).unwrap();
    assert_eq!(copy.vector_store().len(), 0);
    assert_eq!(copy.session_history().len(), 1);
}

#[test]
fn embeddings_without_a_known_exchange_are_restored_as_unknown() {
    let records = vec![
        ArchiveRecord { session_id: 0x99, turn_idx: 0, embedding: bits(&[1.0, 2.0]) },
        ArchiveRecord { session_id: 0x11, turn_idx: 5, embedding: bits(&[3.0, 4.0]) },
        ArchiveRecord { session_id: 0x11, turn_idx: 0, embedding: bits(&[5.0, 6.0]) },
    ];
    let archive = encode_archive(&records, 2).unwrap();
    let storage = sessions_storage(&populated(), 0);
    let mut manager = DialogueManager::with_identity(2, "p".to_string(), 100, 1, 0);
    assert_eq!(restore_embeddings_at(&mut manager, &archive, &storage.sessions, 77), Ok(3));
    let entries = manager.vector_store().entries();
    assert_eq!(entries[0].text, "unknown");
    assert_eq!(entries[0].metadata.get("assistant_response").unwrap(), "unknown");
    assert_eq!(entries[1].text, "unknown");
    assert_eq!(entries[2].text, "one q");
    assert_eq!(entries[2].metadata.get("assistant_response").unwrap(), "one a");
    assert_eq!(entries[2].timestamp, 77);
    assert_eq!(entries[2].metadata.get("session_id").unwrap(), "00000000-0000-0000-0000-000000000011");
    // a store of another dimension takes nothing
    let mut other = DialogueManager::with_identity(3, "p".to_string(), 100, 1, 0);
    assert_eq!(restore_embeddings_at(&mut other, &archive, &storage.sessions, 77), Ok(0));
}

#[test]
fn sessions_are_written_out_and_read_back() {
    let mut session = Session::with_identity(0xabc, 10, "sage".to_string());
    session.add_turn_at(Turn::at(11, "q".to_string(), "a".to_string()).with_metadata("k".to_string(), "v".to_string()), 11);
    let record = serialize_session(&session);
    assert_eq!(record.id, "00000000-0000-0000-0000-000000000abc");
    assert_eq!(record.turns.len(), 1);
    let back = deserialize_session(record).unwrap();
    assert_eq!(back.id, 0xabc);
    assert_eq!(back.persona_name, "sage");
    assert_eq!((back.created_at, back.updated_at), (10, 11));
    assert_eq!(back.turns[0].user, "q");
    assert_eq!(back.turns[0].metadata.get("k").unwrap(), "v");

    let mut broken = serialize_session(&session);
    broken.id = "nonsense".to_string();
    assert_eq!(deserialize_session(broken).err(), Some(MemoryError::InvalidId));
    assert_eq!(MemoryError::InvalidId.message(), "Invalid UUID");
    let mut early = serialize_session(&session);
    early.updated_at = 3;
    assert_eq!(deserialize_session(early).unwrap().updated_at, 10);
}

#[test]
fn only_sessions_of_the_persona_are_taken_in() {
    let storage = {
        let mut records = Vec::new();
        for (id, persona, updated) in [(1u128, "other", 5i64), (2, "sage", 6), (3, "other", 7), (2, "sage", 8)] {
            let mut s = Session::with_identity(id, 0, persona.to_string());
            s.add_turn_at(Turn::at(updated, "q".to_string(), "a".to_string()), updated);
            records.push(serialize_session(&s));
        }
        let mut bad = serialize_session(&Session::with_identity(9, 0, "sage".to_string()));
        bad.id = "?".to_string();
        records.push(bad);
        storage_of(records, 4, 100)
    };
    assert_eq!(storage.metadata.total_sessions, 5);
    assert_eq!(storage.metadata.total_turns, 4);
    let manager = manager_with_sessions_at(4, "sage".to_string(), &storage.sessions, 50, 200);
    // the first session is taken in because the history is still empty
    let seen: Vec<(u128, i64)> =
        manager.session_history().iter().map(|s| (s.id, s.updated_at)).collect();
    assert_eq!(seen, vec![(1, 5), (2, 8)]);
    assert_eq!(manager.current_session().id, 50);
    // a session with the identifier of the current one is not taken in
    let manager = manager_with_sessions_at(4, "sage".to_string(), &storage.sessions, 2, 200);
    let seen: Vec<u128> = manager.session_history().iter().map(|s| s.id).collect();
    assert_eq!(seen, vec![1]);
    let fresh = create_dialogue_manager_with_sessions(4, "sage".to_string(), storage.sessions);
    assert_eq!(fresh.session_history().len(), 2);
}

#[test]
fn old_sessions_are_dropped_from_a_store() {
    let mut records = Vec::new();
    for (id, updated) in [(1u128, 10i64), (2, 20), (3, 30)] {
        let mut s = Session::with_identity(id, 0, "p".to_string());
        s.add_turn_at(Turn::at(updated, "q".to_string(), "a".to_string()), updated);
        records.push(serialize_session(&s));
    }
    let mut storage = storage_of(records, 4, 100);
    assert_eq!(drop_old_sessions(&mut storage, 5, 200), 0);
    assert_eq!(storage.metadata.last_saved_at, 100);
    assert_eq!(drop_old_sessions(&mut storage, 20, 300), 2);
    assert_eq!(storage.sessions.len(), 1);
    assert_eq!(storage.sessions[0].updated_at, 30);
    assert_eq!(storage.metadata.total_sessions, 1);
    assert_eq!(storage.metadata.total_turns, 1);
    assert_eq!(storage.metadata.last_saved_at, 300);
    let head = StorageMetadata::empty_at(9);
    assert_eq!((head.version.as_str(), head.total_sessions, head.embedding_dim), ("1.0", 0, 384));
}

#[test]
fn concepts_are_written_out_and_read_back() {
    let concept = Concept::with_identity(0x42, 10, "I like tea".to_string(), ConceptCategory::Preferences, "manual".to_string())
        .with_confidence(900_000)
        .with_metadata("k".to_string(), "v".to_string());
    let record = serialize_concept(&concept);
    assert_eq!(record.id, "00000000-0000-0000-0000-000000000042");
    assert_eq!(record.category, "preferences");
    assert_eq!(record.confidence, 900_000);
    let back = deserialize_concept(record).unwrap();
    assert_eq!(back.id, 0x42);
    assert_eq!(back.category, ConceptCategory::Preferences);
    assert_eq!(back.confidence, 900_000);
    assert_eq!(back.metadata.get("k").unwrap(), "v");
    assert!(back.embedding.is_empty());

    let odd = SerializedConcept {
        id: "00000000-0000-0000-0000-000000000043".to_string(),
        text: "t".to_string(),
        category: "Mystery".to_string(),
        confidence: 7_000_000,
        source: "s".to_string(),
        metadata: Some(vec![
            ("a".to_string(), MetadataValue::Other),
            ("b".to_string(), MetadataValue::Text("c".to_string())),
        ]),
        created_at: 1,
        updated_at: 2,
        usage_count: 3,
    };
    let read = deserialize_concept(odd).unwrap();
    assert_eq!(read.category, ConceptCategory::General);
    assert_eq!(read.confidence, 1_000_000);
    assert_eq!(read.metadata.len(), 1);
    assert_eq!(read.metadata.get("b").unwrap(), "c");
    assert!(read.metadata.get("a").is_none());
    assert_eq!(read.usage_count, 3);

    let mut storage = concepts_storage(&vec![concept], 55);
    assert_eq!((storage.version.as_str(), storage.total_concepts, storage.last_saved_at), ("1.0", 1, 55));
    let mut bad = serialize_concept(&Concept::with_identity(1, 0, "x".to_string(), ConceptCategory::Facts, "s".to_string()));
    bad.id = "zzz".to_string();
    bad.metadata = None;
    storage.concepts.insert(0, bad);
    let loaded = load_concepts(storage);
    assert_eq!(loaded.len(), 1);
    assert_eq!(loaded[0].id, 0x42);
    let manager = SemanticMemoryManager::with_concepts(loaded);
    assert_eq!(manager.count(), 1);
    assert_eq!(manager.get_concepts_by_category(&ConceptCategory::Preferences).len(), 1);
}

#[test]
fn later_concepts_replace_earlier_ones_with_the_same_identifier() {
    let make = |id: u128, text: &str| {
        Concept::with_identity(id, 0, text.to_string(), ConceptCategory::Facts, "s".to_string())
    };
    let manager = SemanticMemoryManager::with_concepts(vec![make(1, "a"), make(2, "b"), make(1, "c")]);
    let seen: Vec<(u128, String)> = manager.concepts().iter().map(|c| (c.id, c.text.clone())).collect();
    assert_eq!(seen, vec![(2, "b".to_string()), (1, "c".to_string())]);
    let facts: Vec<u128> = manager.get_concepts_by_category(&ConceptCategory::Facts).iter().map(|c| c.id).collect();
    assert_eq!(facts, vec![2, 1]);
}

#[test]
fn saving_is_due_once_per_interval() {
    let mut policy = PersistenceManager::with_config("data", PersistenceFormat::Json, 3);
    let asked: Vec<bool> = (0..7).map(|_| policy.should_auto_save()).collect();
    assert_eq!(asked, vec![false, false, true, false, false, true, false]);
    let mut usual = PersistenceManager::new("data");
    assert_eq!(usual.format(), PersistenceFormat::Hybrid);
    assert_eq!((0..10).filter(|_| usual.should_auto_save()).count(), 1);
    assert_eq!(usual.directory("episodic"), "data/episodic");
    assert_eq!(usual.base_path(), "data");
    let mut always = PersistenceManager::with_config("d", PersistenceFormat::Binary, 0);
    assert!(always.should_auto_save());
    assert!(always.should_auto_save());
    let mut each = PersistenceManager::with_config("d", PersistenceFormat::Binary, 1);
    assert!(each.should_auto_save());
    assert!(each.should_auto_save());
}

#[test]
fn persistence_formats_and_names() {
    assert_eq!(parse_persistence_format("json"), Ok(PersistenceFormat::Json));
    assert_eq!(parse_persistence_format("BINARY"), Ok(PersistenceFormat::Binary));
    assert_eq!(parse_persistence_format("Hybrid"), Ok(PersistenceFormat::Hybrid));
    assert_eq!(
        parse_persistence_format("Yaml"),
        Err("Invalid persistence format: Yaml. Use: json, binary, hybrid".to_string())
    );
    assert!(is_backup_name("memory_backup_20240101_000000.json"));
    assert!(!is_backup_name("memory_backup_.txt"));
    assert!(!is_backup_name("backup.json"));
    assert!(!is_backup_name(".json"));
    assert!(!is_backup_name("memory_backup_"));
    assert_eq!(SemanticPersistenceManager::new(None).storage_path(), "memory_data/semantic_memory.json");
    assert_eq!(SemanticPersistenceManager::new(Some("x/y")).storage_path(), "x/y/semantic_memory.json");
}

#[test]
fn a_dimension_beyond_the_archive_is_refused() {
    let manager = DialogueManager::with_identity(usize::MAX, "p".to_string(), 100, 1, 0);
    if usize::MAX as u64 > u32::MAX as u64 {
        assert_eq!(embeddings_archive(&manager).err(), Some(MemoryError::ArchiveTooLarge));
        assert_eq!(
            MemoryError::ArchiveTooLarge.message(),
            "Embeddings do not fit the archive format"
        );
    }
    let manager = DialogueManager::with_identity(4, "p".to_string(), 100, 1, 0);
    let bytes = embeddings_archive(&manager).unwrap();
    assert_eq!(bytes.len(), 32);
    assert_eq!(EmbeddingsHeader::from_bytes(&bytes).embedding_dim, 4);
}

#[test]
fn an_archive_knows_whether_it_is_complete() {
    let bytes = encode_archive(&sample_records(), 3).unwrap();
    assert!(!is_undersized(&bytes, 3));
    assert!(is_undersized(&bytes[..bytes.len() - 1], 3));
    assert!(is_undersized(&bytes, 4));
    assert!(!is_undersized(&bytes, 2));
    assert!(is_undersized(&bytes, usize::MAX));
    assert!(!is_undersized(&encode_archive(&Vec::new(), 9).unwrap(), 9));
}
