use stackerdb_client::client::{
    ClientError, SignerSlotID, SlotMetadata, StackerDB, StackerDBChunkAckData,
    VERSION_CONFLICT_CODE,
};
use stackerdb_client::message::{MessageSlotID, Packet, SignerMessage, StackerDBMessage};

fn accepted() -> StackerDBChunkAckData {
    StackerDBChunkAckData { accepted: true, reason: None, metadata: None, code: None }
}

fn conflict(metadata: Option<u32>) -> StackerDBChunkAckData {
    StackerDBChunkAckData {
        accepted: false,
        reason: Some("stale".to_string()),
        metadata: metadata.map(|v| SlotMetadata { slot_id: 3, slot_version: v }),
        code: Some(VERSION_CONFLICT_CODE),
    }
}

fn envelope(reward_cycle: u64, message: StackerDBMessage) -> Vec<u8> {
    SignerMessage { reward_cycle, message }.serialize_to_vec()
}

fn packet(stage: MessageSlotID, body: &[u8]) -> StackerDBMessage {
    StackerDBMessage::Packet(Packet { stage, body: body.to_vec() })
}

#[test]
fn get_signer_transactions_should_succeed() {
    let stackerdb = StackerDB::new(20, SignerSlotID(0));
    let tx = b"test-contract (/ 1 0)".to_vec();
    let reward_cycle = stackerdb.get_reward_cycle();
    let next = envelope(
        reward_cycle.wrapping_add(1),
        StackerDBMessage::Transactions(vec![tx.clone()]),
    );
    let current = envelope(reward_cycle, StackerDBMessage::Transactions(vec![]));
    let transactions = stackerdb.get_next_transactions(&vec![Some(next), Some(current)]);
    assert_eq!(transactions, vec![tx]);
}

#[test]
fn send_signer_message_should_succeed() {
    let mut stackerdb = StackerDB::new(20, SignerSlotID(1));
    let version = stackerdb.next_slot_version(MessageSlotID::Transactions);
    assert_eq!(version, 1);
    let ack = accepted();
    let outcome = stackerdb.handle_chunk_ack(MessageSlotID::Transactions, version, &ack);
    assert!(matches!(outcome, Ok(None)));
}

#[test]
fn accepted_writes_use_consecutive_versions_from_one() {
    let mut db = StackerDB::new(7, SignerSlotID(2));
    for expected in 1u32..=5 {
        let v = db.next_slot_version(MessageSlotID::DkgBegin);
        assert_eq!(v, expected);
        assert!(matches!(db.handle_chunk_ack(MessageSlotID::DkgBegin, v, &accepted()), Ok(None)));
    }
    // another category keeps its own count
    assert_eq!(db.next_slot_version(MessageSlotID::DkgEnd), 1);
}

#[test]
fn conflict_with_metadata_retries_with_store_version() {
    let mut db = StackerDB::new(7, SignerSlotID(3));
    for _ in 0..4 {
        let v = db.next_slot_version(MessageSlotID::Transactions);
        db.handle_chunk_ack(MessageSlotID::Transactions, v, &accepted()).ok().unwrap();
    }
    let v = db.next_slot_version(MessageSlotID::Transactions);
    assert_eq!(v, 5);
    let retry = db.handle_chunk_ack(MessageSlotID::Transactions, v, &conflict(Some(9)));
    assert!(matches!(retry, Ok(Some(9))));
    let done = db.handle_chunk_ack(MessageSlotID::Transactions, 9, &accepted());
    assert!(matches!(done, Ok(None)));
    assert_eq!(db.next_slot_version(MessageSlotID::Transactions), 10);
}

#[test]
fn conflict_without_metadata_retries_with_next_version() {
    let mut db = StackerDB::new(7, SignerSlotID(3));
    let v = db.next_slot_version(MessageSlotID::DkgEnd);
    assert_eq!(v, 1);
    let retry = db.handle_chunk_ack(MessageSlotID::DkgEnd, v, &conflict(None));
    assert!(matches!(retry, Ok(Some(2))));
    assert_eq!(db.next_slot_version(MessageSlotID::DkgEnd), 2);
}

#[test]
fn other_rejection_is_terminal() {
    let mut db = StackerDB::new(7, SignerSlotID(0));
    let v = db.next_slot_version(MessageSlotID::DkgBegin);
    let ack = StackerDBChunkAckData {
        accepted: false,
        reason: Some("bad signer".to_string()),
        metadata: Some(SlotMetadata { slot_id: 0, slot_version: 40 }),
        code: Some(2),
    };
    match db.handle_chunk_ack(MessageSlotID::DkgBegin, v, &ack) {
        Err(ClientError::PutChunkRejected(reason)) => assert_eq!(reason, "bad signer"),
        _ => panic!("expected a rejection"),
    }
    // the cache moved past the attempted version only, not to the reported one
    assert_eq!(db.next_slot_version(MessageSlotID::DkgBegin), 2);
}

#[test]
fn rejection_without_code_or_reason_is_terminal() {
    let mut db = StackerDB::new(7, SignerSlotID(0));
    let v = db.next_slot_version(MessageSlotID::DkgBegin);
    let ack = StackerDBChunkAckData { accepted: false, reason: None, metadata: None, code: None };
    match db.handle_chunk_ack(MessageSlotID::DkgBegin, v, &ack) {
        Err(ClientError::PutChunkRejected(reason)) => assert_eq!(reason, "No reason given"),
        _ => panic!("expected a rejection"),
    }
}

#[test]
fn read_keeps_only_requested_epoch() {
    let chunks = vec![
        Some(envelope(4, StackerDBMessage::EncryptedSignerState(vec![1]))),
        Some(envelope(5, StackerDBMessage::EncryptedSignerState(vec![2]))),
        Some(envelope(4, StackerDBMessage::EncryptedSignerState(vec![3]))),
        Some(envelope(6, StackerDBMessage::Transactions(vec![]))),
    ];
    let msgs = StackerDB::get_messages(&chunks, 4);
    assert_eq!(msgs.len(), 2);
    assert!(msgs.iter().all(|m| m.reward_cycle == 4));
    assert!(matches!(&msgs[0].message, StackerDBMessage::EncryptedSignerState(s) if s == &vec![1]));
    assert!(matches!(&msgs[1].message, StackerDBMessage::EncryptedSignerState(s) if s == &vec![3]));
}

#[test]
fn read_of_nothing_usable_is_empty() {
    let chunks = vec![None, Some(vec![]), Some(vec![9, 9, 9]), None];
    assert!(StackerDB::get_messages(&chunks, 1).is_empty());
    assert!(StackerDB::get_messages(&vec![], 1).is_empty());
}

#[test]
fn read_skips_absent_and_undecodable_slots() {
    let slot1 = envelope(3, StackerDBMessage::Transactions(vec![vec![0xaa]]));
    let mut slot3 = envelope(3, StackerDBMessage::Transactions(vec![vec![0xbb]]));
    slot3.truncate(slot3.len() - 1);
    let chunks = vec![Some(slot1), None, Some(slot3)];
    let msgs = StackerDB::get_messages(&chunks, 3);
    assert_eq!(msgs.len(), 1);
    assert!(matches!(&msgs[0].message, StackerDBMessage::Transactions(t) if t == &vec![vec![0xaa]]));
}

#[test]
fn dkg_packets_come_in_protocol_order() {
    let db = StackerDB::new(11, SignerSlotID(0));
    let responses = vec![
        (MessageSlotID::DkgEnd, vec![Some(envelope(11, packet(MessageSlotID::DkgEnd, b"end")))]),
        (
            MessageSlotID::DkgPrivateShares,
            vec![Some(envelope(11, packet(MessageSlotID::DkgPrivateShares, b"ps")))],
        ),
        (
            MessageSlotID::DkgBegin,
            vec![
                Some(envelope(11, packet(MessageSlotID::DkgBegin, b"b1"))),
                None,
                Some(envelope(11, StackerDBMessage::Transactions(vec![]))),
                Some(envelope(11, packet(MessageSlotID::DkgBegin, b"b2"))),
            ],
        ),
        (
            MessageSlotID::DkgPublicShares,
            vec![Some(envelope(12, packet(MessageSlotID::DkgPublicShares, b"old")))],
        ),
    ];
    let packets = db.get_dkg_packets(&responses);
    let bodies: Vec<Vec<u8>> = packets.iter().map(|p| p.body.clone()).collect();
    assert_eq!(bodies, vec![b"b1".to_vec(), b"b2".to_vec(), b"ps".to_vec(), b"end".to_vec()]);
    assert_eq!(packets[0].stage, MessageSlotID::DkgBegin);
    assert_eq!(packets[3].stage, MessageSlotID::DkgEnd);
}

#[test]
fn encrypted_state_absent_empty_or_wrong_kind_is_none() {
    let db = StackerDB::new(1, SignerSlotID(4));
    assert!(matches!(db.get_encrypted_signer_state(SignerSlotID(4), vec![None]), Ok(None)));
    assert!(matches!(db.get_encrypted_signer_state(SignerSlotID(4), vec![Some(vec![])]), Ok(None)));
    let wrong = StackerDBMessage::Transactions(vec![vec![1, 2]]).serialize_to_vec();
    assert!(matches!(db.get_encrypted_signer_state(SignerSlotID(4), vec![Some(wrong)]), Ok(None)));
}

#[test]
fn encrypted_state_present_is_returned() {
    let db = StackerDB::new(1, SignerSlotID(4));
    let state = StackerDBMessage::EncryptedSignerState(vec![7, 8, 9]).serialize_to_vec();
    match db.get_encrypted_signer_state(SignerSlotID(4), vec![Some(state)]) {
        Ok(Some(s)) => assert_eq!(s, vec![7, 8, 9]),
        _ => panic!("expected the state"),
    }
}

#[test]
fn encrypted_state_errors() {
    let db = StackerDB::new(1, SignerSlotID(4));
    assert!(matches!(
        db.get_encrypted_signer_state(SignerSlotID(4), vec![]),
        Err(ClientError::UnexpectedResponseFormat(4))
    ));
}

#[test]
fn encrypted_state_undecodable_is_none() {
    let db = StackerDB::new(1, SignerSlotID(4));
    assert!(matches!(
        db.get_encrypted_signer_state(SignerSlotID(4), vec![Some(vec![5, 5])]),
        Ok(None)
    ));
}

#[test]
fn envelope_tags_category_and_cycle() {
    let db = StackerDB::new(0x0a0b, SignerSlotID(1));
    let (id, bytes) = db.envelope(StackerDBMessage::EncryptedSignerState(vec![0xee]));
    assert_eq!(id, MessageSlotID::EncryptedSignerState);
    assert_eq!(bytes, vec![0, 0, 0, 0, 0, 0, 0x0a, 0x0b, 2, 0, 0, 0, 1, 0xee]);
    let (id, _) = db.envelope(packet(MessageSlotID::DkgPublicShares, b"x"));
    assert_eq!(id, MessageSlotID::DkgPublicShares);
}

#[test]
fn conflict_budget_ends_writes_at_the_bound() {
    assert!(StackerDB::check_conflict_budget(0, Some(2)).is_ok());
    assert!(StackerDB::check_conflict_budget(1, Some(2)).is_ok());
    assert!(matches!(
        StackerDB::check_conflict_budget(2, Some(2)),
        Err(ClientError::TooManyConflicts(2))
    ));
    assert!(matches!(
        StackerDB::check_conflict_budget(0, Some(0)),
        Err(ClientError::TooManyConflicts(0))
    ));
    assert!(StackerDB::check_conflict_budget(u32::MAX, None).is_ok());
}

#[test]
fn signer_set_and_cycles() {
    let db = StackerDB::new(21, SignerSlotID(6));
    assert_eq!(db.get_signer_set(), 1);
    assert_eq!(db.get_signer_slot_id(), SignerSlotID(6));
    assert_eq!(db.next_reward_cycle(), 22);
    assert_eq!(StackerDB::new(20, SignerSlotID(0)).get_signer_set(), 0);
    assert_eq!(StackerDB::new(u64::MAX, SignerSlotID(0)).next_reward_cycle(), 0);
}

#[test]
fn current_transactions_flatten_in_slot_order() {
    let db = StackerDB::new(8, SignerSlotID(0));
    let chunks = vec![
        Some(envelope(8, StackerDBMessage::Transactions(vec![vec![1], vec![2]]))),
        Some(envelope(8, StackerDBMessage::EncryptedSignerState(vec![0]))),
        Some(envelope(8, StackerDBMessage::Transactions(vec![vec![3]]))),
    ];
    assert_eq!(db.get_current_transactions(&chunks), vec![vec![1], vec![2], vec![3]]);
}
