use stackerdb_client::contract_key::{make_contract_hash_key, QualifiedContractIdentifier};
use stackerdb_client::message::{MessageSlotID, Packet, SignerMessage, StackerDBMessage};

fn round_trip(reward_cycle: u64, message: StackerDBMessage) -> SignerMessage {
    let bytes = SignerMessage { reward_cycle, message }.serialize_to_vec();
    SignerMessage::from_bytes(&bytes).expect("decodes")
}

#[test]
fn packet_encoding_bytes() {
    let m = SignerMessage {
        reward_cycle: 0x0102030405060708,
        message: StackerDBMessage::Packet(Packet {
            stage: MessageSlotID::DkgPrivateShares,
            body: vec![0xde, 0xad],
        }),
    };
    assert_eq!(
        m.serialize_to_vec(),
        vec![1, 2, 3, 4, 5, 6, 7, 8, 0, 3, 0, 0, 0, 2, 0xde, 0xad]
    );
}

#[test]
fn transactions_encoding_bytes() {
    let m = StackerDBMessage::Transactions(vec![vec![0xaa], vec![]]);
    assert_eq!(m.serialize_to_vec(), vec![1, 0, 0, 0, 2, 0, 0, 0, 1, 0xaa, 0, 0, 0, 0]);
}

#[test]
fn round_trip_keeps_epoch_and_payload() {
    let m = round_trip(42, StackerDBMessage::Transactions(vec![vec![1, 2, 3], vec![], vec![4]]));
    assert_eq!(m.reward_cycle, 42);
    assert!(matches!(m.message, StackerDBMessage::Transactions(ref t) if t == &vec![vec![1, 2, 3], vec![], vec![4]]));

    let m = round_trip(u64::MAX, StackerDBMessage::EncryptedSignerState(vec![9; 300]));
    assert_eq!(m.reward_cycle, u64::MAX);
    assert!(matches!(m.message, StackerDBMessage::EncryptedSignerState(ref s) if s == &vec![9; 300]));

    let m = round_trip(
        0,
        StackerDBMessage::Packet(Packet { stage: MessageSlotID::DkgEndBegin, body: vec![5] }),
    );
    assert_eq!(m.reward_cycle, 0);
    match m.message {
        StackerDBMessage::Packet(p) => {
            assert_eq!(p.stage, MessageSlotID::DkgEndBegin);
            assert_eq!(p.body, vec![5]);
        }
        _ => panic!("wrong variant"),
    }
}

#[test]
fn decoding_rejects_malformed_bytes() {
    assert!(SignerMessage::from_bytes(&vec![]).is_none());
    assert!(SignerMessage::from_bytes(&vec![0; 7]).is_none());
    let mut good = SignerMessage {
        reward_cycle: 1,
        message: StackerDBMessage::EncryptedSignerState(vec![1, 2]),
    }
    .serialize_to_vec();
    good.push(0);
    assert!(SignerMessage::from_bytes(&good).is_none());
    // unknown tag
    assert!(StackerDBMessage::from_bytes(&vec![3, 0, 0, 0, 0]).is_none());
    // packet naming a category outside key generation
    assert!(StackerDBMessage::from_bytes(&vec![0, 6, 0, 0, 0, 0]).is_none());
}

#[test]
fn message_categories() {
    let p = StackerDBMessage::Packet(Packet { stage: MessageSlotID::DkgBegin, body: vec![] });
    assert_eq!(p.msg_id(), MessageSlotID::DkgBegin);
    assert_eq!(StackerDBMessage::Transactions(vec![]).msg_id(), MessageSlotID::Transactions);
    assert_eq!(
        StackerDBMessage::EncryptedSignerState(vec![]).msg_id(),
        MessageSlotID::EncryptedSignerState
    );
    assert_eq!(MessageSlotID::EncryptedSignerState.index(), 7);
}

#[test]
fn contract_hash_key() {
    let c = QualifiedContractIdentifier {
        issuer: "ST1PQHQKV0RJXZFY1DGX8MNSNYVE3VGZJSRTPGZGM".to_string(),
        name: "signers-0-1".to_string(),
    };
    assert_eq!(
        make_contract_hash_key(&c),
        "clarity-contract::ST1PQHQKV0RJXZFY1DGX8MNSNYVE3VGZJSRTPGZGM.signers-0-1"
    );
}
