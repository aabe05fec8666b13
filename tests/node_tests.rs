use p2p_node::codec::{decode_transaction, encode_transaction, TransactionMessage, TX_LEN};
use p2p_node::ledger::Ledger;
use p2p_node::message::{classify, transaction_payload, ApplicationMessage};
use p2p_node::node::{Action, Delivery, Node, RecentCache, TxError};
use p2p_node::text::HexError;

/// An identity-multihash peer id that libp2p accepts.
fn peer_a() -> Vec<u8> {
    vec![0x00, 0x04, 0xde, 0xad, 0xbe, 0xef]
}

fn peer_b() -> Vec<u8> {
    vec![0x00, 0x03, 0x01, 0x02, 0x03]
}

fn payload(seed: u8) -> Vec<u8> {
    (0..64u8).map(|i| i.wrapping_mul(3).wrapping_add(seed)).collect()
}

fn hex_of(b: &[u8]) -> String {
    b.iter().map(|x| format!("{:02x}", x)).collect()
}

#[test]
fn peer_ids_used_here_are_valid() {
    assert!(libp2p::PeerId::from_bytes(&peer_a()).is_ok());
    assert!(libp2p::PeerId::from_bytes(&peer_b()).is_ok());
}

#[test]
fn encode_exact_bytes() {
    let msg = TransactionMessage { peer_id: vec![1, 2, 3], tx: vec![7; TX_LEN] };
    let bytes = encode_transaction(&msg);
    let mut expected = vec![3u8, 1, 2, 3, 64];
    expected.extend(vec![7u8; 64]);
    assert_eq!(bytes, expected);
}

#[test]
fn encode_matches_bincode_standard() {
    for len in [0usize, 5, 250, 251, 300, 70000] {
        let peer: Vec<u8> = (0..len).map(|i| (i % 256) as u8).collect();
        let tx = payload(9);
        let ours = encode_transaction(&TransactionMessage { peer_id: peer.clone(), tx: tx.clone() });
        let theirs = bincode::serde::encode_to_vec(
            (serde_bytes::ByteBuf::from(peer.clone()), serde_bytes::ByteBuf::from(tx.clone())),
            bincode::config::standard(),
        )
        .unwrap();
        assert_eq!(ours, theirs);
        let back = decode_transaction(&ours).unwrap();
        assert_eq!(back.peer_id, peer);
        assert_eq!(back.tx, tx);
    }
}

#[test]
fn long_length_prefix_form() {
    let peer = vec![0xaa; 300];
    let bytes = encode_transaction(&TransactionMessage { peer_id: peer, tx: payload(1) });
    assert_eq!(&bytes[..3], &[251u8, 0x2c, 0x01]);
    assert_eq!(bytes.len(), 3 + 300 + 1 + 64);
}

#[test]
fn decode_refuses_trailing_bytes() {
    let mut bytes = encode_transaction(&TransactionMessage { peer_id: peer_a(), tx: payload(2) });
    bytes.push(0);
    assert!(decode_transaction(&bytes).is_none());
}

#[test]
fn decode_refuses_long_form_of_short_length() {
    let mut bytes = vec![251u8, 6, 0];
    bytes.extend(peer_a());
    bytes.push(64);
    bytes.extend(payload(3));
    assert!(decode_transaction(&bytes).is_none());
}

#[test]
fn decode_refuses_wrong_payload_length() {
    let mut bytes = vec![6u8];
    bytes.extend(peer_a());
    bytes.push(63);
    bytes.extend(vec![0u8; 63]);
    assert!(decode_transaction(&bytes).is_none());
    assert!(decode_transaction(&[]).is_none());
}

#[test]
fn classify_round_trip() {
    let bytes = transaction_payload(&peer_a(), &payload(4));
    match classify(&bytes) {
        ApplicationMessage::Transaction(m) => {
            assert_eq!(m.peer_id, peer_a());
            assert_eq!(m.tx, payload(4));
        }
        ApplicationMessage::Text(_) => panic!("expected a transaction"),
    }
}

#[test]
fn classify_text_hello() {
    match classify(b"hello") {
        ApplicationMessage::Text(s) => assert_eq!(s, "hello"),
        ApplicationMessage::Transaction(_) => panic!("expected text"),
    }
}

#[test]
fn classify_invalid_utf8_is_lossy_text() {
    match classify(&[0x68, 0x69, 0xff]) {
        ApplicationMessage::Text(s) => assert_eq!(s, "hi\u{fffd}"),
        ApplicationMessage::Transaction(_) => panic!("expected text"),
    }
}

#[test]
fn classify_frame_with_invalid_peer_id_is_text() {
    // code 0x05 is no hash function that peer ids use
    let bytes = transaction_payload(&[0x05, 0x01, 0x00], &vec![0x41; 64]);
    match classify(&bytes) {
        ApplicationMessage::Text(s) => assert_eq!(s.as_bytes(), &bytes[..]),
        ApplicationMessage::Transaction(_) => panic!("expected text"),
    }
}

#[test]
fn ledger_appends_per_peer() {
    let mut l = Ledger::new();
    assert_eq!(l.peer_count(), 0);
    l.append(&peer_a(), &payload(1));
    l.append(&peer_b(), &payload(2));
    l.append(&peer_a(), &payload(3));
    assert_eq!(l.peer_count(), 2);
    assert_eq!(l.peer_at(0), &peer_a());
    assert_eq!(l.peer_at(1), &peer_b());
    assert_eq!(l.transactions_at(0), &vec![payload(1), payload(3)]);
    assert_eq!(l.transactions_at(1), &vec![payload(2)]);
    assert_eq!(l.transaction_count(&peer_a()), 2);
    assert_eq!(l.transaction_count(&[9, 9]), 0);
}

#[test]
fn scenario_transaction_reaches_ledger() {
    let a = Node::new(peer_a(), 16);
    let mut b = Node::new(peer_b(), 16);
    let line = format!("/tx {}", hex_of(&payload(5)));
    let sent = match a.handle_line(&line) {
        Action::Publish(bytes) => bytes,
        _ => panic!("expected a publish"),
    };
    match b.receive(b"m1", &sent) {
        Delivery::Delivered(ApplicationMessage::Transaction(m)) => {
            assert_eq!(m.peer_id, peer_a());
            assert_eq!(hex_of(&m.tx), hex_of(&payload(5)));
        }
        _ => panic!("expected a delivered transaction"),
    }
    assert_eq!(b.ledger.peer_count(), 1);
    assert_eq!(b.ledger.peer_at(0), &peer_a());
    assert_eq!(b.ledger.transactions_at(0), &vec![payload(5)]);
}

#[test]
fn scenario_text_not_in_ledger() {
    let a = Node::new(peer_a(), 16);
    let mut b = Node::new(peer_b(), 16);
    let sent = match a.handle_line("hello") {
        Action::Publish(bytes) => bytes,
        _ => panic!("expected a publish"),
    };
    assert_eq!(sent, b"hello".to_vec());
    match b.receive(b"m1", &sent) {
        Delivery::Delivered(ApplicationMessage::Text(s)) => assert_eq!(s, "hello"),
        _ => panic!("expected delivered text"),
    }
    assert_eq!(b.ledger.peer_count(), 0);
}

#[test]
fn duplicate_is_not_delivered_twice() {
    let mut b = Node::new(peer_b(), 16);
    let sent = transaction_payload(&peer_a(), &payload(6));
    assert!(matches!(b.receive(b"same", &sent), Delivery::Delivered(_)));
    assert!(matches!(b.receive(b"same", &sent), Delivery::Duplicate));
    assert_eq!(b.ledger.transaction_count(&peer_a()), 1);
}

#[test]
fn published_message_is_not_delivered_back() {
    let mut a = Node::new(peer_a(), 16);
    a.note_published(b"mine");
    assert!(matches!(a.receive(b"mine", b"hello"), Delivery::Duplicate));
}

#[test]
fn cache_forgets_oldest_when_full() {
    let mut c = RecentCache::new(2);
    c.insert(b"a");
    c.insert(b"b");
    assert!(c.contains(b"a"));
    c.insert(b"c");
    assert!(!c.contains(b"a"));
    assert!(c.contains(b"b"));
    assert!(c.contains(b"c"));
}

#[test]
fn list_command() {
    let a = Node::new(peer_a(), 4);
    assert!(matches!(a.handle_line("/list"), Action::List));
    assert!(matches!(a.handle_line("/listing"), Action::List));
}

#[test]
fn scenario_invalid_hex_rejected() {
    let a = Node::new(peer_a(), 4);
    match a.handle_line("/tx ZZZZ") {
        Action::Rejected(TxError::InvalidHex(HexError::InvalidHexCharacter { c, index })) => {
            assert_eq!(c, 'Z');
            assert_eq!(index, 0);
        }
        _ => panic!("expected a rejection"),
    }
}

#[test]
fn odd_hex_rejected() {
    let a = Node::new(peer_a(), 4);
    assert!(matches!(
        a.handle_line("/tx abc"),
        Action::Rejected(TxError::InvalidHex(HexError::OddLength))
    ));
}

#[test]
fn short_hex_rejected() {
    let a = Node::new(peer_a(), 4);
    assert!(matches!(a.handle_line("/tx abcd"), Action::Rejected(TxError::WrongLength)));
    assert!(matches!(a.handle_line("/tx "), Action::Rejected(TxError::WrongLength)));
    let long = format!("/tx {}00", hex_of(&payload(1)));
    assert!(matches!(a.handle_line(&long), Action::Rejected(TxError::WrongLength)));
}

#[test]
fn tx_argument_is_trimmed() {
    let a = Node::new(peer_a(), 4);
    let line = format!("/tx \u{3000} {}\t ", hex_of(&payload(8)).to_uppercase());
    match a.handle_line(&line) {
        Action::Publish(bytes) => assert_eq!(bytes, transaction_payload(&peer_a(), &payload(8))),
        _ => panic!("expected a publish"),
    }
}

#[test]
fn tx_without_space_is_text() {
    let a = Node::new(peer_a(), 4);
    match a.handle_line("/tx") {
        Action::Publish(bytes) => assert_eq!(bytes, b"/tx".to_vec()),
        _ => panic!("expected a publish"),
    }
}

#[test]
fn doubled_tx_prefix_rejected() {
    let a = Node::new(peer_a(), 4);
    let line = format!("/tx /tx {}", hex_of(&payload(8)));
    assert!(matches!(
        a.handle_line(&line),
        Action::Rejected(TxError::InvalidHex(HexError::InvalidHexCharacter { c: '/', index: 0 }))
    ));
}

#[test]
fn receive_adds_new_sender_once() {
    let mut b = Node::new(peer_b(), 16);
    b.receive(b"m1", &transaction_payload(&peer_a(), &payload(1)));
    b.receive(b"m2", &transaction_payload(&peer_a(), &payload(2)));
    b.receive(b"m3", b"just text");
    assert_eq!(b.ledger.peer_count(), 1);
    assert_eq!(b.ledger.transactions_at(0), &vec![payload(1), payload(2)]);
}
