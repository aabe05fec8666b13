use p2p_node::address::{modernize_address, strip_peer_id, AddrPart};

#[test]
fn legacy_segment_renamed() {
    let r = modernize_address("/ip4/127.0.0.1/tcp/4001/ipfs/QmPeer");
    assert_eq!(r, b"/ip4/127.0.0.1/tcp/4001/p2p/QmPeer".to_vec());
}

#[test]
fn only_whole_segments_renamed() {
    assert_eq!(modernize_address("/ipfsx/ipf/ipfs"), b"/ipfsx/ipf/p2p".to_vec());
    assert_eq!(modernize_address("ipfs"), b"p2p".to_vec());
    assert_eq!(modernize_address(""), Vec::<u8>::new());
    assert_eq!(modernize_address("//ipfs//"), b"//p2p//".to_vec());
}

#[test]
fn current_address_unchanged() {
    let a = "/dns4/example.org/tcp/4001/p2p/QmPeer";
    assert_eq!(modernize_address(a), a.as_bytes().to_vec());
}

#[test]
fn trailing_peer_id_removed() {
    let mut parts = vec![AddrPart::Other(vec![4, 127, 0, 0, 1]), AddrPart::PeerId(vec![0, 1, 7])];
    assert_eq!(strip_peer_id(&mut parts), Some(vec![0, 1, 7]));
    assert_eq!(parts.len(), 1);
    assert!(matches!(&parts[0], AddrPart::Other(b) if b == &vec![4, 127, 0, 0, 1]));
}

#[test]
fn address_without_peer_id_kept() {
    let mut parts = vec![AddrPart::PeerId(vec![0, 1, 7]), AddrPart::Other(vec![6, 0x0f, 0xa1])];
    assert_eq!(strip_peer_id(&mut parts), None);
    assert_eq!(parts.len(), 2);
    let mut empty: Vec<AddrPart> = Vec::new();
    assert_eq!(strip_peer_id(&mut empty), None);
    assert!(empty.is_empty());
}
