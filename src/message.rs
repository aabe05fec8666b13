//! Classification of received gossip payloads into application messages.
use vstd::prelude::*;
use vstd::utf8::{decode_utf8, valid_utf8};
use crate::codec::{copy_range, decode_transaction, encode_transaction, frame, lemma_parse_frame, parse_frame, TransactionMessage, TX_LEN};
use crate::text::{lossy_text, text_of};

verus! {

/// Whether `PeerId::from_bytes` accepts `b`.
pub uninterp spec fn is_peer_id(b: Seq<u8>) -> bool;

/// Relies on `libp2p::PeerId::from_bytes`: whether the bytes are a peer id
/// that libp2p accepts, which depends on the bytes alone.
#[verifier::external_body]
pub(crate) fn is_valid_peer_id(b: &[u8]) -> (r: bool)
    ensures
        r == is_peer_id(b@),
{
    libp2p::PeerId::from_bytes(b).is_ok()
}

/// What a received payload is taken to be.
pub enum ApplicationMessage {
    /// Anything that is not a transaction, read as text.
    Text(String),
    /// A well-formed transaction frame whose sender is a valid peer id.
    Transaction(TransactionMessage),
}

/// The mathematical value of an application message.
pub enum MessageView {
    Text(Seq<char>),
    Transaction(Seq<u8>, Seq<u8>),
}

impl View for ApplicationMessage {
    type V = MessageView;

    open spec fn view(&self) -> MessageView {
        match self {
            ApplicationMessage::Text(s) => MessageView::Text(s@),
            ApplicationMessage::Transaction(m) => MessageView::Transaction(m.peer_id@, m.tx@),
        }
    }
}

/// `b` is the frame of a transaction whose sender is a valid peer id.
pub open spec fn is_transaction_payload(b: Seq<u8>) -> bool {
    match parse_frame(b) {
        Some((p, t)) => is_peer_id(p),
        None => false,
    }
}

/// How a payload is classified: a transaction when it is exactly the frame of
/// one from a valid sender, otherwise text.
pub open spec fn classify_bytes(b: Seq<u8>) -> MessageView {
    match parse_frame(b) {
        Some((p, t)) => if is_peer_id(p) {
            MessageView::Transaction(p, t)
        } else {
            MessageView::Text(lossy_text(b))
        },
        None => MessageView::Text(lossy_text(b)),
    }
}

/// Classifies a received payload. Text that is valid UTF-8 and no transaction
/// frame comes back as the very string that was sent.
pub fn classify(data: &[u8]) -> (r: ApplicationMessage)
    ensures
        r@ == classify_bytes(data@),
        r matches ApplicationMessage::Transaction(m) ==> m.wf(),
        valid_utf8(data@) && !is_transaction_payload(data@) ==> r@ == MessageView::Text(decode_utf8(data@)),
{
    match decode_transaction(data) {
        Some(m) => {
            if is_valid_peer_id(m.peer_id.as_slice()) {
                return ApplicationMessage::Transaction(m);
            }
        },
        None => {},
    }
    ApplicationMessage::Text(text_of(data))
}

/// The payload that publishes a transaction from `peer_id`.
pub fn transaction_payload(peer_id: &[u8], tx: &[u8]) -> (r: Vec<u8>)
    requires
        tx@.len() == TX_LEN,
    ensures
        r@ == frame(peer_id@, tx@),
        parse_frame(r@) == Some((peer_id@, tx@)),
{
    let msg = TransactionMessage {
        peer_id: copy_range(peer_id, 0, peer_id.len()),
        tx: copy_range(tx, 0, tx.len()),
    };
    assert(msg.peer_id@ =~= peer_id@);
    assert(msg.tx@ =~= tx@);
    proof {
        lemma_parse_frame(peer_id@, tx@);
    }
    encode_transaction(&msg)
}

/// A transaction from a valid peer id, once encoded, is classified as that
/// same transaction.
pub proof fn lemma_classify_encoded(peer: Seq<u8>, tx: Seq<u8>)
    requires
        peer.len() < 0x1_0000_0000_0000_0000,
        tx.len() == TX_LEN,
        is_peer_id(peer),
    ensures
        classify_bytes(frame(peer, tx)) == MessageView::Transaction(peer, tx),
{
    lemma_parse_frame(peer, tx);
}

} // verus!
