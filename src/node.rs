//! The node's decisions: what a local command line asks for, and what a
//! received gossip message does to the node's state.
use vstd::prelude::*;
use vstd::utf8::{encode_utf8, is_ascii_chars, is_ascii_chars_encode_utf8};
use crate::codec::{copy_range, frame, TX_LEN};
use crate::ledger::{bytes_equal, Ledger};
use crate::message::{classify, classify_bytes, transaction_payload, ApplicationMessage, MessageView};
use crate::text::{all_hex_digits, decode_hex, has_prefix, hex_bytes, starts_with, strip_prefix, trim, trim_end_ws, trim_start_ws, trim_ws, HexError};

verus! {

/// The identifiers of the most recent messages, oldest first, at most
/// `capacity` of them.
pub struct RecentCache {
    ids: Vec<Vec<u8>>,
    capacity: usize,
}

impl RecentCache {
    pub closed spec fn ids(&self) -> Seq<Seq<u8>> {
        self.ids@.map_values(|v: Vec<u8>| v@)
    }

    pub closed spec fn capacity(&self) -> nat {
        self.capacity as nat
    }

    pub open spec fn wf(&self) -> bool {
        0 < self.capacity() && self.ids().len() <= self.capacity()
    }

    /// `id` is among the retained identifiers.
    pub open spec fn has_seen(&self, id: Seq<u8>) -> bool {
        self.ids().contains(id)
    }

    /// The identifiers after `id` is recorded: it comes last, and when the
    /// cache is full the oldest is forgotten.
    pub open spec fn recorded(&self, id: Seq<u8>) -> Seq<Seq<u8>> {
        if self.ids().len() < self.capacity() {
            self.ids().push(id)
        } else {
            self.ids().drop_first().push(id)
        }
    }

    pub fn new(capacity: usize) -> (r: RecentCache)
        requires
            capacity > 0,
        ensures
            r.wf(),
            r.ids() == Seq::<Seq<u8>>::empty(),
            r.capacity() == capacity,
    {
        let r = RecentCache { ids: Vec::new(), capacity };
        assert(r.ids() =~= Seq::<Seq<u8>>::empty());
        r
    }

    pub fn contains(&self, id: &[u8]) -> (r: bool)
        ensures
            r == self.has_seen(id@),
    {
        let mut i: usize = 0;
        while i < self.ids.len()
            invariant
                i <= self.ids@.len(),
                forall|k: int| 0 <= k < i ==> self.ids()[k] != id@,
            decreases self.ids@.len() - i,
        {
            if bytes_equal(self.ids[i].as_slice(), id) {
                assert(self.ids()[i as int] == id@);
                return true;
            }
            i = i + 1;
        }
        false
    }

    /// Records `id` as the newest identifier; when the cache is full, the
    /// oldest one is forgotten.
    pub fn insert(&mut self, id: &[u8])
        requires
            old(self).wf(),
        ensures
            final(self).wf(),
            final(self).capacity() == old(self).capacity(),
            final(self).ids() == old(self).recorded(id@),
            final(self).has_seen(id@),
    {
        let ghost before = self.ids();
        if self.ids.len() == self.capacity {
            self.ids.remove(0);
            assert(self.ids() =~= before.drop_first());
        }
        let ghost mid = self.ids();
        self.ids.push(copy_range(id, 0, id.len()));
        assert(self.ids()[self.ids().len() - 1] =~= id@);
        assert(self.ids() =~= mid.push(id@));
    }
}

/// Why a transaction command was refused.
#[derive(Clone, Copy, Debug, PartialEq, Eq)]
pub enum TxError {
    /// The argument is not an even number of hex digits.
    InvalidHex(HexError),
    /// The argument does not decode to the transaction length.
    WrongLength,
}

/// What a local command line asks the node to do.
pub enum Action {
    /// Show the ledger.
    List,
    /// Publish these bytes on the topic.
    Publish(Vec<u8>),
    /// Refuse a transaction command, publishing nothing.
    Rejected(TxError),
}

pub enum ActionView {
    List,
    Publish(Seq<u8>),
    Rejected(TxError),
}

impl View for Action {
    type V = ActionView;

    open spec fn view(&self) -> ActionView {
        match self {
            Action::List => ActionView::List,
            Action::Publish(b) => ActionView::Publish(b@),
            Action::Rejected(e) => ActionView::Rejected(*e),
        }
    }
}

pub open spec fn list_command() -> Seq<char> {
    seq!['/', 'l', 'i', 's', 't']
}

pub open spec fn tx_command() -> Seq<char> {
    seq!['/', 't', 'x', ' ']
}

/// The bytes of a transaction command's argument: what follows the one
/// `"/tx "` prefix, without white space at either end.
pub open spec fn tx_argument(line: Seq<char>) -> Seq<u8> {
    encode_utf8(trim_ws(line.subrange(tx_command().len() as int, line.len() as int)))
}

/// `a` is what the line asks of a node whose peer id is `me`: a line that
/// starts with `/list` lists; one that starts with `/tx ` publishes the
/// transaction its hex argument spells, or is refused when that is no hex or
/// not of the transaction length; any other line is published as it is.
pub open spec fn describes(line: Seq<char>, me: Seq<u8>, a: ActionView) -> bool {
    if has_prefix(line, list_command()) {
        a == ActionView::List
    } else if has_prefix(line, tx_command()) {
        let arg = tx_argument(line);
        if arg.len() % 2 == 0 && all_hex_digits(arg) {
            if arg.len() == 2 * TX_LEN {
                a == ActionView::Publish(frame(me, hex_bytes(arg)))
            } else {
                a == ActionView::Rejected(TxError::WrongLength)
            }
        } else {
            a matches ActionView::Rejected(TxError::InvalidHex(e)) && e.reports_on(arg)
        }
    } else {
        a == ActionView::Publish(encode_utf8(line))
    }
}

/// The outcome of a received gossip message.
pub enum Delivery {
    /// Its identifier was seen recently: nothing happens.
    Duplicate,
    /// New: it is handed to the application, classified.
    Delivered(ApplicationMessage),
}

pub enum DeliveryView {
    Duplicate,
    Delivered(MessageView),
}

impl View for Delivery {
    type V = DeliveryView;

    open spec fn view(&self) -> DeliveryView {
        match self {
            Delivery::Duplicate => DeliveryView::Duplicate,
            Delivery::Delivered(m) => DeliveryView::Delivered(m@),
        }
    }
}

/// The ledger's peers after a delivery: the sender of a transaction is added
/// at the end when it was not there yet; otherwise nothing changes.
pub open spec fn peers_after(peers: Seq<Seq<u8>>, d: DeliveryView) -> Seq<Seq<u8>> {
    match d {
        DeliveryView::Delivered(MessageView::Transaction(p, _)) => if peers.contains(p) {
            peers
        } else {
            peers.push(p)
        },
        _ => peers,
    }
}

/// A node's state: its own peer id, the transactions it has received, and
/// the identifiers of the messages it has recently seen.
pub struct Node {
    pub local_peer_id: Vec<u8>,
    pub ledger: Ledger,
    pub recent: RecentCache,
}

impl Node {
    pub open spec fn wf(&self) -> bool {
        self.ledger.wf() && self.recent.wf()
    }

    /// A node with an empty ledger that remembers up to `capacity` message
    /// identifiers.
    pub fn new(local_peer_id: Vec<u8>, capacity: usize) -> (r: Node)
        requires
            capacity > 0,
        ensures
            r.wf(),
            r.local_peer_id == local_peer_id,
            r.ledger.peers() == Seq::<Seq<u8>>::empty(),
            r.recent.ids() == Seq::<Seq<u8>>::empty(),
            r.recent.capacity() == capacity,
    {
        Node { local_peer_id, ledger: Ledger::new(), recent: RecentCache::new(capacity) }
    }

    /// Decides what a local command line asks for.
    pub fn handle_line(&self, line: &str) -> (r: Action)
        ensures
            describes(line@, self.local_peer_id@, r@),
    {
        proof {
            reveal_strlit("/list");
            reveal_strlit("/tx ");
        }
        assert("/list"@ =~= list_command());
        assert("/tx "@ =~= tx_command());
        if starts_with(line, "/list") {
            return Action::List;
        }
        let rest = match strip_prefix(line, "/tx ") {
            Some(rest) => rest,
            None => {
                let bytes = line.as_bytes();
                let out = copy_range(bytes, 0, bytes.len());
                assert(out@ =~= encode_utf8(line@));
                return Action::Publish(out);
            },
        };
        let arg = trim(rest).as_bytes();
        match decode_hex(arg) {
            Ok(tx) => {
                if tx.len() != TX_LEN {
                    Action::Rejected(TxError::WrongLength)
                } else {
                    Action::Publish(transaction_payload(self.local_peer_id.as_slice(), tx.as_slice()))
                }
            },
            Err(e) => Action::Rejected(TxError::InvalidHex(e)),
        }
    }

    /// Records the identifier of a message this node published, so that it
    /// is not delivered back to it.
    pub fn note_published(&mut self, message_id: &[u8])
        requires
            old(self).wf(),
        ensures
            final(self).wf(),
            final(self).recent.has_seen(message_id@),
            final(self).recent.ids() == old(self).recent.recorded(message_id@),
            final(self).recent.capacity() == old(self).recent.capacity(),
            final(self).ledger == old(self).ledger,
            final(self).local_peer_id == old(self).local_peer_id,
    {
        self.recent.insert(message_id);
    }

    /// Handles a gossip message: a recently seen identifier is dropped;
    /// otherwise the payload is classified and delivered, and a transaction
    /// is added to its sender's ledger entry.
    pub fn receive(&mut self, message_id: &[u8], data: &[u8]) -> (r: Delivery)
        requires
            old(self).wf(),
        ensures
            final(self).wf(),
            final(self).local_peer_id == old(self).local_peer_id,
            old(self).recent.has_seen(message_id@) ==> r is Duplicate && *final(self) == *old(self),
            !old(self).recent.has_seen(message_id@) ==> r@ == DeliveryView::Delivered(classify_bytes(data@)),
            final(self).recent.has_seen(message_id@),
            !old(self).recent.has_seen(message_id@) ==> final(self).recent.ids() == old(self).recent.recorded(message_id@),
            final(self).recent.capacity() == old(self).recent.capacity(),
            final(self).ledger.peers() == peers_after(old(self).ledger.peers(), r@),
            forall|q: Seq<u8>| #![auto] final(self).ledger.history(q) == old(self).ledger.history(q) || (r@ == DeliveryView::Delivered(MessageView::Transaction(q, final(self).ledger.history(q).last())) && final(self).ledger.history(q) == old(self).ledger.history(q).push(final(self).ledger.history(q).last())),
            r@ matches DeliveryView::Delivered(MessageView::Transaction(p, t)) ==> final(self).ledger.history(p) == old(self).ledger.history(p).push(t),
    {
        if self.recent.contains(message_id) {
            return Delivery::Duplicate;
        }
        self.recent.insert(message_id);
        let m = classify(data);
        match m {
            ApplicationMessage::Transaction(tx) => {
                self.ledger.append(tx.peer_id.as_slice(), tx.tx.as_slice());
                Delivery::Delivered(ApplicationMessage::Transaction(tx))
            },
            ApplicationMessage::Text(s) => Delivery::Delivered(ApplicationMessage::Text(s)),
        }
    }
}


/// A hex digit, in either case.
pub open spec fn is_hex_char(c: char) -> bool {
    ('0' <= c && c <= '9') || ('a' <= c && c <= 'f') || ('A' <= c && c <= 'F')
}

/// A `/tx ` command whose argument is hex digits of any length but twice the
/// transaction length is refused, so nothing is published.
pub proof fn lemma_tx_wrong_length_rejected(h: Seq<char>, me: Seq<u8>, a: ActionView)
    requires
        forall|i: int| 0 <= i < h.len() ==> is_hex_char(#[trigger] h[i]),
        h.len() != 2 * TX_LEN,
        describes(tx_command() + h, me, a),
    ensures
        a is Rejected,
{
    let line = tx_command() + h;
    assert(line[1] == 't');
    assert(line.subrange(0, 4) =~= tx_command());
    assert(!has_prefix(line, list_command())) by {
        if line.len() >= 5 {
            assert(line.subrange(0, 5)[1] != list_command()[1]);
        }
    }
    assert(line.subrange(4, line.len() as int) =~= h);
    assert(trim_start_ws(h) == h);
    assert(trim_end_ws(h) == h);
    assert(is_ascii_chars(h));
    is_ascii_chars_encode_utf8(h);
    assert(tx_argument(line).len() == h.len());
}

} // verus!
