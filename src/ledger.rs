//! The transactions received from each peer, in order of arrival.
use vstd::prelude::*;
use crate::codec::{copy_range, TX_LEN};

verus! {

/// One peer's transactions.
pub struct PeerEntry {
    pub peer_id: Vec<u8>,
    pub txs: Vec<Vec<u8>>,
}

/// For each peer that has sent a transaction, the payloads in the order they
/// came. Peers are kept in the order of their first transaction.
pub struct Ledger {
    entries: Vec<PeerEntry>,
}

impl Ledger {
    /// The peers, in the order of their first transaction.
    pub closed spec fn peers(&self) -> Seq<Seq<u8>> {
        self.entries@.map_values(|e: PeerEntry| e.peer_id@)
    }

    /// Each peer's payloads, by the peer's position in `peers`.
    pub closed spec fn histories(&self) -> Seq<Seq<Seq<u8>>> {
        self.entries@.map_values(|e: PeerEntry| e.txs@.map_values(|t: Vec<u8>| t@))
    }

    /// The payloads received from `peer`, empty for a peer never heard from.
    pub open spec fn history(&self, peer: Seq<u8>) -> Seq<Seq<u8>> {
        if self.peers().contains(peer) {
            self.histories()[self.peers().index_of(peer)]
        } else {
            Seq::empty()
        }
    }

    /// No peer twice, and every payload of the transaction length.
    pub open spec fn wf(&self) -> bool {
        &&& self.peers().no_duplicates()
        &&& self.peers().len() == self.histories().len()
        &&& forall|i: int, j: int|
            0 <= i < self.histories().len() && 0 <= j < self.histories()[i].len() ==> (
            #[trigger] self.histories()[i][j]).len() == TX_LEN
    }

    pub fn new() -> (r: Ledger)
        ensures
            r.wf(),
            r.peers() == Seq::<Seq<u8>>::empty(),
    {
        let r = Ledger { entries: Vec::new() };
        assert(r.peers() =~= Seq::<Seq<u8>>::empty());
        assert(r.histories() =~= Seq::<Seq<Seq<u8>>>::empty());
        r
    }

    /// Number of peers that have sent a transaction.
    pub fn peer_count(&self) -> (r: usize)
        ensures
            r == self.peers().len(),
    {
        self.entries.len()
    }

    /// The peer at position `i`.
    pub fn peer_at(&self, i: usize) -> (r: &Vec<u8>)
        requires
            i < self.peers().len(),
        ensures
            r@ == self.peers()[i as int],
    {
        &self.entries[i].peer_id
    }

    /// The payloads of the peer at position `i`, oldest first.
    pub fn transactions_at(&self, i: usize) -> (r: &Vec<Vec<u8>>)
        requires
            self.wf(),
            i < self.peers().len(),
        ensures
            r@.map_values(|t: Vec<u8>| t@) == self.histories()[i as int],
            r@.map_values(|t: Vec<u8>| t@) == self.history(self.peers()[i as int]),
    {
        proof {
            lemma_index_of_unique(self.peers(), i as int);
        }
        &self.entries[i].txs
    }

    /// Position of `peer` in `peers`, if it is there.
    fn find(&self, peer: &[u8]) -> (r: Option<usize>)
        ensures
            match r {
                Some(i) => i < self.peers().len() && self.peers()[i as int] == peer@,
                None => !self.peers().contains(peer@),
            },
    {
        let mut i: usize = 0;
        while i < self.entries.len()
            invariant
                i <= self.entries@.len(),
                forall|k: int| 0 <= k < i ==> self.peers()[k] != peer@,
            decreases self.entries@.len() - i,
        {
            if bytes_equal(self.entries[i].peer_id.as_slice(), peer) {
                return Some(i);
            }
            i = i + 1;
        }
        None
    }

    /// Number of payloads received from `peer`.
    pub fn transaction_count(&self, peer: &[u8]) -> (r: usize)
        requires
            self.wf(),
        ensures
            r == self.history(peer@).len(),
    {
        match self.find(peer) {
            Some(i) => {
                proof {
                    lemma_index_of_unique(self.peers(), i as int);
                }
                self.entries[i].txs.len()
            },
            None => 0,
        }
    }

    /// Adds `tx` at the end of `peer`'s payloads; a peer not seen before is
    /// added after the others. No other peer's payloads change.
    pub fn append(&mut self, peer: &[u8], tx: &[u8])
        requires
            old(self).wf(),
            tx@.len() == TX_LEN,
        ensures
            final(self).wf(),
            final(self).history(peer@) == old(self).history(peer@).push(tx@),
            forall|q: Seq<u8>| q != peer@ ==> final(self).history(q) == old(self).history(q),
            old(self).peers().contains(peer@) ==> final(self).peers() == old(self).peers(),
            !old(self).peers().contains(peer@) ==> final(self).peers() == old(self).peers().push(peer@),
    {
        let copy = copy_range(tx, 0, tx.len());
        assert(copy@ =~= tx@);
        match self.find(peer) {
            Some(i) => {
                let ghost before = *self;
                let mut entry = PeerEntry { peer_id: Vec::new(), txs: Vec::new() };
                std::mem::swap(&mut entry, &mut self.entries[i]);
                entry.txs.push(copy);
                std::mem::swap(&mut entry, &mut self.entries[i]);
                proof {
                    assert(self.entries@ == before.entries@.update(i as int, self.entries@[i as int]));
                    assert(self.peers() =~= before.peers());
                    lemma_index_of_unique(before.peers(), i as int);
                    assert(self.histories()[i as int] =~= before.histories()[i as int].push(tx@));
                    assert forall|q: Seq<u8>| q != peer@ implies self.history(q) == before.history(q) by {
                        if self.peers().contains(q) {
                            let k = self.peers().index_of(q);
                            assert(k != i);
                            assert(self.histories()[k] =~= before.histories()[k]);
                        }
                    }
                    assert forall|a: int, b: int|
                        0 <= a < self.histories().len() && 0 <= b < self.histories()[a].len() implies (
                        #[trigger] self.histories()[a][b]).len() == TX_LEN by {
                        if a != i {
                            assert(self.histories()[a] == before.histories()[a]);
                        } else if b < before.histories()[a].len() {
                            assert(self.histories()[a][b] == before.histories()[a][b]);
                        }
                    }
                }
            },
            None => {
                let ghost before = *self;
                let mut txs: Vec<Vec<u8>> = Vec::new();
                txs.push(copy);
                let entry = PeerEntry { peer_id: copy_range(peer, 0, peer.len()), txs };
                self.entries.push(entry);
                proof {
                    let n = before.peers().len() as int;
                    assert(self.entries@[n].peer_id@ =~= peer@);
                    assert(self.entries@[n].txs@.map_values(|t: Vec<u8>| t@) =~= seq![tx@]);
                    assert(self.peers() =~= before.peers().push(peer@));
                    assert(self.histories() =~= before.histories().push(seq![tx@]));
                    assert(self.peers()[n] == peer@);
                    lemma_index_of_unique(self.peers(), n);
                    assert(seq![tx@] =~= Seq::<Seq<u8>>::empty().push(tx@));
                    assert forall|q: Seq<u8>| q != peer@ implies self.history(q) == before.history(q) by {
                        if before.peers().contains(q) {
                            let k = before.peers().index_of(q);
                            assert(self.peers()[k] == q);
                            lemma_index_of_unique(before.peers(), k);
                            lemma_index_of_unique(self.peers(), k);
                        } else {
                            assert(!self.peers().contains(q)) by {
                                if self.peers().contains(q) {
                                    let k = self.peers().index_of(q);
                                    assert(k != n);
                                    assert(before.peers()[k] == q);
                                }
                            }
                        }
                    }
                }
            },
        }
    }
}

proof fn lemma_index_of_unique(s: Seq<Seq<u8>>, i: int)
    requires
        s.no_duplicates(),
        0 <= i < s.len(),
    ensures
        s.contains(s[i]),
        s.index_of(s[i]) == i,
{
    assert(s.contains(s[i]));
}

/// Whether two byte strings are equal.
pub(crate) fn bytes_equal(a: &[u8], b: &[u8]) -> (r: bool)
    ensures
        r == (a@ == b@),
{
    if a.len() != b.len() {
        return false;
    }
    let mut i: usize = 0;
    while i < a.len()
        invariant
            i <= a@.len(),
            a@.len() == b@.len(),
            a@.subrange(0, i as int) == b@.subrange(0, i as int),
        decreases a@.len() - i,
    {
        if a[i] != b[i] {
            return false;
        }
        i = i + 1;
        assert(a@.subrange(0, i as int) =~= a@.subrange(0, i - 1 as int).push(a@[i - 1]));
        assert(b@.subrange(0, i as int) =~= b@.subrange(0, i - 1 as int).push(b@[i - 1]));
    }
    assert(a@ =~= a@.subrange(0, i as int));
    assert(b@ =~= b@.subrange(0, i as int));
    true
}

} // verus!
