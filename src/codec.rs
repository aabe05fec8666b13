//! Binary framing of transaction messages.
//!
//! A transaction message is the sender's peer id followed by a 64-byte
//! payload. Each of the two byte strings is written with a length prefix in
//! the compact varint form: a length below 251 is one byte; otherwise a
//! marker byte (251, 252 or 253) is followed by the length in 2, 4 or 8
//! little-endian bytes. Only the shortest form of a length is accepted on
//! decoding, and the frame must end right after the payload, so that decoding
//! succeeds exactly on the byte strings that encoding produces.
use vstd::prelude::*;

verus! {

/// Number of bytes in a transaction payload.
pub const TX_LEN: usize = 64;

pub const MARK_U16: u8 = 251;

pub const MARK_U32: u8 = 252;

pub const MARK_U64: u8 = 253;

/// A transaction as sent over the network: who sent it, and its payload.
pub struct TransactionMessage {
    pub peer_id: Vec<u8>,
    pub tx: Vec<u8>,
}

impl TransactionMessage {
    /// The payload has the fixed transaction length.
    pub open spec fn wf(&self) -> bool {
        self.tx@.len() == TX_LEN
    }
}

pub open spec fn pow256(n: nat) -> nat
    decreases n,
{
    if n == 0 {
        1
    } else {
        256 * pow256((n - 1) as nat)
    }
}

/// The number that little-endian bytes stand for.
pub open spec fn le_value(s: Seq<u8>) -> nat
    decreases s.len(),
{
    if s.len() == 0 {
        0
    } else {
        s[0] as nat + 256 * le_value(s.drop_first())
    }
}

/// The `n` lowest bytes of `v`, least significant first.
pub open spec fn le_bytes(v: nat, n: nat) -> Seq<u8>
    decreases n,
{
    if n == 0 {
        seq![]
    } else {
        seq![(v % 256) as u8] + le_bytes(v / 256, (n - 1) as nat)
    }
}

/// The shortest length prefix for `v`.
pub open spec fn varint(v: nat) -> Seq<u8> {
    if v < 251 {
        seq![v as u8]
    } else if v < 0x1_0000 {
        seq![MARK_U16] + le_bytes(v, 2)
    } else if v < 0x1_0000_0000 {
        seq![MARK_U32] + le_bytes(v, 4)
    } else {
        seq![MARK_U64] + le_bytes(v, 8)
    }
}

/// Reads a length prefix in its shortest form: the value and the number of
/// bytes it takes.
pub open spec fn read_varint(b: Seq<u8>) -> Option<(nat, nat)> {
    if b.len() == 0 {
        None
    } else if b[0] < 251 {
        Some((b[0] as nat, 1))
    } else if b[0] == MARK_U16 {
        if b.len() >= 3 && le_value(b.subrange(1, 3)) >= 251 {
            Some((le_value(b.subrange(1, 3)), 3))
        } else {
            None
        }
    } else if b[0] == MARK_U32 {
        if b.len() >= 5 && le_value(b.subrange(1, 5)) >= 0x1_0000 {
            Some((le_value(b.subrange(1, 5)), 5))
        } else {
            None
        }
    } else if b[0] == MARK_U64 {
        if b.len() >= 9 && le_value(b.subrange(1, 9)) >= 0x1_0000_0000 {
            Some((le_value(b.subrange(1, 9)), 9))
        } else {
            None
        }
    } else {
        None
    }
}

/// The bytes of a transaction message from `peer` with payload `tx`.
pub open spec fn frame(peer: Seq<u8>, tx: Seq<u8>) -> Seq<u8> {
    varint(peer.len()) + peer + varint(tx.len()) + tx
}

/// The peer id and payload that `b` holds, if it is a complete frame with a
/// payload of the transaction length.
pub open spec fn parse_frame(b: Seq<u8>) -> Option<(Seq<u8>, Seq<u8>)> {
    match read_varint(b) {
        Some((n, k)) => {
            let rest = b.subrange(k as int, b.len() as int);
            if rest.len() == n + 1 + TX_LEN && rest[n as int] == TX_LEN as u8 {
                Some((rest.subrange(0, n as int), rest.subrange(n + 1 as int, rest.len() as int)))
            } else {
                None
            }
        },
        None => None,
    }
}

proof fn lemma_pow256_widths()
    ensures
        pow256(2) == 0x1_0000,
        pow256(4) == 0x1_0000_0000,
        pow256(8) == 0x1_0000_0000_0000_0000,
{
    reveal_with_fuel(pow256, 9);
}

proof fn lemma_le_bytes_len(v: nat, n: nat)
    ensures
        le_bytes(v, n).len() == n,
    decreases n,
{
    if n > 0 {
        lemma_le_bytes_len(v / 256, (n - 1) as nat);
    }
}

proof fn lemma_le_round_trip(v: nat, n: nat)
    requires
        v < pow256(n),
    ensures
        le_value(le_bytes(v, n)) == v,
    decreases n,
{
    if n > 0 {
        let m = (n - 1) as nat;
        assert(v / 256 < pow256(m));
        lemma_le_round_trip(v / 256, m);
        assert(le_bytes(v, n).drop_first() =~= le_bytes(v / 256, m));
    }
}

proof fn lemma_le_value_bound(s: Seq<u8>)
    ensures
        le_value(s) < pow256(s.len()),
    decreases s.len(),
{
    if s.len() > 0 {
        lemma_le_value_bound(s.drop_first());
        let r = le_value(s.drop_first());
        let p = pow256((s.len() - 1) as nat);
        assert(s[0] as nat + 256 * r < 256 * p) by (nonlinear_arith)
            requires
                r < p,
                s[0] < 256,
        ;
    }
}

proof fn lemma_read_varint(v: nat, rest: Seq<u8>)
    requires
        v < 0x1_0000_0000_0000_0000,
    ensures
        read_varint(varint(v) + rest) == Some((v, varint(v).len())),
{
    let b = varint(v) + rest;
    lemma_pow256_widths();
    if v >= 251 {
        let n: nat = if v < 0x1_0000 {
            2
        } else if v < 0x1_0000_0000 {
            4
        } else {
            8
        };
        lemma_le_bytes_len(v, n);
        lemma_le_round_trip(v, n);
        assert(b.subrange(1, 1 + n as int) =~= le_bytes(v, n));
    }
}

/// Decoding what was encoded gives back the peer id and the payload.
pub proof fn lemma_parse_frame(peer: Seq<u8>, tx: Seq<u8>)
    requires
        peer.len() < 0x1_0000_0000_0000_0000,
        tx.len() == TX_LEN,
    ensures
        parse_frame(frame(peer, tx)) == Some((peer, tx)),
{
    let b = frame(peer, tx);
    let head = varint(peer.len());
    lemma_read_varint(peer.len(), peer + varint(tx.len()) + tx);
    assert(b =~= head + (peer + varint(tx.len()) + tx));
    let rest = b.subrange(head.len() as int, b.len() as int);
    assert(rest =~= peer + varint(tx.len()) + tx);
    assert(rest.subrange(0, peer.len() as int) =~= peer);
    assert(rest.subrange(peer.len() + 1 as int, rest.len() as int) =~= tx);
}

/// Whatever decodes is the encoding of what it decodes to.
pub proof fn lemma_frame_of_parse(b: Seq<u8>)
    requires
        parse_frame(b) is Some,
    ensures
        match parse_frame(b) {
            Some((p, t)) => b == frame(p, t) && t.len() == TX_LEN,
            None => false,
        },
{
    let (n, k) = read_varint(b)->0;
    lemma_pow256_widths();
    if b[0] >= 251 {
        let w = (k - 1) as nat;
        let s = b.subrange(1, k as int);
        lemma_le_value_bound(s);
        lemma_le_bytes_len(n, w);
        lemma_le_round_trip_bytes(s);
        assert(b.subrange(0, k as int) =~= varint(n));
    } else {
        assert(b.subrange(0, k as int) =~= varint(n));
    }
    let rest = b.subrange(k as int, b.len() as int);
    let (p, t) = parse_frame(b)->0;
    assert(rest =~= p + seq![TX_LEN as u8] + t);
    assert(b =~= b.subrange(0, k as int) + rest);
    assert(varint(t.len()) =~= seq![TX_LEN as u8]);
    assert(b =~= frame(p, t));
}

proof fn lemma_le_round_trip_bytes(s: Seq<u8>)
    ensures
        le_bytes(le_value(s), s.len()) == s,
    decreases s.len(),
{
    if s.len() > 0 {
        let t = s.drop_first();
        lemma_le_round_trip_bytes(t);
        let v = le_value(s);
        assert(v % 256 == s[0] as nat && v / 256 == le_value(t)) by (nonlinear_arith)
            requires
                v == s[0] as nat + 256 * le_value(t),
                s[0] < 256,
        ;
        assert(le_bytes(v, s.len()) =~= s);
    }
}


proof fn lemma_pow256_mono(a: nat, b: nat)
    requires
        a <= b,
    ensures
        pow256(a) <= pow256(b),
    decreases b,
{
    if a < b {
        lemma_pow256_mono(a, (b - 1) as nat);
    }
}

/// Relies on `bincode::encode_to_vec` with the standard configuration, on a
/// pair of byte slices: each slice is written as its length in the shortest
/// varint form, then its bytes. Writing into a `Vec` with no size limit does
/// not fail.
#[verifier::external_body]
fn encode_pair(first: &[u8], second: &[u8]) -> (r: Vec<u8>)
    ensures
        r@ == varint(first@.len()) + first@ + varint(second@.len()) + second@,
{
    bincode::encode_to_vec((first, second), bincode::config::standard()).unwrap()
}

/// The bytes of a transaction message: each field behind its length prefix.
pub fn encode_transaction(msg: &TransactionMessage) -> (r: Vec<u8>)
    requires
        msg.wf(),
    ensures
        r@ == frame(msg.peer_id@, msg.tx@),
{
    encode_pair(msg.peer_id.as_slice(), msg.tx.as_slice())
}

/// The number that `b[start..start + n]` stands for, little-endian.
fn read_le(b: &[u8], start: usize, n: usize) -> (r: u64)
    requires
        start + n <= b@.len(),
        n <= 8,
    ensures
        r as nat == le_value(b@.subrange(start as int, start + n)),
{
    let len = b.len();
    let end = start + n;
    let mut j: usize = end;
    let mut acc: u64 = 0;
    assert(b@.subrange(end as int, end as int) =~= Seq::<u8>::empty());
    while j > start
        invariant
            start <= j <= end,
            end == start + n,
            n <= 8,
            end <= b@.len(),
            acc as nat == le_value(b@.subrange(j as int, end as int)),
        decreases j - start,
    {
        let ghost tail = b@.subrange(j as int, end as int);
        proof {
            lemma_le_value_bound(tail);
            lemma_pow256_mono(tail.len(), 7);
            lemma_pow256_widths();
            reveal_with_fuel(pow256, 9);
            assert(pow256(7) == 0x1_0000_0000_0000_00);
        }
        acc = acc * 256 + b[j - 1] as u64;
        j = j - 1;
        assert(b@.subrange(j as int, end as int).drop_first() =~= tail);
    }
    acc
}

/// Reads a length prefix in its shortest form: the value and the number of
/// bytes it takes.
fn read_len(b: &[u8]) -> (r: Option<(u64, usize)>)
    ensures
        match r {
            Some((v, k)) => read_varint(b@) == Some((v as nat, k as nat)),
            None => read_varint(b@) is None,
        },
{
    if b.len() == 0 {
        return None;
    }
    let first = b[0];
    proof {
        lemma_pow256_widths();
    }
    if first < 251 {
        Some((first as u64, 1))
    } else if first == MARK_U16 {
        if b.len() < 3 {
            return None;
        }
        let v = read_le(b, 1, 2);
        if v >= 251 {
            Some((v, 3))
        } else {
            None
        }
    } else if first == MARK_U32 {
        if b.len() < 5 {
            return None;
        }
        let v = read_le(b, 1, 4);
        if v >= 0x1_0000 {
            Some((v, 5))
        } else {
            None
        }
    } else if first == MARK_U64 {
        if b.len() < 9 {
            return None;
        }
        let v = read_le(b, 1, 8);
        if v >= 0x1_0000_0000 {
            Some((v, 9))
        } else {
            None
        }
    } else {
        None
    }
}

/// Copies `b[start..end]`.
pub(crate) fn copy_range(b: &[u8], start: usize, end: usize) -> (r: Vec<u8>)
    requires
        start <= end <= b@.len(),
    ensures
        r@ == b@.subrange(start as int, end as int),
{
    let mut out: Vec<u8> = Vec::new();
    let mut i: usize = start;
    while i < end
        invariant
            start <= i <= end,
            end <= b@.len(),
            out@ == b@.subrange(start as int, i as int),
        decreases end - i,
    {
        out.push(b[i]);
        i = i + 1;
        assert(out@ =~= b@.subrange(start as int, i as int));
    }
    out
}

/// Decodes a complete frame: `Some` exactly when `b` is the encoding of a
/// transaction message, and then that message.
pub fn decode_transaction(b: &[u8]) -> (r: Option<TransactionMessage>)
    ensures
        match parse_frame(b@) {
            Some((p, t)) => r matches Some(m) && m.peer_id@ == p && m.tx@ == t,
            None => r is None,
        },
        r matches Some(m) ==> m.wf() && b@ == frame(m.peer_id@, m.tx@),
{
    let (n, k) = match read_len(b) {
        Some(x) => x,
        None => return None,
    };
    let rest_len = b.len() - k;
    let ghost rest = b@.subrange(k as int, b@.len() as int);
    if (rest_len as u64) < n || rest_len - (n as usize) != 1 + TX_LEN {
        return None;
    }
    let n = n as usize;
    if b[k + n] != TX_LEN as u8 {
        return None;
    }
    assert(read_varint(b@) == Some((n as nat, k as nat)));
    assert(rest.len() == n + 1 + TX_LEN);
    assert(rest[n as int] == b@[k + n]);
    assert(parse_frame(b@) is Some);
    let peer_id = copy_range(b, k, k + n);
    let tx = copy_range(b, k + n + 1, b.len());
    assert(peer_id@ =~= rest.subrange(0, n as int));
    assert(tx@ =~= rest.subrange(n + 1 as int, rest.len() as int));
    proof {
        lemma_frame_of_parse(b@);
    }
    Some(TransactionMessage { peer_id, tx })
}

} // verus!
