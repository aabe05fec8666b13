//! Peer addresses: rewriting legacy ones, which name the peer-id component
//! `ipfs` where current ones name it `p2p`, and removing a trailing peer id
//! so that the address can be dialed.
use vstd::prelude::*;
use vstd::utf8::encode_utf8;

verus! {

pub open spec fn slash() -> u8 {
    0x2f
}

pub open spec fn legacy_name() -> Seq<u8> {
    seq![0x69u8, 0x70, 0x66, 0x73]
}

pub open spec fn current_name() -> Seq<u8> {
    seq![0x70u8, 0x32, 0x70]
}

/// A segment between slashes, renamed when it is the legacy name.
pub open spec fn rename_segment(seg: Seq<u8>) -> Seq<u8> {
    if seg == legacy_name() {
        current_name()
    } else {
        seg
    }
}

/// Position of the first slash in `b`.
pub open spec fn first_slash(b: Seq<u8>) -> Option<nat>
    decreases b.len(),
{
    if b.len() == 0 {
        None
    } else if b[0] == slash() {
        Some(0)
    } else {
        match first_slash(b.drop_first()) {
            Some(i) => Some(i + 1),
            None => None,
        }
    }
}

/// `b` split at its slashes, each segment renamed, and joined again.
pub open spec fn modern_address(b: Seq<u8>) -> Seq<u8>
    decreases b.len(),
{
    match first_slash(b) {
        Some(i) => if i < b.len() {
            rename_segment(b.subrange(0, i as int)) + seq![slash()] + modern_address(
                b.subrange(i + 1 as int, b.len() as int),
            )
        } else {
            b
        },
        None => rename_segment(b),
    }
}

proof fn lemma_first_slash(t: Seq<u8>, k: int)
    requires
        0 <= k <= t.len(),
        forall|i: int| 0 <= i < k ==> t[i] != slash(),
        k < t.len() ==> t[k] == slash(),
    ensures
        first_slash(t) == (if k < t.len() {
            Some(k as nat)
        } else {
            None::<nat>
        }),
    decreases k,
{
    if k > 0 {
        lemma_first_slash(t.drop_first(), k - 1);
    }
}

/// Appends `b[start..end]`, renamed when it is the legacy name.
fn push_segment(out: &mut Vec<u8>, b: &[u8], start: usize, end: usize)
    requires
        start <= end <= b@.len(),
    ensures
        final(out)@ == old(out)@ + rename_segment(b@.subrange(start as int, end as int)),
{
    let ghost seg = b@.subrange(start as int, end as int);
    if end - start == 4 && b[start] == 0x69 && b[start + 1] == 0x70 && b[start + 2] == 0x66
        && b[start + 3] == 0x73 {
        assert(seg =~= legacy_name());
        out.push(0x70);
        out.push(0x32);
        out.push(0x70);
        assert(out@ =~= old(out)@ + current_name());
    } else {
        assert(seg != legacy_name()) by {
            if seg == legacy_name() {
                assert(legacy_name().len() == 4);
                assert(legacy_name()[0] == 0x69 && legacy_name()[1] == 0x70);
                assert(legacy_name()[2] == 0x66 && legacy_name()[3] == 0x73);
                assert(seg[0] == b@[start as int]);
                assert(seg[1] == b@[start + 1]);
                assert(seg[2] == b@[start + 2]);
                assert(seg[3] == b@[start + 3]);
            }
        }
        let mut i: usize = start;
        while i < end
            invariant
                start <= i <= end,
                end <= b@.len(),
                out@ == old(out)@ + b@.subrange(start as int, i as int),
            decreases end - i,
        {
            out.push(b[i]);
            i = i + 1;
            assert(out@ =~= old(out)@ + b@.subrange(start as int, i as int));
        }
    }
}

/// The bytes of an address with every `ipfs` segment renamed `p2p`.
pub fn modernize_address(text: &str) -> (r: Vec<u8>)
    ensures
        r@ == modern_address(encode_utf8(text@)),
{
    let b = text.as_bytes();
    let n = b.len();
    let mut out: Vec<u8> = Vec::new();
    let mut start: usize = 0;
    let mut j: usize = 0;
    assert(b@.subrange(0, n as int) =~= b@);
    while j < n
        invariant
            start <= j <= n,
            n == b@.len(),
            b@ == encode_utf8(text@),
            modern_address(b@) == out@ + modern_address(b@.subrange(start as int, n as int)),
            forall|i: int| start <= i < j ==> b@[i] != slash(),
        decreases n - j,
    {
        if b[j] == 0x2f {
            let ghost t = b@.subrange(start as int, n as int);
            proof {
                lemma_first_slash(t, j - start);
                assert(t.subrange(0, j - start) =~= b@.subrange(start as int, j as int));
                assert(t.subrange(j - start + 1, t.len() as int) =~= b@.subrange(j + 1, n as int));
            }
            push_segment(&mut out, b, start, j);
            out.push(0x2f);
            start = j + 1;
        }
        j = j + 1;
    }
    proof {
        let t = b@.subrange(start as int, n as int);
        lemma_first_slash(t, t.len() as int);
    }
    push_segment(&mut out, b, start, n);
    out
}

/// One component of a peer address.
pub enum AddrPart {
    /// A peer id component, with the peer id's bytes.
    PeerId(Vec<u8>),
    /// Any other component, in its binary form.
    Other(Vec<u8>),
}

/// Whether an address component is a peer id.
pub open spec fn is_peer_part(p: AddrPart) -> bool {
    p is PeerId
}

/// Removes a trailing peer id component and returns its bytes; an address
/// that ends otherwise is left as it is.
pub fn strip_peer_id(addr: &mut Vec<AddrPart>) -> (r: Option<Vec<u8>>)
    ensures
        old(addr)@.len() > 0 && is_peer_part(old(addr)@.last()) ==> final(addr)@ == old(addr)@.drop_last() && r == Some(old(addr)@.last()->PeerId_0),
        !(old(addr)@.len() > 0 && is_peer_part(old(addr)@.last())) ==> final(addr)@ == old(addr)@ && r is None,
{
    match addr.pop() {
        Some(AddrPart::PeerId(id)) => Some(id),
        Some(other) => {
            addr.push(other);
            None
        },
        None => None,
    }
}

} // verus!
