use crate::schedule::{Checkpoint, Schedule};
use vstd::prelude::*;

verus! {

/// The big-endian bytes of a timestamp.
pub open spec fn u32_be_bytes(x: u32) -> Seq<u8> {
    seq![(x >> 24u32) as u8, (x >> 16u32) as u8, (x >> 8u32) as u8, x as u8]
}

/// The big-endian bytes of a balance.
pub open spec fn u128_be_bytes(x: u128) -> Seq<u8> {
    seq![
        (x >> 120u128) as u8, (x >> 112u128) as u8, (x >> 104u128) as u8, (x >> 96u128) as u8,
        (x >> 88u128) as u8, (x >> 80u128) as u8, (x >> 72u128) as u8, (x >> 64u128) as u8,
        (x >> 56u128) as u8, (x >> 48u128) as u8, (x >> 40u128) as u8, (x >> 32u128) as u8,
        (x >> 24u128) as u8, (x >> 16u128) as u8, (x >> 8u128) as u8, x as u8,
    ]
}

/// A checkpoint as 20 bytes: its timestamp, then its balance, both big-endian.
pub open spec fn checkpoint_bytes(c: Checkpoint) -> Seq<u8> {
    u32_be_bytes(c.timestamp) + u128_be_bytes(c.balance)
}

/// The canonical serialization of a schedule: its checkpoints' bytes, one after another.
pub open spec fn canonical_bytes(s: Seq<Checkpoint>) -> Seq<u8>
    decreases s.len(),
{
    if s.len() == 0 {
        Seq::empty()
    } else {
        canonical_bytes(s.drop_last()) + checkpoint_bytes(s.last())
    }
}

/// The SHA-256 digest of a byte sequence.
pub uninterp spec fn sha256_of(bytes: Seq<u8>) -> Seq<u8>;

/// The commitment to a schedule: the digest of its canonical bytes.
pub open spec fn schedule_hash(s: Seq<Checkpoint>) -> Seq<u8> {
    sha256_of(canonical_bytes(s))
}

/// Relies on sha2::Sha256::digest: the SHA-256 digest of the bytes, which is 32 bytes long.
#[verifier::external_body]
fn sha256(bytes: &Vec<u8>) -> (r: Vec<u8>)
    ensures
        r@ == sha256_of(bytes@),
        r@.len() == 32,
{
    <sha2::Sha256 as sha2::Digest>::digest(bytes.as_slice()).to_vec()
}

proof fn lemma_canonical_bytes_len(s: Seq<Checkpoint>)
    ensures
        canonical_bytes(s).len() == 20 * s.len(),
    decreases s.len(),
{
    if s.len() > 0 {
        lemma_canonical_bytes_len(s.drop_last());
    }
}

proof fn lemma_checkpoint_bytes_injective(a: Checkpoint, b: Checkpoint)
    requires
        checkpoint_bytes(a) == checkpoint_bytes(b),
    ensures
        a == b,
{
    let ba = checkpoint_bytes(a);
    let bb = checkpoint_bytes(b);
    let x = a.timestamp;
    let y = b.timestamp;
    let p = a.balance;
    let q = b.balance;
    assert(ba.subrange(0, 4) =~= u32_be_bytes(x));
    assert(bb.subrange(0, 4) =~= u32_be_bytes(y));
    assert(ba.subrange(4, 20) =~= u128_be_bytes(p));
    assert(bb.subrange(4, 20) =~= u128_be_bytes(q));
    let ux = u32_be_bytes(x);
    let uy = u32_be_bytes(y);
    let up = u128_be_bytes(p);
    let uq = u128_be_bytes(q);
    assert(ux[0] == uy[0] && ux[1] == uy[1] && ux[2] == uy[2] && ux[3] == uy[3]);
    assert(up[0] == uq[0] && up[1] == uq[1] && up[2] == uq[2] && up[3] == uq[3]);
    assert(up[4] == uq[4] && up[5] == uq[5] && up[6] == uq[6] && up[7] == uq[7]);
    assert(up[8] == uq[8] && up[9] == uq[9] && up[10] == uq[10] && up[11] == uq[11]);
    assert(up[12] == uq[12] && up[13] == uq[13] && up[14] == uq[14] && up[15] == uq[15]);
    assert(x == y) by (bit_vector)
        requires
            (x >> 24u32) as u8 == (y >> 24u32) as u8,
            (x >> 16u32) as u8 == (y >> 16u32) as u8,
            (x >> 8u32) as u8 == (y >> 8u32) as u8,
            x as u8 == y as u8,
    ;
    assert(p == q) by (bit_vector)
        requires
            (p >> 120u128) as u8 == (q >> 120u128) as u8,
            (p >> 112u128) as u8 == (q >> 112u128) as u8,
            (p >> 104u128) as u8 == (q >> 104u128) as u8,
            (p >> 96u128) as u8 == (q >> 96u128) as u8,
            (p >> 88u128) as u8 == (q >> 88u128) as u8,
            (p >> 80u128) as u8 == (q >> 80u128) as u8,
            (p >> 72u128) as u8 == (q >> 72u128) as u8,
            (p >> 64u128) as u8 == (q >> 64u128) as u8,
            (p >> 56u128) as u8 == (q >> 56u128) as u8,
            (p >> 48u128) as u8 == (q >> 48u128) as u8,
            (p >> 40u128) as u8 == (q >> 40u128) as u8,
            (p >> 32u128) as u8 == (q >> 32u128) as u8,
            (p >> 24u128) as u8 == (q >> 24u128) as u8,
            (p >> 16u128) as u8 == (q >> 16u128) as u8,
            (p >> 8u128) as u8 == (q >> 8u128) as u8,
            p as u8 == q as u8,
    ;
}

/// Two schedules have the same canonical bytes exactly when they have the same checkpoints.
pub proof fn lemma_canonical_bytes_injective(s1: Seq<Checkpoint>, s2: Seq<Checkpoint>)
    ensures
        canonical_bytes(s1) == canonical_bytes(s2) <==> s1 == s2,
    decreases s1.len(),
{
    if canonical_bytes(s1) == canonical_bytes(s2) {
        lemma_canonical_bytes_len(s1);
        lemma_canonical_bytes_len(s2);
        if s1.len() > 0 {
            let d1 = s1.drop_last();
            let d2 = s2.drop_last();
            lemma_canonical_bytes_len(d1);
            lemma_canonical_bytes_len(d2);
            let b = canonical_bytes(s1);
            let m = 20 * d1.len() as int;
            assert(b.subrange(0, m) =~= canonical_bytes(d1));
            assert(b.subrange(0, m) =~= canonical_bytes(d2));
            assert(b.subrange(m, b.len() as int) =~= checkpoint_bytes(s1.last()));
            assert(b.subrange(m, b.len() as int) =~= checkpoint_bytes(s2.last()));
            lemma_checkpoint_bytes_injective(s1.last(), s2.last());
            lemma_canonical_bytes_injective(d1, d2);
            assert(s1 =~= d1.push(s1.last()));
            assert(s2 =~= d2.push(s2.last()));
        } else {
            assert(s1 =~= s2);
        }
    }
}

/// Schedules with the same canonical bytes have the same hash; the bytes, in turn, are the
/// same exactly when the checkpoints are. (That different bytes give different digests is
/// the collision resistance of SHA-256, which nothing here proves.)
pub proof fn lemma_hash_follows_canonical_bytes(s1: Seq<Checkpoint>, s2: Seq<Checkpoint>)
    ensures
        canonical_bytes(s1) == canonical_bytes(s2) ==> schedule_hash(s1) == schedule_hash(s2),
        canonical_bytes(s1) == canonical_bytes(s2) <==> s1 == s2,
{
    lemma_canonical_bytes_injective(s1, s2);
}

fn push_checkpoint_bytes(out: &mut Vec<u8>, c: Checkpoint)
    ensures
        final(out)@ == old(out)@ + checkpoint_bytes(c),
{
    let t = c.timestamp;
    let x = c.balance;
    out.push((t >> 24u32) as u8);
    out.push((t >> 16u32) as u8);
    out.push((t >> 8u32) as u8);
    out.push(t as u8);
    out.push((x >> 120u128) as u8);
    out.push((x >> 112u128) as u8);
    out.push((x >> 104u128) as u8);
    out.push((x >> 96u128) as u8);
    out.push((x >> 88u128) as u8);
    out.push((x >> 80u128) as u8);
    out.push((x >> 72u128) as u8);
    out.push((x >> 64u128) as u8);
    out.push((x >> 56u128) as u8);
    out.push((x >> 48u128) as u8);
    out.push((x >> 40u128) as u8);
    out.push((x >> 32u128) as u8);
    out.push((x >> 24u128) as u8);
    out.push((x >> 16u128) as u8);
    out.push((x >> 8u128) as u8);
    out.push(x as u8);
    assert(final(out)@ =~= old(out)@ + checkpoint_bytes(c));
}

impl Schedule {
    /// The canonical serialization of the schedule.
    pub fn canonical_bytes(&self) -> (r: Vec<u8>)
        ensures
            r@ == canonical_bytes(self@),
    {
        let mut out: Vec<u8> = Vec::new();
        let mut i: usize = 0;
        while i < self.0.len()
            invariant
                i <= self@.len(),
                out@ == canonical_bytes(self@.take(i as int)),
            decreases self@.len() - i,
        {
            push_checkpoint_bytes(&mut out, self.0[i]);
            proof {
                let t = self@.take(i as int + 1);
                assert(t.drop_last() =~= self@.take(i as int));
            }
            i = i + 1;
        }
        assert(self@.take(self@.len() as int) =~= self@);
        out
    }

    /// The SHA-256 commitment to the schedule, over its canonical bytes.
    pub fn hash(&self) -> (r: Vec<u8>)
        ensures
            r@ == schedule_hash(self@),
            r@.len() == 32,
    {
        let bytes = self.canonical_bytes();
        sha256(&bytes)
    }
}

} // verus!
