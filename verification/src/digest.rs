//! FNV-1a 64-bit hashing, the basis of the world state digest.

use vstd::prelude::*;

verus! {

/// FNV-1a 64-bit offset basis.
pub const FNV1A_OFFSET_BASIS: u64 = 0xcbf29ce484222325;

/// FNV-1a 64-bit prime.
pub const FNV1A_PRIME: u64 = 0x100000001b3;

/// One FNV-1a step: xor the byte in, multiply by the prime (mod 2^64).
pub open spec fn fnv1a_step(state: u64, byte: u8) -> u64 {
    vstd::wrapping::u64_specs::wrapping_mul(state ^ (byte as u64), FNV1A_PRIME)
}

/// FNV-1a over a byte sequence starting from the given state.
pub open spec fn fnv1a_seq(state: u64, bytes: Seq<u8>) -> u64
    decreases bytes.len(),
{
    if bytes.len() == 0 {
        state
    } else {
        fnv1a_seq(fnv1a_step(state, bytes[0]), bytes.subrange(1, bytes.len() as int))
    }
}

/// Hashing a concatenation equals hashing the parts in sequence.
pub proof fn lemma_fnv1a_seq_concat(state: u64, a: Seq<u8>, b: Seq<u8>)
    ensures
        fnv1a_seq(state, a + b) == fnv1a_seq(fnv1a_seq(state, a), b),
    decreases a.len(),
{
    if a.len() == 0 {
        assert(a + b =~= b);
    } else {
        assert((a + b)[0] == a[0]);
        assert((a + b).subrange(1, (a + b).len() as int)
            =~= a.subrange(1, a.len() as int) + b);
        lemma_fnv1a_seq_concat(fnv1a_step(state, a[0]), a.subrange(1, a.len() as int), b);
    }
}

/// Hashing one more byte applies one more step.
pub proof fn lemma_fnv1a_seq_snoc(state: u64, a: Seq<u8>, x: u8)
    ensures
        fnv1a_seq(state, a.push(x)) == fnv1a_step(fnv1a_seq(state, a), x),
{
    assert(a.push(x) =~= a + seq![x]);
    lemma_fnv1a_seq_concat(state, a, seq![x]);
    let s = seq![x];
    let t = fnv1a_seq(state, a);
    assert(s[0] == x);
    assert(s.subrange(1, 1).len() == 0);
    assert(fnv1a_seq(t, s) == fnv1a_seq(fnv1a_step(t, x), s.subrange(1, 1)));
}

/// Incremental FNV-1a 64-bit hasher.
#[derive(Clone, Copy)]
pub struct Fnv1a64 {
    state: u64,
}

impl Fnv1a64 {
    /// The accumulated hash state.
    pub closed spec fn view(&self) -> u64 {
        self.state
    }

    /// A fresh hasher, at the offset basis.
    pub fn new() -> (r: Self)
        ensures
            r@ == FNV1A_OFFSET_BASIS,
    {
        Fnv1a64 { state: FNV1A_OFFSET_BASIS }
    }

    /// Absorb the bytes in order.
    pub fn update(&mut self, bytes: &[u8])
        ensures
            final(self)@ == fnv1a_seq(old(self)@, bytes@),
    {
        let ghost start = self.state;
        let n = bytes.len();
        for i in 0..n
            invariant
                n == bytes@.len(),
                self.state == fnv1a_seq(start, bytes@.subrange(0, i as int)),
        {
            let b = bytes[i];
            proof {
                lemma_fnv1a_seq_snoc(start, bytes@.subrange(0, i as int), bytes@[i as int]);
                assert(bytes@.subrange(0, i as int).push(bytes@[i as int])
                    =~= bytes@.subrange(0, i + 1));
            }
            self.state = (self.state ^ (b as u64)).wrapping_mul(FNV1A_PRIME);
        }
        proof {
            assert(bytes@.subrange(0, n as int) =~= bytes@);
        }
    }

    /// The final 64-bit hash value.
    pub fn finish(self) -> (r: u64)
        ensures
            r == self@,
    {
        self.state
    }
}

} // verus!
