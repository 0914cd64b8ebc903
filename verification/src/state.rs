//! The search state shared by the two block searches, and what the searches
//! establish about it.

use vstd::prelude::*;
use crate::md5::{Chain, steps_ok, md5_compress, lemma_steps_ok_frame};
use crate::trace::block_at;

verus! {

/// The traces, messages and chaining values of the two messages `x0`, `x1`
/// under construction.
pub struct StateS {
    pub a0: u32,
    pub b0: u32,
    pub c0: u32,
    pub d0: u32,
    pub a1: u32,
    pub b1: u32,
    pub c1: u32,
    pub d1: u32,
    pub q0: [u32; 65],
    pub q1: [u32; 65],
    pub x0: [u32; 32],
    pub x1: [u32; 32],
    pub ct1: i32,
    pub ct2: u32,
}

impl StateS {
    /// The chaining value after the first block of `x0`.
    pub open spec fn chain0(&self) -> Chain {
        (self.a0, self.b0, self.c0, self.d0)
    }

    /// The chaining value after the first block of `x1`.
    pub open spec fn chain1(&self) -> Chain {
        (self.a1, self.b1, self.c1, self.d1)
    }

    /// A state with every word zero.
    pub fn new() -> (s: StateS)
        ensures
            s.a0 == 0 && s.b0 == 0 && s.c0 == 0 && s.d0 == 0,
            s.a1 == 0 && s.b1 == 0 && s.c1 == 0 && s.d1 == 0,
            forall|i: int| 0 <= i < 65 ==> s.q0[i] == 0 && s.q1[i] == 0,
            forall|i: int| 0 <= i < 32 ==> s.x0[i] == 0 && s.x1[i] == 0,
            s.ct1 == 0,
            s.ct2 == 0,
    {
        StateS {
            a0: 0,
            b0: 0,
            c0: 0,
            d0: 0,
            a1: 0,
            b1: 0,
            c1: 0,
            d1: 0,
            q0: [0; 65],
            q1: [0; 65],
            x0: [0; 32],
            x1: [0; 32],
            ct1: 0,
            ct2: 0,
        }
    }
}

/// The word-wise XOR difference between the two 32-word messages of the
/// attack: bit 31 of words 4, 14, 20 and 30, bit 15 of words 11 and 27.
pub open spec fn wang_delta(k: int) -> u32 {
    if k == 4 || k == 14 || k == 20 || k == 30 {
        0x8000_0000u32
    } else if k == 11 || k == 27 {
        0x8000u32
    } else {
        0u32
    }
}

/// Words `lo..hi` of `x1` are those of `x0` XOR the attack's difference.
pub open spec fn deltas_ok(x0: Seq<u32>, x1: Seq<u32>, lo: int, hi: int) -> bool {
    forall|k: int| lo <= k < hi ==> #[trigger] x1[k] == x0[k] ^ wang_delta(k)
}

/// Steps `lo..hi` of both traces of the second block hold.
pub open spec fn second_steps(s: StateS, lo: int, hi: int) -> bool {
    &&& steps_ok(s.chain0(), s.q0@, block_at(s.x0@, 16), lo, hi)
    &&& steps_ok(s.chain1(), s.q1@, block_at(s.x1@, 16), lo, hi)
}

/// What the second-block search leaves behind: both second blocks carry the
/// attack's difference, and compressing each from its own chaining value
/// gives the same result.
pub open spec fn second_block_done(s: StateS) -> bool {
    &&& second_steps(s, 0, 64)
    &&& deltas_ok(s.x0@, s.x1@, 16, 32)
    &&& md5_compress(s.chain0(), block_at(s.x0@, 16)) == md5_compress(s.chain1(), block_at(s.x1@, 16))
}

/// The second-block search keeps the chaining values, the first blocks,
/// the counters and `Q[0]` of both traces.
pub open spec fn keeps_first_block(s1: StateS, s2: StateS) -> bool {
    &&& s2.chain0() == s1.chain0()
    &&& s2.chain1() == s1.chain1()
    &&& block_at(s2.x0@, 0) == block_at(s1.x0@, 0)
    &&& block_at(s2.x1@, 0) == block_at(s1.x1@, 0)
    &&& s2.ct1 == s1.ct1
    &&& s2.ct2 == s1.ct2
    &&& s2.q0[0] == s1.q0[0]
    &&& s2.q1[0] == s1.q1[0]
}

/// `x1 == x0 ^ d` in the two ways the search tests it.
pub proof fn lemma_xor_delta(a: u32, b: u32, d: u32)
    ensures
        ((a ^ b) == d) == (b == a ^ d),
        (a == b) == (b == a ^ 0),
{
    assert(((a ^ b) == d) == (b == a ^ d)) by (bit_vector);
    assert((a == b) == (b == a ^ 0)) by (bit_vector);
}

/// The first-block search keeps the second blocks and `Q[0]` of both
/// traces.
pub open spec fn keeps_second_block(s1: StateS, s2: StateS) -> bool {
    &&& forall|k: int| 16 <= k < 32 ==> #[trigger] s2.x0[k] == s1.x0[k] && s2.x1[k] == s1.x1[k]
    &&& s2.q0[0] == s1.q0[0]
    &&& s2.q1[0] == s1.q1[0]
}

/// An initial value as a chaining value.
pub open spec fn iv_chain(iv: [u32; 4]) -> Chain {
    (iv[0], iv[1], iv[2], iv[3])
}

/// Steps `lo..hi` of both traces of the first block hold, from `iv`.
pub open spec fn first_steps(iv: [u32; 4], s: StateS, lo: int, hi: int) -> bool {
    &&& steps_ok(iv_chain(iv), s.q0@, block_at(s.x0@, 0), lo, hi)
    &&& steps_ok(iv_chain(iv), s.q1@, block_at(s.x1@, 0), lo, hi)
}

/// What the first stage of the first-block search fixes: `Q[3..=16]` of
/// both traces, and the words 6 to 15 that steps 6 to 15 then need.
pub open spec fn first_round_ready(iv: [u32; 4], s: StateS) -> bool {
    &&& first_steps(iv, s, 6, 16)
    &&& deltas_ok(s.x0@, s.x1@, 6, 16)
    &&& s.q1[3] == s.q0[3]
    &&& s.q1[4] == s.q0[4]
}

/// What the second stage adds: `Q[17..=19]` and the word 1 of both messages.
pub open spec fn second_round_ready(iv: [u32; 4], s: StateS) -> bool {
    &&& first_round_ready(iv, s)
    &&& first_steps(iv, s, 16, 19)
    &&& s.x1[1] == s.x0[1]
}

/// The chaining values after the first blocks differ as the attack needs.
pub open spec fn near_collision(s: StateS) -> bool {
    &&& (s.a0 ^ s.a1) == 0x8000_0000u32
    &&& s.d0.wrapping_sub(s.d1) == 0x7e00_0000u32
    &&& s.c0.wrapping_sub(s.c1) == 0x7e00_0000u32
    &&& s.b0.wrapping_sub(s.b1) == 0x7e00_0000u32
    &&& s.d0 & 0x0200_0000u32 == 0
    &&& s.c0 & 0x8600_0000u32 == (s.d0 & 0x8000_0000u32) | 0x0200_0000u32
    &&& s.b0 & 0x8600_0020u32 == s.c0 & 0x8000_0000u32
}

/// What the first-block search leaves behind: the first blocks carry the
/// attack's difference, the chaining values are their compressions from
/// `iv`, and those differ as the second-block search needs.
pub open spec fn first_block_done(iv: [u32; 4], s: StateS) -> bool {
    &&& first_steps(iv, s, 0, 64)
    &&& deltas_ok(s.x0@, s.x1@, 0, 16)
    &&& s.chain0() == md5_compress(iv_chain(iv), block_at(s.x0@, 0))
    &&& s.chain1() == md5_compress(iv_chain(iv), block_at(s.x1@, 0))
    &&& near_collision(s)
}

/// Steps of the second blocks carry over to a state that agrees on the
/// chaining values, the messages and the trace words they read.
pub proof fn lemma_second_steps_frame(s1: StateS, s2: StateS, lo: int, hi: int)
    requires
        0 <= lo,
        hi <= 64,
        second_steps(s1, lo, hi),
        s2.chain0() == s1.chain0(),
        s2.chain1() == s1.chain1(),
        s2.x0 == s1.x0,
        s2.x1 == s1.x1,
        forall|j: int| 0 <= j <= hi ==> s2.q0[j] == s1.q0[j] && s2.q1[j] == s1.q1[j],
    ensures
        second_steps(s2, lo, hi),
{
    lemma_steps_ok_frame(s1.chain0(), s1.q0@, block_at(s1.x0@, 16), s2.q0@, block_at(s2.x0@, 16), lo, hi);
    lemma_steps_ok_frame(s1.chain1(), s1.q1@, block_at(s1.x1@, 16), s2.q1@, block_at(s2.x1@, 16), lo, hi);
}

/// Steps of the first blocks carry over to a state that agrees on the
/// messages and the trace words they read.
pub proof fn lemma_first_steps_frame(iv: [u32; 4], s1: StateS, s2: StateS, lo: int, hi: int)
    requires
        0 <= lo,
        hi <= 64,
        first_steps(iv, s1, lo, hi),
        s2.x0 == s1.x0,
        s2.x1 == s1.x1,
        forall|j: int| 0 <= j <= hi ==> s2.q0[j] == s1.q0[j] && s2.q1[j] == s1.q1[j],
    ensures
        first_steps(iv, s2, lo, hi),
{
    lemma_steps_ok_frame(iv_chain(iv), s1.q0@, block_at(s1.x0@, 0), s2.q0@, block_at(s2.x0@, 0), lo, hi);
    lemma_steps_ok_frame(iv_chain(iv), s1.q1@, block_at(s1.x1@, 0), s2.q1@, block_at(s2.x1@, 0), lo, hi);
}

/// What the first two stages of the first-block search fixed carries over
/// to a state that agrees on the messages and on `Q[..=19]`.
pub proof fn lemma_second_round_ready_frame(iv: [u32; 4], s1: StateS, s2: StateS)
    requires
        second_round_ready(iv, s1),
        s2.x0 == s1.x0,
        s2.x1 == s1.x1,
        forall|j: int| 0 <= j <= 19 ==> s2.q0[j] == s1.q0[j] && s2.q1[j] == s1.q1[j],
    ensures
        second_round_ready(iv, s2),
{
    lemma_first_steps_frame(iv, s1, s2, 6, 16);
    lemma_first_steps_frame(iv, s1, s2, 16, 19);
    assert(s2.x0@ == s1.x0@);
    assert(s2.x1@ == s1.x1@);
}

} // verus!
