//! The whole collision search: two distinct two-block messages with the same
//! MD5 chaining value.

use vstd::prelude::*;
use crate::block1::{block1, b1_succeeds, b1_stage3_blocks, b1_result};
use crate::block2::{block2, MAX_TRIES, B2View, B2Draws, b2_view, b2_view_before, b2_result};
use crate::md5::{Chain, md5_chain, md5_compress, md5_digest_words, md5_initial_chain, md5_padding_block, trace_word};
use crate::state::{StateS, deltas_ok, iv_chain, wang_delta, keeps_first_block, second_block_done, first_block_done};
use crate::trace::block_at;

verus! {

/// What the first-block search leaves that the second-block search keeps.
pub open spec fn first_block_summary(iv: [u32; 4], s: StateS) -> bool {
    &&& deltas_ok(s.x0@, s.x1@, 0, 16)
    &&& s.chain0() == md5_compress(iv_chain(iv), block_at(s.x0@, 0))
    &&& s.chain1() == md5_compress(iv_chain(iv), block_at(s.x1@, 0))
}

/// The chaining value of a two-block message.
pub proof fn lemma_chain_two_blocks(cv: Chain, m: Seq<u32>)
    requires
        m.len() == 32,
    ensures
        md5_chain(cv, m) == md5_compress(md5_compress(cv, m.subrange(0, 16)), m.subrange(16, 32)),
{
    let rest = m.subrange(16, 32);
    let c1 = md5_compress(cv, m.subrange(0, 16));
    assert(rest.subrange(0, 16) =~= rest);
    let c2 = md5_compress(c1, rest);
    assert(md5_chain(cv, m) == md5_chain(c1, rest));
    assert(md5_chain(c1, rest) == md5_chain(c2, rest.subrange(16, 16)));
    assert(md5_chain(c2, rest.subrange(16, 16)) == c2);
}

/// The MD5 digest of a two-block message is its chaining value from the
/// standard initial value, compressed once more with the padding block.
pub proof fn lemma_digest_two_blocks(m: Seq<u32>)
    requires
        m.len() == 32,
    ensures
        md5_digest_words(m) == md5_compress(md5_chain(md5_initial_chain(), m), md5_padding_block(128)),
{
    let p = md5_padding_block(128);
    let mp = m + p;
    let cv = md5_initial_chain();
    assert(mp.len() == 48);
    assert(mp.subrange(0, 16) =~= m.subrange(0, 16));
    let r1 = mp.subrange(16, 48);
    assert(r1.subrange(0, 16) =~= m.subrange(16, 32));
    let r2 = r1.subrange(16, 32);
    assert(r2 =~= p);
    assert(r2.subrange(0, 16) =~= p);
    assert(r2.subrange(16, 16).len() == 0);
    let c1 = md5_compress(cv, m.subrange(0, 16));
    let c2 = md5_compress(c1, m.subrange(16, 32));
    assert(md5_chain(md5_compress(c2, p), r2.subrange(16, 16)) == md5_compress(c2, p));
    assert(md5_chain(c2, r2) == md5_compress(c2, p));
    assert(md5_chain(c1, r1) == md5_chain(c2, r2));
    assert(md5_chain(cv, mp) == md5_chain(c1, r1));
    lemma_chain_two_blocks(cv, m);
}

proof fn lemma_flip_top_bit(x: u32)
    ensures
        x ^ 0x8000_0000u32 != x,
{
    assert(x ^ 0x8000_0000u32 != x) by (bit_vector);
}

/// The chaining values after the first-block search's candidates for `iv`.
pub open spec fn coll_chains(iv: [u32; 4]) -> (Chain, Chain) {
    let (m0, m1) = b1_stage3_blocks(iv);
    (md5_compress(iv_chain(iv), m0), md5_compress(iv_chain(iv), m1))
}

/// The view of a state in which every word is zero.
pub open spec fn zero_view() -> B2View {
    (Seq::new(17, |j: int| 0u32), Seq::new(17, |j: int| 0u32), Seq::new(32, |j: int| 0u32), Seq::new(32, |j: int| 0u32))
}

/// The view that a successful first-block search from `iv` leaves in a state
/// whose view was `prev`.
pub open spec fn b1_view(iv: [u32; 4], prev: B2View) -> B2View {
    let (m0, m1) = b1_stage3_blocks(iv);
    (
        Seq::new(17, |j: int| if j == 0 { prev.0[0] } else { trace_word(iv_chain(iv), m0, j) }),
        Seq::new(17, |j: int| if j == 0 { prev.1[0] } else { trace_word(iv_chain(iv), m1, j) }),
        m0 + prev.2.subrange(16, 32),
        m1 + prev.3.subrange(16, 32),
    )
}

/// The rounds of a collision search: in each, the pass count handed to the
/// first-block search and the draws of the second-block search's passes.
pub type Rounds = Seq<(i32, B2Draws)>;

/// The view before round `r` of a collision search from `iv` whose rounds
/// are `rounds`: each round starts where the one before it ended.
pub open spec fn coll_view_before(iv: [u32; 4], rounds: Rounds, r: int) -> B2View
    decreases r,
{
    if r <= 0 {
        zero_view()
    } else {
        let u = b1_view(iv, coll_view_before(iv, rounds, r - 1));
        let passes = rounds[r - 1].1;
        b2_view_before(coll_chains(iv).0, coll_chains(iv).1, u, passes, passes.len() as int)
    }
}

/// What the second-block search of round `r` returned.
pub open spec fn coll_round_result(iv: [u32; 4], rounds: Rounds, r: int) -> i32 {
    b2_result(coll_chains(iv).0, coll_chains(iv).1, b1_view(iv, coll_view_before(iv, rounds, r)), rounds[r].1)
}

/// Adding a round does not change where the earlier ones start.
pub proof fn lemma_coll_view_push(iv: [u32; 4], rounds: Rounds, x: (i32, B2Draws), r: int)
    requires
        0 <= r <= rounds.len(),
    ensures
        coll_view_before(iv, rounds.push(x), r) == coll_view_before(iv, rounds, r),
    decreases r,
{
    if r > 0 {
        lemma_coll_view_push(iv, rounds, x, r - 1);
        assert(rounds.push(x)[r - 1] == rounds[r - 1]);
    }
}

/// The view after a successful first-block search.
pub proof fn lemma_b1_view(iv: [u32; 4], ct1: i32, s0: StateS, s: StateS)
    requires
        b1_result(iv, ct1, s0, s),
    ensures
        b2_view(s) == b1_view(iv, b2_view(s0)),
        s.chain0() == coll_chains(iv).0,
        s.chain1() == coll_chains(iv).1,
{
    let (m0, m1) = b1_stage3_blocks(iv);
    let w = b1_view(iv, b2_view(s0));
    assert forall|j: int| 0 <= j < 17 implies #[trigger] b2_view(s).0[j] == w.0[j] by {
        if j > 0 {
            assert(s.q0[j] == trace_word(iv_chain(iv), m0, j));
        }
    }
    assert forall|j: int| 0 <= j < 17 implies #[trigger] b2_view(s).1[j] == w.1[j] by {
        if j > 0 {
            assert(s.q0[j] == trace_word(iv_chain(iv), m0, j));
        }
    }
    assert(b2_view(s).0 =~= w.0);
    assert(b2_view(s).1 =~= w.1);
    assert(block_at(s.x0@, 0) == m0);
    assert(block_at(s.x1@, 0) == m1);
    assert forall|k: int| 0 <= k < 32 implies #[trigger] b2_view(s).2[k] == w.2[k] by {
        if k < 16 {
            assert(block_at(s.x0@, 0)[k] == s.x0@[k]);
        } else {
            assert(s.x0[k] == s0.x0[k]);
        }
    }
    assert forall|k: int| 0 <= k < 32 implies #[trigger] b2_view(s).3[k] == w.3[k] by {
        if k < 16 {
            assert(block_at(s.x1@, 0)[k] == s.x1@[k]);
        } else {
            assert(s.x0[k] == s0.x0[k]);
        }
    }
    assert(b2_view(s).2 =~= w.2);
    assert(b2_view(s).3 =~= w.3);
}

/// Searches for two distinct 32-word messages with the same MD5 chaining
/// value from `iv`, and stores them in `m0` and `m1`.
///
/// It runs rounds: the first-block search, with the count of its passes so
/// far, and then the second-block search. A round whose second-block search
/// gives up on the first blocks (-1) is followed by another; the search ends
/// at the first round whose second-block search returns 0 or 1, or when its
/// own count of rounds runs out. Also returns, as a ghost value, each round's
/// pass count and the draws of its second-block search: those draws decide
/// the results and the messages, whatever `m0` and `m1` held.
///
/// Returns 0 when it found the messages and 1 otherwise (then `m0` and `m1`
/// are as they were): when the first-block search cannot succeed from `iv`
/// ([`b1_succeeds`]), or a 64-bit try counter ran out. The first halves of
/// the messages are the first-block search's candidates for `iv`; the two
/// messages differ by the attack's XOR difference; from MD5's standard
/// initial value they have the same MD5 digest.
pub fn md5coll_with_iv(iv: [u32; 4], m0: &mut [u32; 32], m1: &mut [u32; 32]) -> (res: (i32, Ghost<Rounds>))
    ensures
        res.0 == 0 || res.0 == 1,
        !b1_succeeds(iv) ==> res.0 == 1 && res.1@.len() == 0,
        res.1@.len() > 0 ==> res.1@[0].0 == 0,
        forall|r: int| 0 < r < res.1@.len() ==> #[trigger] res.1@[r].0 == res.1@[r - 1].0.wrapping_add(1),
        forall|r: int| 0 <= r < res.1@.len() - 1 ==> #[trigger] coll_round_result(iv, res.1@, r) == -1,
        (res.0 == 0) == (res.1@.len() > 0 && coll_round_result(iv, res.1@, res.1@.len() - 1) == 0),
        res.0 == 1 ==> !b1_succeeds(iv) || (res.1@.len() > 0 && coll_round_result(iv, res.1@, res.1@.len() - 1) == 1)
            || res.1@.len() == MAX_TRIES,
        res.0 == 1 && b1_succeeds(iv) ==> res.1@.len() == MAX_TRIES || (res.1@.len() > 0 && (res.1@.last().1.len()
            == 0xffff_ffff_ffff_ffff || (res.1@.last().1.last().0.len() == 0xffff_ffff_ffff_ffff
            && res.1@.last().1.last().1.len() == 0))),
        res.0 == 0 ==> final(m0)@ == coll_view_before(iv, res.1@, res.1@.len() as int).2,
        res.0 == 0 ==> final(m1)@ == coll_view_before(iv, res.1@, res.1@.len() as int).3,
        res.0 != 0 ==> *final(m0) == *old(m0) && *final(m1) == *old(m1),
        res.0 == 0 ==> final(m0)@ != final(m1)@,
        res.0 == 0 ==> deltas_ok(final(m0)@, final(m1)@, 0, 32),
        res.0 == 0 ==> final(m0)@.subrange(0, 16) == b1_stage3_blocks(iv).0,
        res.0 == 0 ==> final(m1)@.subrange(0, 16) == b1_stage3_blocks(iv).1,
        res.0 == 0 ==> md5_chain(iv_chain(iv), final(m0)@) == md5_chain(iv_chain(iv), final(m1)@),
        res.0 == 0 && iv_chain(iv) == md5_initial_chain() ==> md5_digest_words(final(m0)@)
            == md5_digest_words(final(m1)@),
{
    let mut r: i32;
    let mut ct1: i32 = 0;
    let mut s: StateS = StateS::new();
    let ghost mut rounds: Rounds = Seq::empty();
    let mut restarts: u64 = MAX_TRIES;
    proof {
        assert(b2_view(s).0 =~= zero_view().0);
        assert(b2_view(s).1 =~= zero_view().1);
        assert(b2_view(s).2 =~= zero_view().2);
        assert(b2_view(s).3 =~= zero_view().3);
    }
    loop
        invariant_except_break
            ct1 == (if rounds.len() == 0 { 0i32 } else { rounds.last().0.wrapping_add(1) }),
            forall|j: int| 0 <= j < rounds.len() ==> #[trigger] coll_round_result(iv, rounds, j) == -1,
        invariant
            rounds.len() + restarts == MAX_TRIES,
            rounds.len() > 0 ==> b1_succeeds(iv),
            b2_view(s) == coll_view_before(iv, rounds, rounds.len() as int),
            rounds.len() > 0 ==> rounds[0].0 == 0,
            forall|j: int| 0 < j < rounds.len() ==> #[trigger] rounds[j].0 == rounds[j - 1].0.wrapping_add(1),
        ensures
            rounds.len() > 0,
            rounds.len() > 0 ==> rounds[0].0 == 0,
            forall|j: int| 0 < j < rounds.len() ==> #[trigger] rounds[j].0 == rounds[j - 1].0.wrapping_add(1),
            forall|j: int| 0 <= j < rounds.len() - 1 ==> #[trigger] coll_round_result(iv, rounds, j) == -1,
            coll_round_result(iv, rounds, rounds.len() - 1) == 0,
            b2_view(s) == coll_view_before(iv, rounds, rounds.len() as int),
            first_block_summary(iv, s),
            second_block_done(s),
            b1_succeeds(iv),
            block_at(s.x0@, 0) == b1_stage3_blocks(iv).0,
            block_at(s.x1@, 0) == b1_stage3_blocks(iv).1,
        decreases restarts,
    {
        if restarts == 0 {
            return (1, Ghost(rounds));
        }
        restarts = restarts - 1;
        let ghost before_first = s;
        r = block1(iv, ct1, &mut s);
        if r == 1 {
            return (1, Ghost(rounds));
        }
        let ghost after_first = s;
        proof {
            lemma_b1_view(iv, ct1, before_first, after_first);
        }
        let (r2, Ghost(log), Ghost(passes)) = block2(&mut s);
        let ghost b2_passes = passes;
        r = r2;
        let ghost earlier = rounds;
        proof {
            rounds = rounds.push((ct1, passes));
            let n = earlier.len() as int;
            lemma_coll_view_push(iv, earlier, (ct1, passes), n);
            assert(rounds[n] == (ct1, passes));
            assert(coll_view_before(iv, rounds, n + 1) == b2_view(s));
            assert(coll_round_result(iv, rounds, n) == r);
            assert forall|j: int| 0 <= j < n implies #[trigger] coll_round_result(iv, rounds, j) == -1 by {
                lemma_coll_view_push(iv, earlier, (ct1, passes), j);
                assert(rounds[j] == earlier[j]);
                assert(coll_round_result(iv, earlier, j) == -1);
            }
            assert forall|j: int| 0 < j < rounds.len() implies #[trigger] rounds[j].0 == rounds[j - 1].0.wrapping_add(1) by {
                if j < n {
                    assert(rounds[j] == earlier[j]);
                    assert(rounds[j - 1] == earlier[j - 1]);
                    assert(earlier[j].0 == earlier[j - 1].0.wrapping_add(1));
                } else {
                    assert(rounds[j - 1] == earlier[j - 1]);
                }
            }
            if n == 0 {
                assert(rounds[0].0 == 0);
            } else {
                assert(rounds[0] == earlier[0]);
            }
        }
        if r == 1 {
            proof {
                assert(rounds.last().1 == b2_passes);
            }
            return (1, Ghost(rounds));
        } else if r == -1 {
            ct1 = s.ct1;
            continue;
        } else {
            proof {
                assert(first_block_done(iv, after_first));
                assert(keeps_first_block(after_first, s));
                assert(deltas_ok(after_first.x0@, after_first.x1@, 0, 16));
                assert forall|k: int| 0 <= k < 16 implies #[trigger] s.x1@[k] == s.x0@[k] ^ wang_delta(k) by {
                    assert(block_at(s.x0@, 0)[k] == block_at(after_first.x0@, 0)[k]);
                    assert(block_at(s.x1@, 0)[k] == block_at(after_first.x1@, 0)[k]);
                    assert(after_first.x1@[k] == after_first.x0@[k] ^ wang_delta(k));
                }
                assert(first_block_summary(iv, s));
                assert(second_block_done(s));
            }
            break;
        }
    }
    *m0 = s.x0;
    *m1 = s.x1;
    proof {
        let a = m0@;
        let b = m1@;
        assert(a.subrange(0, 16) =~= block_at(s.x0@, 0));
        assert(b.subrange(0, 16) =~= block_at(s.x1@, 0));
        assert(a.subrange(16, 32) =~= block_at(s.x0@, 16));
        assert(b.subrange(16, 32) =~= block_at(s.x1@, 16));
        lemma_chain_two_blocks(iv_chain(iv), a);
        lemma_chain_two_blocks(iv_chain(iv), b);
        assert(deltas_ok(a, b, 0, 32)) by {
            assert forall|k: int| 0 <= k < 32 implies #[trigger] b[k] == a[k] ^ wang_delta(k) by {
                if k < 16 {
                    assert(s.x1@[k] == s.x0@[k] ^ wang_delta(k));
                } else {
                    assert(s.x1@[k] == s.x0@[k] ^ wang_delta(k));
                }
            }
        }
        assert(b[4] == a[4] ^ wang_delta(4));
        lemma_flip_top_bit(a[4]);
        assert(a[4] != b[4]);
        lemma_digest_two_blocks(a);
        lemma_digest_two_blocks(b);
    }
    (0, Ghost(rounds))
}

} // verus!
