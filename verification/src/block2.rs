//! The search for the second blocks: it makes the near-collision of the
//! first blocks into a full collision.

use vstd::prelude::*;
use crate::md5::{Chain, md5_unstep, q_at, trace_word, lemma_trace_word_at, step_ok, lemma_trace_compress};
use rand::rngs::ThreadRng;
use crate::rng::{random_u32, random_usize, thread_rng};
use crate::state::{StateS, lemma_second_steps_frame, lemma_xor_delta, deltas_ok, wang_delta, second_steps, second_block_done, keeps_first_block};
use crate::trace::{block_at, forward_step, inverse_step, store_q};

verus! {

/// The single-bit masks that the last stage of the second-block search
/// flips in `Q[16]`.
pub const MASK22: [u32; 30] = [
    0x00000001, 0x00000002, 0x00000004, 0x00000008,
    0x00000010, 0x00000020, 0x00000040, 0x00000080,
    0x00000100, 0x00000200, 0x00000400, 0x00000800,
    0x00001000, 0x00002000, 0x00004000, 0x00008000,
    0x00010000, 0x00020000, 0x00040000, 0x00080000,
    0x00100000, 0x00200000, 0x00400000, 0x00800000,
    0x01000000, 0x02000000, 0x04000000, 0x08000000,
    0x10000000, 0x40000000,
];

/// Places `v` as the trace word `Q[k]` of `x0`'s second block and
/// `v - diff` as that of `x1`'s, and sets the words that step `k - 1` of
/// each reads so that the steps produce them. Tells whether the two words
/// differ by the XOR `delta`.
pub fn b2_place(s: &mut StateS, k: usize, v: u32, diff: u32, delta: u32) -> (ok: bool)
    requires
        1 <= k <= 16,
    ensures
        final(s).q0@ == old(s).q0@.update(k as int, v),
        final(s).q1@ == old(s).q1@.update(k as int, v.wrapping_sub(diff)),
        final(s).x0@ == old(s).x0@.update(15 + k, final(s).x0[15 + k]),
        final(s).x1@ == old(s).x1@.update(15 + k, final(s).x1[15 + k]),
        keeps_first_block(*old(s), *final(s)),
        step_ok(final(s).chain0(), final(s).q0@, block_at(final(s).x0@, 16), k - 1),
        step_ok(final(s).chain1(), final(s).q1@, block_at(final(s).x1@, 16), k - 1),
        final(s).x0[15 + k] == md5_unstep(
            k - 1,
            q_at(old(s).chain0(), final(s).q0@, k - 4),
            q_at(old(s).chain0(), final(s).q0@, k - 1),
            q_at(old(s).chain0(), final(s).q0@, k - 2),
            q_at(old(s).chain0(), final(s).q0@, k - 3),
            v,
        ),
        final(s).x1[15 + k] == md5_unstep(
            k - 1,
            q_at(old(s).chain1(), final(s).q1@, k - 4),
            q_at(old(s).chain1(), final(s).q1@, k - 1),
            q_at(old(s).chain1(), final(s).q1@, k - 2),
            q_at(old(s).chain1(), final(s).q1@, k - 3),
            v.wrapping_sub(diff),
        ),
        ok == (final(s).x1[15 + k] == final(s).x0[15 + k] ^ delta),
        second_steps(*old(s), 0, k - 1) ==> second_steps(*final(s), 0, k as int),
        deltas_ok(old(s).x0@, old(s).x1@, 16, 15 + k) ==> deltas_ok(final(s).x0@, final(s).x1@, 16, 15 + k),
        ok && delta == wang_delta(15 + k) && deltas_ok(old(s).x0@, old(s).x1@, 16, 15 + k)
            ==> deltas_ok(final(s).x0@, final(s).x1@, 16, 16 + k),
{
    let cv0 = (s.a0, s.b0, s.c0, s.d0);
    let cv1 = (s.a1, s.b1, s.c1, s.d1);
    store_q(&mut s.q0, k, v);
    store_q(&mut s.q1, k, v.wrapping_sub(diff));
    inverse_step(cv0, &s.q0, &mut s.x0, 16, k - 1);
    inverse_step(cv1, &s.q1, &mut s.x1, 16, k - 1);
    proof {
        assert(block_at(s.x0@, 0) =~= block_at(old(s).x0@, 0));
        assert(block_at(s.x1@, 0) =~= block_at(old(s).x1@, 0));
    }
    s.x1[15 + k] == s.x0[15 + k] ^ delta
}

/// The masks of the second block's first round, for the trace word `Q[k]`,
/// `1 <= k <= 16`: the bits the search sets, the bits it clears, the bits it
/// copies from `Q[k - 1]`, and the difference `Q[k]` of `x0` minus `Q[k]` of
/// `x1`.
pub open spec fn b2_mask(k: int) -> (u32, u32, u32, u32) {
    if k == 1 {
        (0x84200000, 0x0a000820, 0x00000000, 0x7e000000)
    }     else if k == 2 {
        (0x8c000800, 0x723f90e6, 0x701f10c0, 0x7dffffe0)
    }     else if k == 3 {
        (0xbe1f0966, 0x40201098, 0x00000018, 0x7dfef7e0)
    }     else if k == 4 {
        (0xba040010, 0x443b1fef, 0x00000601, 0x7dffffe2)
    }     else if k == 5 {
        (0x482f0e50, 0xb41011af, 0x00000000, 0x7ffffcbf)
    }     else if k == 6 {
        (0x04220c56, 0x9a1113a9, 0x00000000, 0x80110000)
    }     else if k == 7 {
        (0x96011e01, 0x09b281c0, 0x01808000, 0x88000040)
    }     else if k == 8 {
        (0x843283c0, 0x1b810003, 0x00000002, 0x80818000)
    }     else if k == 9 {
        (0x9c0101c1, 0x03829202, 0x00001000, 0x7fffffbf)
    }     else if k == 10 {
        (0x878383c0, 0x00041003, 0x00000000, 0x7ffff000)
    }     else if k == 11 {
        (0x800583c3, 0x000a7000, 0x00086000, 0x80000000)
    }     else if k == 12 {
        (0x80081080, 0x7f07e000, 0x7f000000, 0x80002080)
    }     else if k == 13 {
        (0x3f0fe008, 0x80000080, 0x00000000, 0x7f000000)
    }     else if k == 14 {
        (0x400be088, 0xbf040000, 0x00000000, 0x80000000)
    }     else if k == 15 {
        (0x7d000000, 0x82008008, 0x00000000, 0x7fff7ff8)
    } else {
        (0x20000000, 0x80000000, 0x00000000, 0xa0000000)
    }
}

/// The trace word `Q[k]` that the search makes of the drawn word `draw`,
/// where `prev` is `Q[k - 1]`.
pub open spec fn b2_from_draw(k: int, draw: u32, prev: u32) -> u32 {
    let m = b2_mask(k);
    ((draw | m.0) & !m.1) | (prev & m.2)
}

/// `Q[k]` of both traces of the second blocks is one the search can make:
/// `x0`'s meets the bit conditions of [`b2_mask`], and `x1`'s differs from
/// it by the attack's difference.
pub open spec fn b2_fits(s: StateS, k: int) -> bool {
    &&& s.q0[k] == b2_from_draw(k, s.q0[k], s.q0[k - 1])
    &&& s.q1[k] == s.q0[k].wrapping_sub(b2_mask(k).3)
}

/// `Q[1..=k]` of both second traces meet the conditions of the first round.
pub open spec fn b2_round1_upto(s: StateS, k: int) -> bool {
    forall|j: int| 1 <= j <= k ==> #[trigger] b2_fits(s, j)
}

/// The conditions of rounds 2 to 4 on the second blocks of `s`.
pub open spec fn second_block_conds(s: StateS) -> bool {
    let (cv0, m0, cv1, m1) = (s.chain0(), block_at(s.x0@, 16), s.chain1(), block_at(s.x1@, 16));
    &&& b2_conds_16_20(cv0, m0, cv1, m1)
    &&& b2_conds_21_31(cv0, m0, cv1, m1)
    &&& b2_conds_32_47(cv0, m0, cv1, m1)
    &&& b2_conds_48_63(cv0, m0, cv1, m1)
}

/// The first-round conditions carry over to a state that agrees on
/// `Q[..=k]` of both traces.
pub proof fn lemma_round1_frame(s1: StateS, s2: StateS, k: int)
    requires
        b2_round1_upto(s1, k),
        forall|j: int| 0 <= j <= k ==> s2.q0[j] == s1.q0[j] && s2.q1[j] == s1.q1[j],
    ensures
        b2_round1_upto(s2, k),
{
    assert forall|j: int| 1 <= j <= k implies #[trigger] b2_fits(s2, j) by {
        assert(b2_fits(s1, j));
    }
}

/// The masks set no bit they clear, and copy only bits they clear.
pub proof fn lemma_b2_masks(k: int)
    requires
        1 <= k <= 16,
    ensures
        b2_mask(k).0 & b2_mask(k).1 == 0,
        b2_mask(k).2 & !b2_mask(k).1 == 0,
{
    assert(0x84200000u32 & 0x0a000820u32 == 0 && 0x00000000u32 & !0x0a000820u32 == 0
        && 0x8c000800u32 & 0x723f90e6u32 == 0 && 0x701f10c0u32 & !0x723f90e6u32 == 0
        && 0xbe1f0966u32 & 0x40201098u32 == 0 && 0x00000018u32 & !0x40201098u32 == 0
        && 0xba040010u32 & 0x443b1fefu32 == 0 && 0x00000601u32 & !0x443b1fefu32 == 0
        && 0x482f0e50u32 & 0xb41011afu32 == 0 && 0x00000000u32 & !0xb41011afu32 == 0
        && 0x04220c56u32 & 0x9a1113a9u32 == 0 && 0x00000000u32 & !0x9a1113a9u32 == 0
        && 0x96011e01u32 & 0x09b281c0u32 == 0 && 0x01808000u32 & !0x09b281c0u32 == 0
        && 0x843283c0u32 & 0x1b810003u32 == 0 && 0x00000002u32 & !0x1b810003u32 == 0
        && 0x9c0101c1u32 & 0x03829202u32 == 0 && 0x00001000u32 & !0x03829202u32 == 0
        && 0x878383c0u32 & 0x00041003u32 == 0 && 0x00000000u32 & !0x00041003u32 == 0
        && 0x800583c3u32 & 0x000a7000u32 == 0 && 0x00086000u32 & !0x000a7000u32 == 0
        && 0x80081080u32 & 0x7f07e000u32 == 0 && 0x7f000000u32 & !0x7f07e000u32 == 0
        && 0x3f0fe008u32 & 0x80000080u32 == 0 && 0x00000000u32 & !0x80000080u32 == 0
        && 0x400be088u32 & 0xbf040000u32 == 0 && 0x00000000u32 & !0xbf040000u32 == 0
        && 0x7d000000u32 & 0x82008008u32 == 0 && 0x00000000u32 & !0x82008008u32 == 0
        && 0x20000000u32 & 0x80000000u32 == 0 && 0x00000000u32 & !0x80000000u32 == 0) by (bit_vector);
}

/// A word made from a draw is one that the same masks keep as it is.
pub proof fn lemma_mask_fixed(d: u32, p: u32, o: u32, c: u32, keep: u32)
    requires
        o & c == 0,
        keep & !c == 0,
    ensures
        (((((d | o) & !c) | (p & keep)) | o) & !c) | (p & keep) == ((d | o) & !c) | (p & keep),
{
    assert((((((d | o) & !c) | (p & keep)) | o) & !c) | (p & keep) == ((d | o) & !c) | (p & keep)) by (bit_vector)
        requires
            o & c == 0,
            keep & !c == 0,
    ;
}

/// The masks of [`b2_mask`] for `Q[k]`, and the XOR difference that the
/// message word that step `k - 1` reads must carry.
pub fn b2_mask_exec(k: usize) -> (m: (u32, u32, u32, u32, u32))
    requires
        1 <= k <= 16,
    ensures
        (m.0, m.1, m.2, m.3) == b2_mask(k as int),
        m.4 == wang_delta(15 + k),
{
    if k == 1 {
        (0x84200000, 0x0a000820, 0x00000000, 0x7e000000, 0x00000000)
    }     else if k == 2 {
        (0x8c000800, 0x723f90e6, 0x701f10c0, 0x7dffffe0, 0x00000000)
    }     else if k == 3 {
        (0xbe1f0966, 0x40201098, 0x00000018, 0x7dfef7e0, 0x00000000)
    }     else if k == 4 {
        (0xba040010, 0x443b1fef, 0x00000601, 0x7dffffe2, 0x00000000)
    }     else if k == 5 {
        (0x482f0e50, 0xb41011af, 0x00000000, 0x7ffffcbf, 0x80000000)
    }     else if k == 6 {
        (0x04220c56, 0x9a1113a9, 0x00000000, 0x80110000, 0x00000000)
    }     else if k == 7 {
        (0x96011e01, 0x09b281c0, 0x01808000, 0x88000040, 0x00000000)
    }     else if k == 8 {
        (0x843283c0, 0x1b810003, 0x00000002, 0x80818000, 0x00000000)
    }     else if k == 9 {
        (0x9c0101c1, 0x03829202, 0x00001000, 0x7fffffbf, 0x00000000)
    }     else if k == 10 {
        (0x878383c0, 0x00041003, 0x00000000, 0x7ffff000, 0x00000000)
    }     else if k == 11 {
        (0x800583c3, 0x000a7000, 0x00086000, 0x80000000, 0x00000000)
    }     else if k == 12 {
        (0x80081080, 0x7f07e000, 0x7f000000, 0x80002080, 0x00008000)
    }     else if k == 13 {
        (0x3f0fe008, 0x80000080, 0x00000000, 0x7f000000, 0x00000000)
    }     else if k == 14 {
        (0x400be088, 0xbf040000, 0x00000000, 0x80000000, 0x00000000)
    }     else if k == 15 {
        (0x7d000000, 0x82008008, 0x00000000, 0x7fff7ff8, 0x80000000)
    } else {
        (0x20000000, 0x80000000, 0x00000000, 0xa0000000, 0x00000000)
    }
}

/// What the second-block search reads of its state between tries: `Q[0..=16]`
/// of both traces and both messages.
pub type B2View = (Seq<u32>, Seq<u32>, Seq<u32>, Seq<u32>);

/// The [`B2View`] of a state.
pub open spec fn b2_view(s: StateS) -> B2View {
    (s.q0@.subrange(0, 17), s.q1@.subrange(0, 17), s.x0@, s.x1@)
}

/// Placing `q` as `Q[k]` of `x0`'s second trace and `q - dq` as `x1`'s, with
/// the words that step `k - 1` then needs: the new view, and the two words.
pub open spec fn b2_place_next(cv0: Chain, cv1: Chain, v: B2View, k: int, q: u32, dq: u32) -> (B2View, u32, u32) {
    let q0 = v.0.update(k, q);
    let q1 = v.1.update(k, q.wrapping_sub(dq));
    let w0 = md5_unstep(k - 1, q_at(cv0, q0, k - 4), q_at(cv0, q0, k - 1), q_at(cv0, q0, k - 2), q_at(cv0, q0, k - 3), q);
    let w1 = md5_unstep(
        k - 1,
        q_at(cv1, q1, k - 4),
        q_at(cv1, q1, k - 1),
        q_at(cv1, q1, k - 2),
        q_at(cv1, q1, k - 3),
        q.wrapping_sub(dq),
    );
    ((q0, q1, v.2.update(15 + k, w0), v.3.update(15 + k, w1)), w0, w1)
}

/// One try of the first-round stage `k` with the drawn word `draw`: the new
/// view, and whether the two new words differ as the attack needs.
pub open spec fn b2_draw_next(cv0: Chain, cv1: Chain, v: B2View, k: int, draw: u32) -> (B2View, bool) {
    let (nv, w0, w1) = b2_place_next(cv0, cv1, v, k, b2_from_draw(k, draw, v.0[k - 1]), b2_mask(k).3);
    (nv, w1 == w0 ^ wang_delta(15 + k))
}

/// One try of the last stage with the drawn index `idx`: flips the bit
/// `MASK22[idx % 30]` of `Q[16]`; the new view, and whether every condition
/// of the second blocks held.
pub open spec fn b2_flip_next(cv0: Chain, cv1: Chain, v: B2View, idx: int) -> (B2View, bool) {
    let (nv, w0, w1) = b2_place_next(cv0, cv1, v, 16, v.0[16] ^ MASK22[idx % 30], 0xa0000000u32);
    let (m0, m1) = (nv.2.subrange(16, 32), nv.3.subrange(16, 32));
    (nv, w1 == w0 && b2_conds_16_20(cv0, m0, cv1, m1) && b2_conds_21_31(cv0, m0, cv1, m1)
        && b2_conds_32_47(cv0, m0, cv1, m1) && b2_conds_48_63(cv0, m0, cv1, m1))
}

/// Where a pass of the second-block search stands: its stage (1 to 16 for
/// the first-round words, 17 for the last stage, 18 once it found the
/// blocks, 19 for a try it could not make), how many tries that stage has
/// made, and the view.
pub type B2Pass = (int, int, B2View);

/// How many tries stage `k` of a pass may make.
pub open spec fn b2_limit(k: int) -> int {
    if k == 1 {
        MAX_TRIES as int
    } else if k == 16 {
        LOOP_21 as int
    } else if k == 17 {
        LOOP_22 as int
    } else {
        10
    }
}

/// A pass of the second-block search after one more drawn word.
pub open spec fn b2_on_draw(cv0: Chain, cv1: Chain, m: B2Pass, draw: u32) -> B2Pass {
    let (k, t, v) = m;
    if 1 <= k <= 16 && t < b2_limit(k) {
        let (nv, ok) = b2_draw_next(cv0, cv1, v, k, draw);
        let pass = if k == 16 {
            ok && b2_conds_16_20(cv0, nv.2.subrange(16, 32), cv1, nv.3.subrange(16, 32))
        } else {
            ok
        };
        if pass {
            (k + 1, 0, nv)
        } else {
            (k, t + 1, nv)
        }
    } else {
        (19, 0, v)
    }
}

/// A pass of the second-block search after one more drawn index.
pub open spec fn b2_on_index(cv0: Chain, cv1: Chain, m: B2Pass, idx: usize) -> B2Pass {
    let (k, t, v) = m;
    if k == 17 && t < b2_limit(17) {
        let (nv, ok) = b2_flip_next(cv0, cv1, v, idx as int);
        if ok {
            (18, t, nv)
        } else {
            (17, t + 1, nv)
        }
    } else {
        (19, 0, v)
    }
}

/// A pass after the drawn words `draws`, in order.
pub open spec fn b2_run_draws(cv0: Chain, cv1: Chain, m: B2Pass, draws: Seq<u32>) -> B2Pass
    decreases draws.len(),
{
    if draws.len() == 0 {
        m
    } else {
        b2_on_draw(cv0, cv1, b2_run_draws(cv0, cv1, m, draws.drop_last()), draws.last())
    }
}

/// A pass after the drawn indices `idxs`, in order.
pub open spec fn b2_run_indices(cv0: Chain, cv1: Chain, m: B2Pass, idxs: Seq<usize>) -> B2Pass
    decreases idxs.len(),
{
    if idxs.len() == 0 {
        m
    } else {
        b2_on_index(cv0, cv1, b2_run_indices(cv0, cv1, m, idxs.drop_last()), idxs.last())
    }
}

/// Where a pass from the view `v` ends that drew the words `draws` and then
/// the indices `idxs`.
pub open spec fn b2_pass_end(cv0: Chain, cv1: Chain, v: B2View, draws: Seq<u32>, idxs: Seq<usize>) -> B2Pass {
    b2_run_indices(cv0, cv1, b2_run_draws(cv0, cv1, (1, 0, v), draws), idxs)
}

/// The result of a pass that ended at `m`: 0 when it found the blocks, 1
/// when the first stage ran out of draws, [`C1_SPENT`] when the third stage
/// ran out, [`LAST_SPENT`] when the last stage ran out, [`AGAIN`] when
/// another stage ran out, and -2 when `m` is no end of a pass.
pub open spec fn b2_pass_code(m: B2Pass) -> i32 {
    let (k, t, v) = m;
    if k == 18 {
        0i32
    } else if k == 1 && t == b2_limit(1) {
        1i32
    } else if k == 3 && t == b2_limit(3) {
        C1_SPENT
    } else if 2 <= k <= 16 && t == b2_limit(k) {
        AGAIN
    } else if k == 17 && t == b2_limit(17) {
        LAST_SPENT
    } else {
        -2i32
    }
}

/// One try of a first-round stage of the second-block search: makes `Q[k]`
/// of `x0`'s second block from the drawn word `draw` with the masks of
/// [`b2_mask`], places it and `x1`'s as [`b2_place`] does, and tells whether
/// the message words that step `k - 1` reads differ as the attack needs.
pub fn b2_draw_stage(s: &mut StateS, k: usize, draw: u32) -> (ok: bool)
    requires
        1 <= k <= 16,
    ensures
        final(s).q0@ == old(s).q0@.update(k as int, b2_from_draw(k as int, draw, old(s).q0[k - 1])),
        final(s).q1@ == old(s).q1@.update(k as int, final(s).q0[k as int].wrapping_sub(b2_mask(k as int).3)),
        final(s).x0@ == old(s).x0@.update(15 + k, final(s).x0[15 + k]),
        final(s).x1@ == old(s).x1@.update(15 + k, final(s).x1[15 + k]),
        keeps_first_block(*old(s), *final(s)),
        final(s).x0[15 + k] == md5_unstep(
            k - 1,
            q_at(old(s).chain0(), final(s).q0@, k - 4),
            q_at(old(s).chain0(), final(s).q0@, k - 1),
            q_at(old(s).chain0(), final(s).q0@, k - 2),
            q_at(old(s).chain0(), final(s).q0@, k - 3),
            final(s).q0[k as int],
        ),
        final(s).x1[15 + k] == md5_unstep(
            k - 1,
            q_at(old(s).chain1(), final(s).q1@, k - 4),
            q_at(old(s).chain1(), final(s).q1@, k - 1),
            q_at(old(s).chain1(), final(s).q1@, k - 2),
            q_at(old(s).chain1(), final(s).q1@, k - 3),
            final(s).q1[k as int],
        ),
        ok == (final(s).x1[15 + k] == final(s).x0[15 + k] ^ wang_delta(15 + k)),
        b2_fits(*final(s), k as int),
        b2_round1_upto(*old(s), k - 1) ==> b2_round1_upto(*final(s), k as int),
        second_steps(*old(s), 0, k - 1) ==> second_steps(*final(s), 0, k as int),
        deltas_ok(old(s).x0@, old(s).x1@, 16, 15 + k) ==> deltas_ok(final(s).x0@, final(s).x1@, 16, 15 + k),
        ok && deltas_ok(old(s).x0@, old(s).x1@, 16, 15 + k) ==> deltas_ok(final(s).x0@, final(s).x1@, 16, 16 + k),
        b2_view(*final(s)) == b2_draw_next(old(s).chain0(), old(s).chain1(), b2_view(*old(s)), k as int, draw).0,
        ok == b2_draw_next(old(s).chain0(), old(s).chain1(), b2_view(*old(s)), k as int, draw).1,
{
    let m = b2_mask_exec(k);
    let v: u32 = ((draw | m.0) & !m.1) | (s.q0[k - 1] & m.2);
    let ghost before = *s;
    let ok = b2_place(s, k, v, m.3, m.4);
    proof {
        lemma_b2_masks(k as int);
        lemma_mask_fixed(draw, before.q0[k - 1], m.0, m.1, m.2);
        assert(s.q0[k - 1] == before.q0[k - 1]);
        assert(b2_fits(*s, k as int));
        let (nv, w0, w1) = b2_place_next(before.chain0(), before.chain1(), b2_view(before), k as int, v, m.3);
        assert(nv.0 =~= s.q0@.subrange(0, 17));
        assert(nv.1 =~= s.q1@.subrange(0, 17));
        assert(w0 == s.x0[15 + k]);
        assert(w1 == s.x1[15 + k]);
        assert(nv.2 =~= s.x0@);
        assert(nv.3 =~= s.x1@);
        if b2_round1_upto(before, k - 1) {
            assert forall|j: int| 1 <= j <= k implies #[trigger] b2_fits(*s, j) by {
                if j < k {
                    assert(b2_fits(before, j));
                    assert(s.q0[j] == before.q0[j]);
                    assert(s.q0[j - 1] == before.q0[j - 1]);
                    assert(s.q1[j] == before.q1[j]);
                }
            }
        }
    }
    ok
}

/// The conditions that steps 16 to 20 of both second blocks must meet.
#[verifier::opaque]
pub open spec fn b2_conds_16_20(cv0: Chain, m0: Seq<u32>, cv1: Chain, m1: Seq<u32>) -> bool {
    &&& (trace_word(cv0, m0, 17) & 0x80028008) == (trace_word(cv0, m0, 16) & 0x00008008)
    &&& (trace_word(cv0, m0, 17) ^ trace_word(cv1, m1, 17)) == 0x80000000
    &&& (trace_word(cv0, m0, 18) & 0xa0020000) == ((trace_word(cv0, m0, 17) & 0x20000000) | 0x00020000)
    &&& (trace_word(cv0, m0, 18) ^ trace_word(cv1, m1, 18)) == 0x80000000
    &&& (trace_word(cv0, m0, 19) & 0x80020000) == 0
    &&& (trace_word(cv0, m0, 19).wrapping_sub(trace_word(cv1, m1, 19))) == 0x7ffe0000
    &&& (trace_word(cv0, m0, 20) & 0x80000000) == 0
    &&& (trace_word(cv0, m0, 20) ^ trace_word(cv1, m1, 20)) == 0x80000000
    &&& (trace_word(cv0, m0, 21) & 0x80020000) == (trace_word(cv0, m0, 20) & 0x00020000)
    &&& (trace_word(cv0, m0, 21) ^ trace_word(cv1, m1, 21)) == 0x80000000
}

/// Runs steps 16 to 20 of both second blocks; tells whether they meet the
/// attack's conditions.
pub fn b2_steps_16_20(s: &mut StateS) -> (ok: bool)
    requires
        second_steps(*old(s), 0, 16),
    ensures
        final(s).x0 == old(s).x0,
        final(s).x1 == old(s).x1,
        forall|j: int| 0 <= j <= 16 ==> final(s).q0[j] == old(s).q0[j] && final(s).q1[j] == old(s).q1[j],
        keeps_first_block(*old(s), *final(s)),
        ok == b2_conds_16_20(old(s).chain0(), block_at(old(s).x0@, 16), old(s).chain1(), block_at(old(s).x1@, 16)),
        ok ==> second_steps(*final(s), 0, 21),
{
    let cv0 = (s.a0, s.b0, s.c0, s.d0);
    let cv1 = (s.a1, s.b1, s.c1, s.d1);
    proof {
        reveal(b2_conds_16_20);
    }
    proof {
        lemma_trace_word_at(cv0, s.q0@, block_at(s.x0@, 16), 16, 16);
        lemma_trace_word_at(cv1, s.q1@, block_at(s.x1@, 16), 16, 16);
        lemma_trace_word_at(cv0, s.q0@, block_at(s.x0@, 16), 15, 16);
        lemma_trace_word_at(cv1, s.q1@, block_at(s.x1@, 16), 15, 16);
        lemma_trace_word_at(cv0, s.q0@, block_at(s.x0@, 16), 14, 16);
        lemma_trace_word_at(cv1, s.q1@, block_at(s.x1@, 16), 14, 16);
    }
    /* A5 */
    forward_step(cv0, &mut s.q0, &s.x0, 16, 16);
    proof {
        lemma_trace_word_at(cv0, s.q0@, block_at(s.x0@, 16), 17, 17);
    }
    if (s.q0[17] & 0x80028008) != (s.q0[16] & 0x00008008) {
        return false;
    }
    forward_step(cv1, &mut s.q1, &s.x1, 16, 16);
    proof {
        lemma_trace_word_at(cv1, s.q1@, block_at(s.x1@, 16), 17, 17);
    }
    if (s.q0[17] ^ s.q1[17]) != 0x80000000 {
        return false;
    }
    /* D5 */
    forward_step(cv0, &mut s.q0, &s.x0, 16, 17);
    proof {
        lemma_trace_word_at(cv0, s.q0@, block_at(s.x0@, 16), 18, 18);
    }
    if (s.q0[18] & 0xa0020000) != ((s.q0[17] & 0x20000000) | 0x00020000) {
        return false;
    }
    forward_step(cv1, &mut s.q1, &s.x1, 16, 17);
    proof {
        lemma_trace_word_at(cv1, s.q1@, block_at(s.x1@, 16), 18, 18);
    }
    if (s.q0[18] ^ s.q1[18]) != 0x80000000 {
        return false;
    }
    /* C5 */
    forward_step(cv0, &mut s.q0, &s.x0, 16, 18);
    proof {
        lemma_trace_word_at(cv0, s.q0@, block_at(s.x0@, 16), 19, 19);
    }
    if s.q0[19] & 0x80020000 != 0 {
        return false;
    }
    forward_step(cv1, &mut s.q1, &s.x1, 16, 18);
    proof {
        lemma_trace_word_at(cv1, s.q1@, block_at(s.x1@, 16), 19, 19);
    }
    if (s.q0[19].wrapping_sub(s.q1[19])) != 0x7ffe0000 {
        return false;
    }
    /* B5 */
    forward_step(cv0, &mut s.q0, &s.x0, 16, 19);
    proof {
        lemma_trace_word_at(cv0, s.q0@, block_at(s.x0@, 16), 20, 20);
    }
    if s.q0[20] & 0x80000000 != 0 {
        return false;
    }
    forward_step(cv1, &mut s.q1, &s.x1, 16, 19);
    proof {
        lemma_trace_word_at(cv1, s.q1@, block_at(s.x1@, 16), 20, 20);
    }
    if (s.q0[20] ^ s.q1[20]) != 0x80000000 {
        return false;
    }
    /* A6 */
    forward_step(cv0, &mut s.q0, &s.x0, 16, 20);
    proof {
        lemma_trace_word_at(cv0, s.q0@, block_at(s.x0@, 16), 21, 21);
    }
    if (s.q0[21] & 0x80020000) != (s.q0[20] & 0x00020000) {
        return false;
    }
    forward_step(cv1, &mut s.q1, &s.x1, 16, 20);
    proof {
        lemma_trace_word_at(cv1, s.q1@, block_at(s.x1@, 16), 21, 21);
    }
    if (s.q0[21] ^ s.q1[21]) != 0x80000000 {
        return false;
    }
    true
}

/// The conditions that steps 21 to 31 of both second blocks must meet.
#[verifier::opaque]
pub open spec fn b2_conds_21_31(cv0: Chain, m0: Seq<u32>, cv1: Chain, m1: Seq<u32>) -> bool {
    &&& (trace_word(cv0, m0, 22) & 0x80000000) == 0
    &&& (trace_word(cv0, m0, 22) ^ trace_word(cv1, m1, 22)) == 0x80000000
    &&& (trace_word(cv0, m0, 23) & 0x80000000) == 0
    &&& trace_word(cv0, m0, 23) == trace_word(cv1, m1, 23)
    &&& trace_word(cv0, m0, 24) == trace_word(cv1, m1, 24)
    &&& trace_word(cv0, m0, 25) == trace_word(cv1, m1, 25)
    &&& trace_word(cv0, m0, 26) == trace_word(cv1, m1, 26)
    &&& trace_word(cv0, m0, 27) == trace_word(cv1, m1, 27)
    &&& trace_word(cv0, m0, 28) == trace_word(cv1, m1, 28)
    &&& trace_word(cv0, m0, 29) == trace_word(cv1, m1, 29)
    &&& trace_word(cv0, m0, 30) == trace_word(cv1, m1, 30)
    &&& trace_word(cv0, m0, 31) == trace_word(cv1, m1, 31)
    &&& trace_word(cv0, m0, 32) == trace_word(cv1, m1, 32)
}

/// Runs steps 21 to 31 of both second blocks; tells whether they meet the
/// attack's conditions.
pub fn b2_steps_21_31(s: &mut StateS) -> (ok: bool)
    requires
        second_steps(*old(s), 0, 21),
    ensures
        final(s).x0 == old(s).x0,
        final(s).x1 == old(s).x1,
        forall|j: int| 0 <= j <= 21 ==> final(s).q0[j] == old(s).q0[j] && final(s).q1[j] == old(s).q1[j],
        keeps_first_block(*old(s), *final(s)),
        ok == b2_conds_21_31(old(s).chain0(), block_at(old(s).x0@, 16), old(s).chain1(), block_at(old(s).x1@, 16)),
        ok ==> second_steps(*final(s), 0, 32),
{
    let cv0 = (s.a0, s.b0, s.c0, s.d0);
    let cv1 = (s.a1, s.b1, s.c1, s.d1);
    proof {
        reveal(b2_conds_21_31);
    }
    proof {
        lemma_trace_word_at(cv0, s.q0@, block_at(s.x0@, 16), 21, 21);
        lemma_trace_word_at(cv1, s.q1@, block_at(s.x1@, 16), 21, 21);
        lemma_trace_word_at(cv0, s.q0@, block_at(s.x0@, 16), 20, 21);
        lemma_trace_word_at(cv1, s.q1@, block_at(s.x1@, 16), 20, 21);
        lemma_trace_word_at(cv0, s.q0@, block_at(s.x0@, 16), 19, 21);
        lemma_trace_word_at(cv1, s.q1@, block_at(s.x1@, 16), 19, 21);
    }
    /* D6 */
    forward_step(cv0, &mut s.q0, &s.x0, 16, 21);
    proof {
        lemma_trace_word_at(cv0, s.q0@, block_at(s.x0@, 16), 22, 22);
    }
    if s.q0[22] & 0x80000000 != 0 {
        return false;
    }
    forward_step(cv1, &mut s.q1, &s.x1, 16, 21);
    proof {
        lemma_trace_word_at(cv1, s.q1@, block_at(s.x1@, 16), 22, 22);
    }
    if (s.q0[22] ^ s.q1[22]) != 0x80000000 {
        return false;
    }
    /* C6 */
    forward_step(cv0, &mut s.q0, &s.x0, 16, 22);
    proof {
        lemma_trace_word_at(cv0, s.q0@, block_at(s.x0@, 16), 23, 23);
    }
    if s.q0[23] & 0x80000000 != 0 {
        return false;
    }
    forward_step(cv1, &mut s.q1, &s.x1, 16, 22);
    proof {
        lemma_trace_word_at(cv1, s.q1@, block_at(s.x1@, 16), 23, 23);
    }
    if s.q0[23] != s.q1[23] {
        return false;
    }
    /* B6 */
    forward_step(cv0, &mut s.q0, &s.x0, 16, 23);
    proof {
        lemma_trace_word_at(cv0, s.q0@, block_at(s.x0@, 16), 24, 24);
    }
    forward_step(cv1, &mut s.q1, &s.x1, 16, 23);
    proof {
        lemma_trace_word_at(cv1, s.q1@, block_at(s.x1@, 16), 24, 24);
    }
    if s.q0[24] != s.q1[24] {
        return false;
    }
    /* A7 */
    forward_step(cv0, &mut s.q0, &s.x0, 16, 24);
    proof {
        lemma_trace_word_at(cv0, s.q0@, block_at(s.x0@, 16), 25, 25);
    }
    forward_step(cv1, &mut s.q1, &s.x1, 16, 24);
    proof {
        lemma_trace_word_at(cv1, s.q1@, block_at(s.x1@, 16), 25, 25);
    }
    if s.q0[25] != s.q1[25] {
        return false;
    }
    /* D7 */
    forward_step(cv0, &mut s.q0, &s.x0, 16, 25);
    proof {
        lemma_trace_word_at(cv0, s.q0@, block_at(s.x0@, 16), 26, 26);
    }
    forward_step(cv1, &mut s.q1, &s.x1, 16, 25);
    proof {
        lemma_trace_word_at(cv1, s.q1@, block_at(s.x1@, 16), 26, 26);
    }
    if s.q0[26] != s.q1[26] {
        return false;
    }
    /* C7 */
    forward_step(cv0, &mut s.q0, &s.x0, 16, 26);
    proof {
        lemma_trace_word_at(cv0, s.q0@, block_at(s.x0@, 16), 27, 27);
    }
    forward_step(cv1, &mut s.q1, &s.x1, 16, 26);
    proof {
        lemma_trace_word_at(cv1, s.q1@, block_at(s.x1@, 16), 27, 27);
    }
    if s.q0[27] != s.q1[27] {
        return false;
    }
    /* B7 */
    forward_step(cv0, &mut s.q0, &s.x0, 16, 27);
    proof {
        lemma_trace_word_at(cv0, s.q0@, block_at(s.x0@, 16), 28, 28);
    }
    forward_step(cv1, &mut s.q1, &s.x1, 16, 27);
    proof {
        lemma_trace_word_at(cv1, s.q1@, block_at(s.x1@, 16), 28, 28);
    }
    if s.q0[28] != s.q1[28] {
        return false;
    }
    /* A8 */
    forward_step(cv0, &mut s.q0, &s.x0, 16, 28);
    proof {
        lemma_trace_word_at(cv0, s.q0@, block_at(s.x0@, 16), 29, 29);
    }
    forward_step(cv1, &mut s.q1, &s.x1, 16, 28);
    proof {
        lemma_trace_word_at(cv1, s.q1@, block_at(s.x1@, 16), 29, 29);
    }
    if s.q0[29] != s.q1[29] {
        return false;
    }
    /* D8 */
    forward_step(cv0, &mut s.q0, &s.x0, 16, 29);
    proof {
        lemma_trace_word_at(cv0, s.q0@, block_at(s.x0@, 16), 30, 30);
    }
    forward_step(cv1, &mut s.q1, &s.x1, 16, 29);
    proof {
        lemma_trace_word_at(cv1, s.q1@, block_at(s.x1@, 16), 30, 30);
    }
    if s.q0[30] != s.q1[30] {
        return false;
    }
    /* C8 */
    forward_step(cv0, &mut s.q0, &s.x0, 16, 30);
    proof {
        lemma_trace_word_at(cv0, s.q0@, block_at(s.x0@, 16), 31, 31);
    }
    forward_step(cv1, &mut s.q1, &s.x1, 16, 30);
    proof {
        lemma_trace_word_at(cv1, s.q1@, block_at(s.x1@, 16), 31, 31);
    }
    if s.q0[31] != s.q1[31] {
        return false;
    }
    /* B8 */
    forward_step(cv0, &mut s.q0, &s.x0, 16, 31);
    proof {
        lemma_trace_word_at(cv0, s.q0@, block_at(s.x0@, 16), 32, 32);
    }
    forward_step(cv1, &mut s.q1, &s.x1, 16, 31);
    proof {
        lemma_trace_word_at(cv1, s.q1@, block_at(s.x1@, 16), 32, 32);
    }
    if s.q0[32] != s.q1[32] {
        return false;
    }
    true
}

/// The conditions that steps 32 to 47 of both second blocks must meet.
#[verifier::opaque]
pub open spec fn b2_conds_32_47(cv0: Chain, m0: Seq<u32>, cv1: Chain, m1: Seq<u32>) -> bool {
    &&& trace_word(cv0, m0, 33) == trace_word(cv1, m1, 33)
    &&& trace_word(cv0, m0, 34) == trace_word(cv1, m1, 34)
    &&& (trace_word(cv0, m0, 35) ^ trace_word(cv1, m1, 35)) == 0x80000000
    &&& (trace_word(cv0, m0, 36) ^ trace_word(cv1, m1, 36)) == 0x80000000
    &&& (trace_word(cv0, m0, 37) ^ trace_word(cv1, m1, 37)) == 0x80000000
    &&& (trace_word(cv0, m0, 38) ^ trace_word(cv1, m1, 38)) == 0x80000000
    &&& (trace_word(cv0, m0, 39) ^ trace_word(cv1, m1, 39)) == 0x80000000
    &&& (trace_word(cv0, m0, 40) ^ trace_word(cv1, m1, 40)) == 0x80000000
    &&& (trace_word(cv0, m0, 41) ^ trace_word(cv1, m1, 41)) == 0x80000000
    &&& (trace_word(cv0, m0, 42) ^ trace_word(cv1, m1, 42)) == 0x80000000
    &&& (trace_word(cv0, m0, 43) ^ trace_word(cv1, m1, 43)) == 0x80000000
    &&& (trace_word(cv0, m0, 44) ^ trace_word(cv1, m1, 44)) == 0x80000000
    &&& (trace_word(cv0, m0, 45) ^ trace_word(cv1, m1, 45)) == 0x80000000
    &&& (trace_word(cv0, m0, 46) ^ trace_word(cv1, m1, 46)) == 0x80000000
    &&& (trace_word(cv0, m0, 47) ^ trace_word(cv1, m1, 47)) == 0x80000000
    &&& (trace_word(cv0, m0, 48) & 0x80000000) == (trace_word(cv0, m0, 46) & 0x80000000)
    &&& (trace_word(cv0, m0, 48) ^ trace_word(cv1, m1, 48)) == 0x80000000
}

/// Runs steps 32 to 47 of both second blocks; tells whether they meet the
/// attack's conditions.
pub fn b2_steps_32_47(s: &mut StateS) -> (ok: bool)
    requires
        second_steps(*old(s), 0, 32),
    ensures
        final(s).x0 == old(s).x0,
        final(s).x1 == old(s).x1,
        forall|j: int| 0 <= j <= 32 ==> final(s).q0[j] == old(s).q0[j] && final(s).q1[j] == old(s).q1[j],
        keeps_first_block(*old(s), *final(s)),
        ok == b2_conds_32_47(old(s).chain0(), block_at(old(s).x0@, 16), old(s).chain1(), block_at(old(s).x1@, 16)),
        ok ==> second_steps(*final(s), 0, 48),
{
    let cv0 = (s.a0, s.b0, s.c0, s.d0);
    let cv1 = (s.a1, s.b1, s.c1, s.d1);
    proof {
        reveal(b2_conds_32_47);
    }
    proof {
        lemma_trace_word_at(cv0, s.q0@, block_at(s.x0@, 16), 32, 32);
        lemma_trace_word_at(cv1, s.q1@, block_at(s.x1@, 16), 32, 32);
        lemma_trace_word_at(cv0, s.q0@, block_at(s.x0@, 16), 31, 32);
        lemma_trace_word_at(cv1, s.q1@, block_at(s.x1@, 16), 31, 32);
        lemma_trace_word_at(cv0, s.q0@, block_at(s.x0@, 16), 30, 32);
        lemma_trace_word_at(cv1, s.q1@, block_at(s.x1@, 16), 30, 32);
    }
    /* A9 */
    forward_step(cv0, &mut s.q0, &s.x0, 16, 32);
    proof {
        lemma_trace_word_at(cv0, s.q0@, block_at(s.x0@, 16), 33, 33);
    }
    forward_step(cv1, &mut s.q1, &s.x1, 16, 32);
    proof {
        lemma_trace_word_at(cv1, s.q1@, block_at(s.x1@, 16), 33, 33);
    }
    if s.q0[33] != s.q1[33] {
        return false;
    }
    /* D9 */
    forward_step(cv0, &mut s.q0, &s.x0, 16, 33);
    proof {
        lemma_trace_word_at(cv0, s.q0@, block_at(s.x0@, 16), 34, 34);
    }
    forward_step(cv1, &mut s.q1, &s.x1, 16, 33);
    proof {
        lemma_trace_word_at(cv1, s.q1@, block_at(s.x1@, 16), 34, 34);
    }
    if s.q0[34] != s.q1[34] {
        return false;
    }
    /* C9 */
    forward_step(cv0, &mut s.q0, &s.x0, 16, 34);
    proof {
        lemma_trace_word_at(cv0, s.q0@, block_at(s.x0@, 16), 35, 35);
    }
    forward_step(cv1, &mut s.q1, &s.x1, 16, 34);
    proof {
        lemma_trace_word_at(cv1, s.q1@, block_at(s.x1@, 16), 35, 35);
    }
    if (s.q0[35] ^ s.q1[35]) != 0x80000000 {
        return false;
    }
    /* B9 */
    forward_step(cv0, &mut s.q0, &s.x0, 16, 35);
    proof {
        lemma_trace_word_at(cv0, s.q0@, block_at(s.x0@, 16), 36, 36);
    }
    forward_step(cv1, &mut s.q1, &s.x1, 16, 35);
    proof {
        lemma_trace_word_at(cv1, s.q1@, block_at(s.x1@, 16), 36, 36);
    }
    if (s.q0[36] ^ s.q1[36]) != 0x80000000 {
        return false;
    }
    /* A10 */
    forward_step(cv0, &mut s.q0, &s.x0, 16, 36);
    proof {
        lemma_trace_word_at(cv0, s.q0@, block_at(s.x0@, 16), 37, 37);
    }
    forward_step(cv1, &mut s.q1, &s.x1, 16, 36);
    proof {
        lemma_trace_word_at(cv1, s.q1@, block_at(s.x1@, 16), 37, 37);
    }
    if (s.q0[37] ^ s.q1[37]) != 0x80000000 {
        return false;
    }
    /* D10 */
    forward_step(cv0, &mut s.q0, &s.x0, 16, 37);
    proof {
        lemma_trace_word_at(cv0, s.q0@, block_at(s.x0@, 16), 38, 38);
    }
    forward_step(cv1, &mut s.q1, &s.x1, 16, 37);
    proof {
        lemma_trace_word_at(cv1, s.q1@, block_at(s.x1@, 16), 38, 38);
    }
    if (s.q0[38] ^ s.q1[38]) != 0x80000000 {
        return false;
    }
    /* C10 */
    forward_step(cv0, &mut s.q0, &s.x0, 16, 38);
    proof {
        lemma_trace_word_at(cv0, s.q0@, block_at(s.x0@, 16), 39, 39);
    }
    forward_step(cv1, &mut s.q1, &s.x1, 16, 38);
    proof {
        lemma_trace_word_at(cv1, s.q1@, block_at(s.x1@, 16), 39, 39);
    }
    if (s.q0[39] ^ s.q1[39]) != 0x80000000 {
        return false;
    }
    /* B10 */
    forward_step(cv0, &mut s.q0, &s.x0, 16, 39);
    proof {
        lemma_trace_word_at(cv0, s.q0@, block_at(s.x0@, 16), 40, 40);
    }
    forward_step(cv1, &mut s.q1, &s.x1, 16, 39);
    proof {
        lemma_trace_word_at(cv1, s.q1@, block_at(s.x1@, 16), 40, 40);
    }
    if (s.q0[40] ^ s.q1[40]) != 0x80000000 {
        return false;
    }
    /* A11 */
    forward_step(cv0, &mut s.q0, &s.x0, 16, 40);
    proof {
        lemma_trace_word_at(cv0, s.q0@, block_at(s.x0@, 16), 41, 41);
    }
    forward_step(cv1, &mut s.q1, &s.x1, 16, 40);
    proof {
        lemma_trace_word_at(cv1, s.q1@, block_at(s.x1@, 16), 41, 41);
    }
    if (s.q0[41] ^ s.q1[41]) != 0x80000000 {
        return false;
    }
    /* D11 */
    forward_step(cv0, &mut s.q0, &s.x0, 16, 41);
    proof {
        lemma_trace_word_at(cv0, s.q0@, block_at(s.x0@, 16), 42, 42);
    }
    forward_step(cv1, &mut s.q1, &s.x1, 16, 41);
    proof {
        lemma_trace_word_at(cv1, s.q1@, block_at(s.x1@, 16), 42, 42);
    }
    if (s.q0[42] ^ s.q1[42]) != 0x80000000 {
        return false;
    }
    /* C11 */
    forward_step(cv0, &mut s.q0, &s.x0, 16, 42);
    proof {
        lemma_trace_word_at(cv0, s.q0@, block_at(s.x0@, 16), 43, 43);
    }
    forward_step(cv1, &mut s.q1, &s.x1, 16, 42);
    proof {
        lemma_trace_word_at(cv1, s.q1@, block_at(s.x1@, 16), 43, 43);
    }
    if (s.q0[43] ^ s.q1[43]) != 0x80000000 {
        return false;
    }
    /* B11 */
    forward_step(cv0, &mut s.q0, &s.x0, 16, 43);
    proof {
        lemma_trace_word_at(cv0, s.q0@, block_at(s.x0@, 16), 44, 44);
    }
    forward_step(cv1, &mut s.q1, &s.x1, 16, 43);
    proof {
        lemma_trace_word_at(cv1, s.q1@, block_at(s.x1@, 16), 44, 44);
    }
    if (s.q0[44] ^ s.q1[44]) != 0x80000000 {
        return false;
    }
    /* A12 */
    forward_step(cv0, &mut s.q0, &s.x0, 16, 44);
    proof {
        lemma_trace_word_at(cv0, s.q0@, block_at(s.x0@, 16), 45, 45);
    }
    forward_step(cv1, &mut s.q1, &s.x1, 16, 44);
    proof {
        lemma_trace_word_at(cv1, s.q1@, block_at(s.x1@, 16), 45, 45);
    }
    if (s.q0[45] ^ s.q1[45]) != 0x80000000 {
        return false;
    }
    /* D12 */
    forward_step(cv0, &mut s.q0, &s.x0, 16, 45);
    proof {
        lemma_trace_word_at(cv0, s.q0@, block_at(s.x0@, 16), 46, 46);
    }
    forward_step(cv1, &mut s.q1, &s.x1, 16, 45);
    proof {
        lemma_trace_word_at(cv1, s.q1@, block_at(s.x1@, 16), 46, 46);
    }
    if (s.q0[46] ^ s.q1[46]) != 0x80000000 {
        return false;
    }
    /* C12 */
    forward_step(cv0, &mut s.q0, &s.x0, 16, 46);
    proof {
        lemma_trace_word_at(cv0, s.q0@, block_at(s.x0@, 16), 47, 47);
    }
    forward_step(cv1, &mut s.q1, &s.x1, 16, 46);
    proof {
        lemma_trace_word_at(cv1, s.q1@, block_at(s.x1@, 16), 47, 47);
    }
    if (s.q0[47] ^ s.q1[47]) != 0x80000000 {
        return false;
    }
    /* B12 */
    forward_step(cv0, &mut s.q0, &s.x0, 16, 47);
    proof {
        lemma_trace_word_at(cv0, s.q0@, block_at(s.x0@, 16), 48, 48);
    }
    if (s.q0[48] & 0x80000000) != (s.q0[46] & 0x80000000) {
        return false;
    }
    forward_step(cv1, &mut s.q1, &s.x1, 16, 47);
    proof {
        lemma_trace_word_at(cv1, s.q1@, block_at(s.x1@, 16), 48, 48);
    }
    if (s.q0[48] ^ s.q1[48]) != 0x80000000 {
        return false;
    }
    true
}

/// The conditions that steps 48 to 63 of both second blocks must meet.
#[verifier::opaque]
pub open spec fn b2_conds_48_63(cv0: Chain, m0: Seq<u32>, cv1: Chain, m1: Seq<u32>) -> bool {
    &&& (trace_word(cv0, m0, 49) & 0x80000000) == (trace_word(cv0, m0, 47) & 0x80000000)
    &&& (trace_word(cv0, m0, 49) ^ trace_word(cv1, m1, 49)) == 0x80000000
    &&& (trace_word(cv0, m0, 50) ^ trace_word(cv1, m1, 50)) == 0x80000000
    &&& (trace_word(cv0, m0, 51) & 0x80000000) == (trace_word(cv0, m0, 49) & 0x80000000)
    &&& (trace_word(cv0, m0, 51) ^ trace_word(cv1, m1, 51)) == 0x80000000
    &&& (trace_word(cv0, m0, 52) & 0x80000000) == (trace_word(cv0, m0, 50) & 0x80000000)
    &&& (trace_word(cv0, m0, 52) ^ trace_word(cv1, m1, 52)) == 0x80000000
    &&& (trace_word(cv0, m0, 53) & 0x80000000) == (trace_word(cv0, m0, 51) & 0x80000000)
    &&& (trace_word(cv0, m0, 53) ^ trace_word(cv1, m1, 53)) == 0x80000000
    &&& (trace_word(cv0, m0, 54) & 0x80000000) == (trace_word(cv0, m0, 52) & 0x80000000)
    &&& (trace_word(cv0, m0, 54) ^ trace_word(cv1, m1, 54)) == 0x80000000
    &&& (trace_word(cv0, m0, 55) & 0x80000000) == (trace_word(cv0, m0, 53) & 0x80000000)
    &&& (trace_word(cv0, m0, 55) ^ trace_word(cv1, m1, 55)) == 0x80000000
    &&& (trace_word(cv0, m0, 56) & 0x80000000) == (trace_word(cv0, m0, 54) & 0x80000000)
    &&& (trace_word(cv0, m0, 56) ^ trace_word(cv1, m1, 56)) == 0x80000000
    &&& (trace_word(cv0, m0, 57) & 0x80000000) == (trace_word(cv0, m0, 55) & 0x80000000)
    &&& (trace_word(cv0, m0, 57) ^ trace_word(cv1, m1, 57)) == 0x80000000
    &&& (trace_word(cv0, m0, 58) & 0x80000000) == (trace_word(cv0, m0, 56) & 0x80000000)
    &&& (trace_word(cv0, m0, 58) ^ trace_word(cv1, m1, 58)) == 0x80000000
    &&& (trace_word(cv0, m0, 59) & 0x80000000) == (trace_word(cv0, m0, 57) & 0x80000000)
    &&& (trace_word(cv0, m0, 59) ^ trace_word(cv1, m1, 59)) == 0x80000000
    &&& (trace_word(cv0, m0, 60) ^ trace_word(cv1, m1, 60)) == 0x80000000
    &&& (trace_word(cv0, m0, 61) ^ trace_word(cv1, m1, 61)) == 0x80000000
    &&& (cv0.0.wrapping_add(trace_word(cv0, m0, 61))) == (cv1.0.wrapping_add(trace_word(cv1, m1, 61)))
    &&& (cv0.3.wrapping_add(trace_word(cv0, m0, 62))) == (cv1.3.wrapping_add(trace_word(cv1, m1, 62)))
    &&& (cv0.2.wrapping_add(trace_word(cv0, m0, 63))) == (cv1.2.wrapping_add(trace_word(cv1, m1, 63)))
    &&& (cv0.1.wrapping_add(trace_word(cv0, m0, 64))) == (cv1.1.wrapping_add(trace_word(cv1, m1, 64)))
}

/// Runs steps 48 to 63 of both second blocks; tells whether they meet the
/// attack's conditions.
pub fn b2_steps_48_63(s: &mut StateS) -> (ok: bool)
    requires
        second_steps(*old(s), 0, 48),
    ensures
        final(s).x0 == old(s).x0,
        final(s).x1 == old(s).x1,
        forall|j: int| 0 <= j <= 48 ==> final(s).q0[j] == old(s).q0[j] && final(s).q1[j] == old(s).q1[j],
        keeps_first_block(*old(s), *final(s)),
        ok == b2_conds_48_63(old(s).chain0(), block_at(old(s).x0@, 16), old(s).chain1(), block_at(old(s).x1@, 16)),
        ok ==> second_steps(*final(s), 0, 64),
        ok ==> final(s).a0.wrapping_add(final(s).q0[61]) == final(s).a1.wrapping_add(final(s).q1[61]),
        ok ==> final(s).d0.wrapping_add(final(s).q0[62]) == final(s).d1.wrapping_add(final(s).q1[62]),
        ok ==> final(s).c0.wrapping_add(final(s).q0[63]) == final(s).c1.wrapping_add(final(s).q1[63]),
        ok ==> final(s).b0.wrapping_add(final(s).q0[64]) == final(s).b1.wrapping_add(final(s).q1[64]),
{
    let cv0 = (s.a0, s.b0, s.c0, s.d0);
    let cv1 = (s.a1, s.b1, s.c1, s.d1);
    proof {
        reveal(b2_conds_48_63);
    }
    proof {
        lemma_trace_word_at(cv0, s.q0@, block_at(s.x0@, 16), 48, 48);
        lemma_trace_word_at(cv1, s.q1@, block_at(s.x1@, 16), 48, 48);
        lemma_trace_word_at(cv0, s.q0@, block_at(s.x0@, 16), 47, 48);
        lemma_trace_word_at(cv1, s.q1@, block_at(s.x1@, 16), 47, 48);
        lemma_trace_word_at(cv0, s.q0@, block_at(s.x0@, 16), 46, 48);
        lemma_trace_word_at(cv1, s.q1@, block_at(s.x1@, 16), 46, 48);
    }
    /* A13 */
    forward_step(cv0, &mut s.q0, &s.x0, 16, 48);
    proof {
        lemma_trace_word_at(cv0, s.q0@, block_at(s.x0@, 16), 49, 49);
    }
    if (s.q0[49] & 0x80000000) != (s.q0[47] & 0x80000000) {
        return false;
    }
    forward_step(cv1, &mut s.q1, &s.x1, 16, 48);
    proof {
        lemma_trace_word_at(cv1, s.q1@, block_at(s.x1@, 16), 49, 49);
    }
    if (s.q0[49] ^ s.q1[49]) != 0x80000000 {
        return false;
    }
    /* D13 */
    forward_step(cv0, &mut s.q0, &s.x0, 16, 49);
    proof {
        lemma_trace_word_at(cv0, s.q0@, block_at(s.x0@, 16), 50, 50);
    }
    forward_step(cv1, &mut s.q1, &s.x1, 16, 49);
    proof {
        lemma_trace_word_at(cv1, s.q1@, block_at(s.x1@, 16), 50, 50);
    }
    if (s.q0[50] ^ s.q1[50]) != 0x80000000 {
        return false;
    }
    /* C13 */
    forward_step(cv0, &mut s.q0, &s.x0, 16, 50);
    proof {
        lemma_trace_word_at(cv0, s.q0@, block_at(s.x0@, 16), 51, 51);
    }
    if (s.q0[51] & 0x80000000) != (s.q0[49] & 0x80000000) {
        return false;
    }
    forward_step(cv1, &mut s.q1, &s.x1, 16, 50);
    proof {
        lemma_trace_word_at(cv1, s.q1@, block_at(s.x1@, 16), 51, 51);
    }
    if (s.q0[51] ^ s.q1[51]) != 0x80000000 {
        return false;
    }
    /* B13 */
    forward_step(cv0, &mut s.q0, &s.x0, 16, 51);
    proof {
        lemma_trace_word_at(cv0, s.q0@, block_at(s.x0@, 16), 52, 52);
    }
    if (s.q0[52] & 0x80000000) != (s.q0[50] & 0x80000000) {
        return false;
    }
    forward_step(cv1, &mut s.q1, &s.x1, 16, 51);
    proof {
        lemma_trace_word_at(cv1, s.q1@, block_at(s.x1@, 16), 52, 52);
    }
    if (s.q0[52] ^ s.q1[52]) != 0x80000000 {
        return false;
    }
    /* A14 */
    forward_step(cv0, &mut s.q0, &s.x0, 16, 52);
    proof {
        lemma_trace_word_at(cv0, s.q0@, block_at(s.x0@, 16), 53, 53);
    }
    if (s.q0[53] & 0x80000000) != (s.q0[51] & 0x80000000) {
        return false;
    }
    forward_step(cv1, &mut s.q1, &s.x1, 16, 52);
    proof {
        lemma_trace_word_at(cv1, s.q1@, block_at(s.x1@, 16), 53, 53);
    }
    if (s.q0[53] ^ s.q1[53]) != 0x80000000 {
        return false;
    }
    /* D14 */
    forward_step(cv0, &mut s.q0, &s.x0, 16, 53);
    proof {
        lemma_trace_word_at(cv0, s.q0@, block_at(s.x0@, 16), 54, 54);
    }
    if (s.q0[54] & 0x80000000) != (s.q0[52] & 0x80000000) {
        return false;
    }
    forward_step(cv1, &mut s.q1, &s.x1, 16, 53);
    proof {
        lemma_trace_word_at(cv1, s.q1@, block_at(s.x1@, 16), 54, 54);
    }
    if (s.q0[54] ^ s.q1[54]) != 0x80000000 {
        return false;
    }
    /* C14 */
    forward_step(cv0, &mut s.q0, &s.x0, 16, 54);
    proof {
        lemma_trace_word_at(cv0, s.q0@, block_at(s.x0@, 16), 55, 55);
    }
    if (s.q0[55] & 0x80000000) != (s.q0[53] & 0x80000000) {
        return false;
    }
    forward_step(cv1, &mut s.q1, &s.x1, 16, 54);
    proof {
        lemma_trace_word_at(cv1, s.q1@, block_at(s.x1@, 16), 55, 55);
    }
    if (s.q0[55] ^ s.q1[55]) != 0x80000000 {
        return false;
    }
    /* B14 */
    forward_step(cv0, &mut s.q0, &s.x0, 16, 55);
    proof {
        lemma_trace_word_at(cv0, s.q0@, block_at(s.x0@, 16), 56, 56);
    }
    if (s.q0[56] & 0x80000000) != (s.q0[54] & 0x80000000) {
        return false;
    }
    forward_step(cv1, &mut s.q1, &s.x1, 16, 55);
    proof {
        lemma_trace_word_at(cv1, s.q1@, block_at(s.x1@, 16), 56, 56);
    }
    if (s.q0[56] ^ s.q1[56]) != 0x80000000 {
        return false;
    }
    /* A15 */
    forward_step(cv0, &mut s.q0, &s.x0, 16, 56);
    proof {
        lemma_trace_word_at(cv0, s.q0@, block_at(s.x0@, 16), 57, 57);
    }
    if (s.q0[57] & 0x80000000) != (s.q0[55] & 0x80000000) {
        return false;
    }
    forward_step(cv1, &mut s.q1, &s.x1, 16, 56);
    proof {
        lemma_trace_word_at(cv1, s.q1@, block_at(s.x1@, 16), 57, 57);
    }
    if (s.q0[57] ^ s.q1[57]) != 0x80000000 {
        return false;
    }
    /* D15 */
    forward_step(cv0, &mut s.q0, &s.x0, 16, 57);
    proof {
        lemma_trace_word_at(cv0, s.q0@, block_at(s.x0@, 16), 58, 58);
    }
    if (s.q0[58] & 0x80000000) != (s.q0[56] & 0x80000000) {
        return false;
    }
    forward_step(cv1, &mut s.q1, &s.x1, 16, 57);
    proof {
        lemma_trace_word_at(cv1, s.q1@, block_at(s.x1@, 16), 58, 58);
    }
    if (s.q0[58] ^ s.q1[58]) != 0x80000000 {
        return false;
    }
    /* C15 */
    forward_step(cv0, &mut s.q0, &s.x0, 16, 58);
    proof {
        lemma_trace_word_at(cv0, s.q0@, block_at(s.x0@, 16), 59, 59);
    }
    if (s.q0[59] & 0x80000000) != (s.q0[57] & 0x80000000) {
        return false;
    }
    forward_step(cv1, &mut s.q1, &s.x1, 16, 58);
    proof {
        lemma_trace_word_at(cv1, s.q1@, block_at(s.x1@, 16), 59, 59);
    }
    if (s.q0[59] ^ s.q1[59]) != 0x80000000 {
        return false;
    }
    /* B15 */
    forward_step(cv0, &mut s.q0, &s.x0, 16, 59);
    proof {
        lemma_trace_word_at(cv0, s.q0@, block_at(s.x0@, 16), 60, 60);
    }
    forward_step(cv1, &mut s.q1, &s.x1, 16, 59);
    proof {
        lemma_trace_word_at(cv1, s.q1@, block_at(s.x1@, 16), 60, 60);
    }
    if (s.q0[60] ^ s.q1[60]) != 0x80000000 {
        return false;
    }
    /* A16 */
    forward_step(cv0, &mut s.q0, &s.x0, 16, 60);
    proof {
        lemma_trace_word_at(cv0, s.q0@, block_at(s.x0@, 16), 61, 61);
    }
    forward_step(cv1, &mut s.q1, &s.x1, 16, 60);
    proof {
        lemma_trace_word_at(cv1, s.q1@, block_at(s.x1@, 16), 61, 61);
    }
    if (s.q0[61] ^ s.q1[61]) != 0x80000000 {
        return false;
    }
    if (s.a0.wrapping_add(s.q0[61])) != (s.a1.wrapping_add(s.q1[61])) {
        return false;
    }
    /* D16 */
    forward_step(cv0, &mut s.q0, &s.x0, 16, 61);
    proof {
        lemma_trace_word_at(cv0, s.q0@, block_at(s.x0@, 16), 62, 62);
    }
    forward_step(cv1, &mut s.q1, &s.x1, 16, 61);
    proof {
        lemma_trace_word_at(cv1, s.q1@, block_at(s.x1@, 16), 62, 62);
    }
    if (s.d0.wrapping_add(s.q0[62])) != (s.d1.wrapping_add(s.q1[62])) {
        return false;
    }
    /* C16 */
    forward_step(cv0, &mut s.q0, &s.x0, 16, 62);
    proof {
        lemma_trace_word_at(cv0, s.q0@, block_at(s.x0@, 16), 63, 63);
    }
    forward_step(cv1, &mut s.q1, &s.x1, 16, 62);
    proof {
        lemma_trace_word_at(cv1, s.q1@, block_at(s.x1@, 16), 63, 63);
    }
    if (s.c0.wrapping_add(s.q0[63])) != (s.c1.wrapping_add(s.q1[63])) {
        return false;
    }
    /* B16 */
    forward_step(cv0, &mut s.q0, &s.x0, 16, 63);
    proof {
        lemma_trace_word_at(cv0, s.q0@, block_at(s.x0@, 16), 64, 64);
    }
    forward_step(cv1, &mut s.q1, &s.x1, 16, 63);
    proof {
        lemma_trace_word_at(cv1, s.q1@, block_at(s.x1@, 16), 64, 64);
    }
    if (s.b0.wrapping_add(s.q0[64])) != (s.b1.wrapping_add(s.q1[64])) {
        return false;
    }
    true
}

/// The second blocks that the last stage tries after flipping the bit
/// `MASK22[idx]` of `Q[16]`: the word 15 of each is set anew so that step
/// 15 yields the new `Q[16]`.
pub open spec fn b2_stage4_blocks(s: StateS, idx: int) -> (Seq<u32>, Seq<u32>) {
    let v = s.q0[16] ^ MASK22[idx];
    let w0 = md5_unstep(15, s.q0[12], s.q0[15], s.q0[14], s.q0[13], v);
    let w1 = md5_unstep(15, s.q1[12], s.q1[15], s.q1[14], s.q1[13], v.wrapping_sub(0xa0000000u32));
    (block_at(s.x0@, 16).update(15, w0), block_at(s.x1@, 16).update(15, w1))
}

/// The conditions of the last stage of the second-block search, for the
/// bit `MASK22[idx]`.
pub open spec fn b2_stage4_conds(s: StateS, idx: int) -> bool {
    let (m0, m1) = b2_stage4_blocks(s, idx);
    &&& m1[15] == m0[15] ^ 0
    &&& b2_conds_16_20(s.chain0(), m0, s.chain1(), m1)
    &&& b2_conds_21_31(s.chain0(), m0, s.chain1(), m1)
    &&& b2_conds_32_47(s.chain0(), m0, s.chain1(), m1)
    &&& b2_conds_48_63(s.chain0(), m0, s.chain1(), m1)
}

/// No mask of [`MASK22`] touches bit 29 or bit 31 of `Q[16]`, which the
/// first round fixes.
pub proof fn lemma_mask22_keeps_top(idx: int)
    requires
        0 <= idx < 30,
    ensures
        MASK22[idx] & 0xa0000000u32 == 0,
{
    assert(0x00000001u32 & 0xa0000000u32 == 0
        && 0x00000002u32 & 0xa0000000u32 == 0
        && 0x00000004u32 & 0xa0000000u32 == 0
        && 0x00000008u32 & 0xa0000000u32 == 0
        && 0x00000010u32 & 0xa0000000u32 == 0
        && 0x00000020u32 & 0xa0000000u32 == 0
        && 0x00000040u32 & 0xa0000000u32 == 0
        && 0x00000080u32 & 0xa0000000u32 == 0
        && 0x00000100u32 & 0xa0000000u32 == 0
        && 0x00000200u32 & 0xa0000000u32 == 0
        && 0x00000400u32 & 0xa0000000u32 == 0
        && 0x00000800u32 & 0xa0000000u32 == 0
        && 0x00001000u32 & 0xa0000000u32 == 0
        && 0x00002000u32 & 0xa0000000u32 == 0
        && 0x00004000u32 & 0xa0000000u32 == 0
        && 0x00008000u32 & 0xa0000000u32 == 0
        && 0x00010000u32 & 0xa0000000u32 == 0
        && 0x00020000u32 & 0xa0000000u32 == 0
        && 0x00040000u32 & 0xa0000000u32 == 0
        && 0x00080000u32 & 0xa0000000u32 == 0
        && 0x00100000u32 & 0xa0000000u32 == 0
        && 0x00200000u32 & 0xa0000000u32 == 0
        && 0x00400000u32 & 0xa0000000u32 == 0
        && 0x00800000u32 & 0xa0000000u32 == 0
        && 0x01000000u32 & 0xa0000000u32 == 0
        && 0x02000000u32 & 0xa0000000u32 == 0
        && 0x04000000u32 & 0xa0000000u32 == 0
        && 0x08000000u32 & 0xa0000000u32 == 0
        && 0x10000000u32 & 0xa0000000u32 == 0
        && 0x40000000u32 & 0xa0000000u32 == 0) by (bit_vector);
    assert(MASK22@ =~= seq![0x00000001u32, 0x00000002u32, 0x00000004u32, 0x00000008u32, 0x00000010u32, 0x00000020u32, 0x00000040u32, 0x00000080u32, 0x00000100u32, 0x00000200u32, 0x00000400u32, 0x00000800u32, 0x00001000u32, 0x00002000u32, 0x00004000u32, 0x00008000u32, 0x00010000u32, 0x00020000u32, 0x00040000u32, 0x00080000u32, 0x00100000u32, 0x00200000u32, 0x00400000u32, 0x00800000u32, 0x01000000u32, 0x02000000u32, 0x04000000u32, 0x08000000u32, 0x10000000u32, 0x40000000u32]);
}

/// Flipping a bit of `Q[16]` that its conditions leave free keeps them.
pub proof fn lemma_flip_fits(x: u32, m: u32, p: u32)
    requires
        x == ((x | 0x20000000u32) & !0x80000000u32) | (p & 0u32),
        m & 0xa0000000u32 == 0,
    ensures
        (x ^ m) == (((x ^ m) | 0x20000000u32) & !0x80000000u32) | (p & 0u32),
{
    assert((x ^ m) == (((x ^ m) | 0x20000000u32) & !0x80000000u32) | (p & 0u32)) by (bit_vector)
        requires
            x == ((x | 0x20000000u32) & !0x80000000u32) | (p & 0u32),
            m & 0xa0000000u32 == 0,
    ;
}

/// What the last stage builds on carries over to a state that agrees on the
/// chaining values, the messages and `Q[..=16]`.
pub proof fn lemma_last_stage_kept(s1: StateS, s2: StateS)
    requires
        s2.chain0() == s1.chain0(),
        s2.chain1() == s1.chain1(),
        s2.x0 == s1.x0,
        s2.x1 == s1.x1,
        forall|j: int| 0 <= j <= 16 ==> s2.q0[j] == s1.q0[j] && s2.q1[j] == s1.q1[j],
    ensures
        second_steps(s1, 0, 15) ==> second_steps(s2, 0, 15),
        b2_round1_upto(s1, 16) ==> b2_round1_upto(s2, 16),
        b2_view(s2) == b2_view(s1),
{
    if second_steps(s1, 0, 15) {
        lemma_second_steps_frame(s1, s2, 0, 15);
    }
    if b2_round1_upto(s1, 16) {
        lemma_round1_frame(s1, s2, 16);
    }
    assert(b2_view(s2).0 =~= b2_view(s1).0);
    assert(b2_view(s2).1 =~= b2_view(s1).1);
}

/// One try of the last stage of the second-block search: flips the bit
/// `MASK22[idx]` of `Q[16]`, sets the last word that round 1 needs and runs
/// the other 48 steps; tells whether every condition held.
pub fn b2_loop22_body(s: &mut StateS, idx: usize) -> (ok: bool)
    requires
        idx < 30,
        second_steps(*old(s), 0, 15),
        deltas_ok(old(s).x0@, old(s).x1@, 16, 31),
    ensures
        keeps_first_block(*old(s), *final(s)),
        second_steps(*final(s), 0, 15),
        deltas_ok(final(s).x0@, final(s).x1@, 16, 31),
        ok == b2_stage4_conds(*old(s), idx as int),
        ok ==> second_block_done(*final(s)),
        ok ==> second_block_conds(*final(s)),
        b2_round1_upto(*old(s), 16) ==> b2_round1_upto(*final(s), 16),
        b2_view(*final(s)) == b2_flip_next(old(s).chain0(), old(s).chain1(), b2_view(*old(s)), idx as int).0,
        ok == b2_flip_next(old(s).chain0(), old(s).chain1(), b2_view(*old(s)), idx as int).1,
        final(s).q0[16] == old(s).q0[16] ^ MASK22[idx as int],
        final(s).q1[16] == final(s).q0[16].wrapping_sub(0xa0000000u32),
{
    /* B4 */
    let v: u32 = s.q0[16] ^ MASK22[idx];
    let placed_ok = b2_place(s, 16, v, 0xa0000000, 0);
    proof {
        if b2_round1_upto(*old(s), 16) {
            assert(b2_fits(*old(s), 16));
            lemma_mask22_keeps_top(idx as int);
            lemma_flip_fits(old(s).q0[16], MASK22[idx as int], old(s).q0[15]);
            assert forall|j: int| 1 <= j <= 16 implies #[trigger] b2_fits(*s, j) by {
                assert(b2_fits(*old(s), j));
                assert(s.q0[j - 1] == old(s).q0[j - 1]);
            }
        }
        let (nv, w0, w1) = b2_place_next(old(s).chain0(), old(s).chain1(), b2_view(*old(s)), 16, v, 0xa0000000u32);
        assert((idx as int) % 30 == idx as int);
        assert(nv.0 =~= s.q0@.subrange(0, 17));
        assert(nv.1 =~= s.q1@.subrange(0, 17));
        assert(nv.2 =~= s.x0@);
        assert(nv.3 =~= s.x1@);
        let (m0, m1) = b2_stage4_blocks(*old(s), idx as int);
        assert(block_at(s.x0@, 16) =~= m0);
        assert(block_at(s.x1@, 16) =~= m1);
        assert(nv.2.subrange(16, 32) =~= m0);
        assert(nv.3.subrange(16, 32) =~= m1);
        lemma_xor_delta(m0[15], m1[15], 0);
    }
    if !placed_ok {
        return false;
    }
    let ghost placed = *s;
    let ok = b2_steps_16_20(s) && b2_steps_21_31(s) && b2_steps_32_47(s) && b2_steps_48_63(s);
    proof {
        lemma_last_stage_kept(placed, *s);
        if ok {
            lemma_trace_compress(s.chain0(), s.q0@, block_at(s.x0@, 16));
            lemma_trace_compress(s.chain1(), s.q1@, block_at(s.x1@, 16));
            assert(block_at(s.x0@, 16) == block_at(placed.x0@, 16));
            assert(block_at(s.x1@, 16) == block_at(placed.x1@, 16));
            assert(second_block_conds(*s));
        }
    }
    ok
}

/// The number of tries after which a search loop that the attack leaves
/// unbounded gives up.
pub const MAX_TRIES: u64 = 0xffff_ffff_ffff_ffff;

/// How many candidate values the search for `Q[16]` tries before it starts over.
pub const LOOP_21: u32 = 1000;

/// How many single-bit changes of `Q[16]` the last stage tries before it starts over.
pub const LOOP_22: u32 = 0x40000000;

/// The result of one pass of either block search when a stage ran out of
/// candidates and the search must start over. (Of the second-block search,
/// the third and the last stage have results of their own.)
pub const AGAIN: i32 = 2;

/// The result of [`b2_attempt`] when the third stage, which fixes `Q[3]`,
/// ran out of its 10 candidates.
pub const C1_SPENT: i32 = 3;

/// The result of [`b2_attempt`] when the last stage ran out of its
/// single-bit changes of `Q[16]`.
pub const LAST_SPENT: i32 = 4;

/// One pass of the second-block search from its first stage. It draws words
/// for the first-round trace words `Q[1..=16]`, stage by stage, and then
/// indices of bits of `Q[16]` to flip, and returns what the pass came to
/// ([`b2_pass_code`]), the words and the indices it drew, in order: where the
/// pass those draws make from the state ([`b2_pass_end`]) ends, and the view
/// it leaves.
fn b2_attempt(s: &mut StateS, rng: &mut ThreadRng) -> (res: (i32, Ghost<Seq<u32>>, Ghost<Seq<usize>>))
    ensures
        keeps_first_block(*old(s), *final(s)),
        res.0 == b2_pass_code(b2_pass_end(old(s).chain0(), old(s).chain1(), b2_view(*old(s)), res.1@, res.2@)),
        b2_view(*final(s)) == b2_pass_end(old(s).chain0(), old(s).chain1(), b2_view(*old(s)), res.1@, res.2@).2,
        res.0 == 0 || res.0 == 1 || res.0 == AGAIN || res.0 == C1_SPENT || res.0 == LAST_SPENT,
        res.0 == 0 ==> second_block_done(*final(s)),
        res.0 == 0 ==> second_block_conds(*final(s)),
        res.0 == 0 ==> b2_round1_upto(*final(s), 16),
{
    let ghost cv0 = old(s).chain0();
    let ghost cv1 = old(s).chain1();
    let ghost start: B2Pass = (1, 0, b2_view(*old(s)));
    let ghost mut dr: Seq<u32> = Seq::empty();
    let ghost mut ix: Seq<usize> = Seq::empty();
    let mut k: usize = 1;
    /* a1, d1, c1, b1, A2, D2, C2, B2, A3, D3, C3, B3, A4, D4, C4 */
    while k <= 15
        invariant
            cv0 == old(s).chain0() && cv1 == old(s).chain1() && start == (1int, 0int, b2_view(*old(s))),
            1 <= k <= 16,
            keeps_first_block(*old(s), *s),
            b2_round1_upto(*s, k - 1),
            second_steps(*s, 0, k - 1),
            deltas_ok(s.x0@, s.x1@, 16, 15 + k),
            b2_run_draws(cv0, cv1, start, dr) == (k as int, 0int, b2_view(*s)),
            ix.len() == 0,
        decreases 16 - k,
    {
        let limit: u64 = if k == 1 { MAX_TRIES } else { 10 };
        let mut tries: u64 = 0;
        loop
            invariant_except_break
                b2_run_draws(cv0, cv1, start, dr) == (k as int, tries as int, b2_view(*s)),
            invariant
                cv0 == old(s).chain0() && cv1 == old(s).chain1() && start == (1int, 0int, b2_view(*old(s))),
                1 <= k <= 15,
                limit as int == b2_limit(k as int),
                tries <= limit,
                keeps_first_block(*old(s), *s),
                b2_round1_upto(*s, k - 1),
                second_steps(*s, 0, k - 1),
                deltas_ok(s.x0@, s.x1@, 16, 15 + k),
                ix.len() == 0,
            ensures
                keeps_first_block(*old(s), *s),
                b2_round1_upto(*s, k as int),
                second_steps(*s, 0, k as int),
                deltas_ok(s.x0@, s.x1@, 16, 16 + k),
                b2_run_draws(cv0, cv1, start, dr) == (k + 1, 0int, b2_view(*s)),
                ix.len() == 0,
            decreases limit - tries,
        {
            if tries == limit {
                let r: i32 = if k == 1 {
                    1
                } else if k == 3 {
                    C1_SPENT
                } else {
                    AGAIN
                };
                proof {
                    assert(b2_run_indices(cv0, cv1, b2_run_draws(cv0, cv1, start, dr), ix) == b2_run_draws(cv0, cv1, start, dr));
                }
                return (r, Ghost(dr), Ghost(ix));
            }
            tries = tries + 1;
            let draw: u32 = random_u32(rng);
            let ghost before = dr;
            let ok = b2_draw_stage(s, k, draw);
            proof {
                dr = dr.push(draw);
                assert(dr.drop_last() =~= before);
                assert(b2_run_draws(cv0, cv1, start, dr) == b2_on_draw(cv0, cv1, b2_run_draws(cv0, cv1, start, before), draw));
            }
            if ok {
                break;
            }
        }
        k = k + 1;
    }
    /* B4: `Q[16]`, then steps 16 to 20 */
    let mut tries: u32 = 0;
    loop
        invariant_except_break
            b2_run_draws(cv0, cv1, start, dr) == (16int, tries as int, b2_view(*s)),
        invariant
            cv0 == old(s).chain0() && cv1 == old(s).chain1() && start == (1int, 0int, b2_view(*old(s))),
            tries <= LOOP_21,
            keeps_first_block(*old(s), *s),
            b2_round1_upto(*s, 15),
            second_steps(*s, 0, 15),
            deltas_ok(s.x0@, s.x1@, 16, 31),
            ix.len() == 0,
        ensures
            keeps_first_block(*old(s), *s),
            b2_round1_upto(*s, 16),
            second_steps(*s, 0, 15),
            deltas_ok(s.x0@, s.x1@, 16, 31),
            b2_run_draws(cv0, cv1, start, dr) == (17int, 0int, b2_view(*s)),
            ix.len() == 0,
        decreases LOOP_21 - tries,
    {
        if tries == LOOP_21 {
            proof {
                assert(b2_run_indices(cv0, cv1, b2_run_draws(cv0, cv1, start, dr), ix) == b2_run_draws(cv0, cv1, start, dr));
            }
            return (AGAIN, Ghost(dr), Ghost(ix));
        }
        tries = tries + 1;
        let draw: u32 = random_u32(rng);
        let ghost before = dr;
        let placed = b2_draw_stage(s, 16, draw);
        proof {
            dr = dr.push(draw);
            assert(dr.drop_last() =~= before);
            assert(b2_run_draws(cv0, cv1, start, dr) == b2_on_draw(cv0, cv1, b2_run_draws(cv0, cv1, start, before), draw));
        }
        if placed {
            let ghost p = *s;
            let found = b2_steps_16_20(s);
            proof {
                lemma_last_stage_kept(p, *s);
            }
            if found {
                break;
            }
        }
    }
    /* the last stage: single-bit changes of `Q[16]` */
    let ghost mid = b2_run_draws(cv0, cv1, start, dr);
    proof {
        assert(b2_run_indices(cv0, cv1, mid, ix) == mid);
    }
    let mut tries: u32 = 0;
    loop
        invariant
            cv0 == old(s).chain0() && cv1 == old(s).chain1() && start == (1int, 0int, b2_view(*old(s))),
            tries <= LOOP_22,
            keeps_first_block(*old(s), *s),
            b2_round1_upto(*s, 16),
            second_steps(*s, 0, 15),
            deltas_ok(s.x0@, s.x1@, 16, 31),
            mid == b2_run_draws(cv0, cv1, start, dr),
            b2_run_indices(cv0, cv1, mid, ix) == (17int, tries as int, b2_view(*s)),
        decreases LOOP_22 - tries,
    {
        if tries == LOOP_22 {
            return (LAST_SPENT, Ghost(dr), Ghost(ix));
        }
        tries = tries + 1;
        let d: usize = random_usize(rng);
        let idx: usize = d % 30;
        let ghost before = ix;
        let ok = b2_loop22_body(s, idx);
        proof {
            ix = ix.push(d);
            assert(ix.drop_last() =~= before);
            assert((d as int) % 30 == (idx as int) % 30);
            assert(b2_run_indices(cv0, cv1, mid, ix) == b2_on_index(cv0, cv1, b2_run_indices(cv0, cv1, mid, before), d));
        }
        if ok {
            return (0, Ghost(dr), Ghost(ix));
        }
    }
}

/// How many passes that ran out of candidates for `Q[3]` the passes `log`
/// of the second-block search count, as it counts them: only those before
/// its count of passes that reached the last stage, `i32` and wrapping, was
/// other than zero.
pub open spec fn b2_c1_spent(log: Seq<i32>) -> int
    decreases log.len(),
{
    if log.len() == 0 {
        0
    } else {
        let before = log.drop_last();
        if log.last() == C1_SPENT && b2_last_spent(before) == 0 {
            b2_c1_spent(before) + 1
        } else {
            b2_c1_spent(before)
        }
    }
}

/// How many of the passes `log` of the second-block search reached its last
/// stage and ran out there, counted in an `i32` that wraps.
pub open spec fn b2_last_spent(log: Seq<i32>) -> i32
    decreases log.len(),
{
    if log.len() == 0 {
        0
    } else {
        let before = log.drop_last();
        if log.last() == LAST_SPENT {
            b2_last_spent(before).wrapping_add(1)
        } else {
            b2_last_spent(before)
        }
    }
}

/// The draws of successive passes of the second-block search: for each
/// pass, the words and then the indices it drew.
pub type B2Draws = Seq<(Seq<u32>, Seq<usize>)>;

/// The view at the start of pass `p` of a second-block search from the view
/// `v0` whose passes drew `passes`: each pass starts where the one before it
/// ended.
pub open spec fn b2_view_before(cv0: Chain, cv1: Chain, v0: B2View, passes: B2Draws, p: int) -> B2View
    decreases p,
{
    if p <= 0 {
        v0
    } else {
        let v = b2_view_before(cv0, cv1, v0, passes, p - 1);
        b2_pass_end(cv0, cv1, v, passes[p - 1].0, passes[p - 1].1).2
    }
}

/// The result of pass `p` of a second-block search from the view `v0` whose
/// passes drew `passes`.
pub open spec fn b2_pass_result(cv0: Chain, cv1: Chain, v0: B2View, passes: B2Draws, p: int) -> i32 {
    b2_pass_code(b2_pass_end(cv0, cv1, b2_view_before(cv0, cv1, v0, passes, p), passes[p].0, passes[p].1))
}

/// The results of the passes of a second-block search from the view `v0`
/// whose passes drew `passes`.
pub open spec fn b2_pass_log(cv0: Chain, cv1: Chain, v0: B2View, passes: B2Draws) -> Seq<i32> {
    Seq::new(passes.len(), |p: int| b2_pass_result(cv0, cv1, v0, passes, p))
}

/// What a second-block search from the view `v0` whose passes drew `passes`
/// returns: 0 when its last pass found the blocks, -1 when the passes that
/// ran out of candidates for `Q[3]` while none had reached the last stage
/// number 10000, and 1 otherwise (a try counter ran out).
pub open spec fn b2_result(cv0: Chain, cv1: Chain, v0: B2View, passes: B2Draws) -> i32 {
    let log = b2_pass_log(cv0, cv1, v0, passes);
    if log.len() > 0 && log.last() == 0 {
        0i32
    } else if b2_c1_spent(log) == 10000 {
        -1i32
    } else {
        1i32
    }
}

/// Adding a pass does not change where the earlier ones start.
pub proof fn lemma_view_before_push(cv0: Chain, cv1: Chain, v0: B2View, passes: B2Draws, x: (Seq<u32>, Seq<usize>), p: int)
    requires
        0 <= p <= passes.len(),
    ensures
        b2_view_before(cv0, cv1, v0, passes.push(x), p) == b2_view_before(cv0, cv1, v0, passes, p),
    decreases p,
{
    if p > 0 {
        lemma_view_before_push(cv0, cv1, v0, passes, x, p - 1);
        assert(passes.push(x)[p - 1] == passes[p - 1]);
    }
}

/// What drawn words make of a pass from its start: while it stands at the
/// first stage, each word was a try of that stage; it reaches the last stage
/// with no try made there; and it never stands at stage 18.
proof fn lemma_run_draws_shape(cv0: Chain, cv1: Chain, v: B2View, draws: Seq<u32>)
    ensures
        b2_run_draws(cv0, cv1, (1int, 0int, v), draws).0 == 1 ==> b2_run_draws(cv0, cv1, (1int, 0int, v), draws).1
            == draws.len(),
        b2_run_draws(cv0, cv1, (1int, 0int, v), draws).0 == 17 ==> b2_run_draws(cv0, cv1, (1int, 0int, v), draws).1 == 0,
        b2_run_draws(cv0, cv1, (1int, 0int, v), draws).0 != 18,
    decreases draws.len(),
{
    if draws.len() > 0 {
        lemma_run_draws_shape(cv0, cv1, v, draws.drop_last());
    }
}

/// What drawn indices make of a pass: once one is drawn, the pass stands at
/// the last stage, past it, or stuck; and it stands at the last stage only if
/// it stood there before, with one more try for each index.
proof fn lemma_run_indices_shape(cv0: Chain, cv1: Chain, m: B2Pass, idxs: Seq<usize>)
    ensures
        idxs.len() == 0 ==> b2_run_indices(cv0, cv1, m, idxs) == m,
        idxs.len() > 0 ==> {
            let e = b2_run_indices(cv0, cv1, m, idxs);
            &&& e.0 == 17 || e.0 == 18 || e.0 == 19
            &&& e.0 == 17 ==> m.0 == 17 && e.1 == m.1 + idxs.len()
        },
    decreases idxs.len(),
{
    if idxs.len() > 0 {
        lemma_run_indices_shape(cv0, cv1, m, idxs.drop_last());
    }
}

/// A pass of the second-block search gives up (1) only when its first stage,
/// which sets `Q[1]`, has drawn 2^64 - 1 words, all failing, and it drew no
/// index: running out of tries at any later stage starts a new pass. And a
/// pass that runs out at the last stage has drawn exactly 2^30 indices.
pub proof fn lemma_pass_gives_up_only_at_first_stage(cv0: Chain, cv1: Chain, v: B2View, draws: Seq<u32>, idxs: Seq<usize>)
    ensures
        b2_pass_code(b2_pass_end(cv0, cv1, v, draws, idxs)) == 1 ==> draws.len() == 0xffff_ffff_ffff_ffff
            && idxs.len() == 0,
        b2_pass_code(b2_pass_end(cv0, cv1, v, draws, idxs)) == 4 ==> idxs.len() == 0x4000_0000,
        b2_pass_code(b2_pass_end(cv0, cv1, v, draws, idxs)) == 2 || b2_pass_code(b2_pass_end(cv0, cv1, v, draws, idxs))
            == 3 ==> idxs.len() == 0,
{
    lemma_run_draws_shape(cv0, cv1, v, draws);
    let mid = b2_run_draws(cv0, cv1, (1int, 0int, v), draws);
    lemma_run_indices_shape(cv0, cv1, mid, idxs);
}

/// A try of the last stage changes `Q[16]` of `x0`'s second trace in exactly
/// the bit `MASK22[idx % 30]`: one bit, never bit 29 or bit 31, which the
/// first round fixes; `Q[16]` of `x1`'s stays the attack's difference away.
pub proof fn lemma_flip_one_bit(cv0: Chain, cv1: Chain, v: B2View, idx: int)
    requires
        b2_view_wf(v),
        0 <= idx,
    ensures
        ({
            let q = b2_flip_next(cv0, cv1, v, idx).0.0[16];
            let d = q ^ v.0[16];
            &&& d == MASK22[idx % 30]
            &&& d != 0
            &&& d & d.wrapping_sub(1) == 0
            &&& d & 0xa0000000u32 == 0
            &&& b2_flip_next(cv0, cv1, v, idx).0.1[16] == q.wrapping_sub(0xa0000000u32)
        }),
{
    let i = idx % 30;
    let m = MASK22[i];
    let q = v.0[16] ^ m;
    assert(MASK22@ =~= seq![0x00000001u32, 0x00000002u32, 0x00000004u32, 0x00000008u32, 0x00000010u32, 0x00000020u32, 0x00000040u32, 0x00000080u32, 0x00000100u32, 0x00000200u32, 0x00000400u32, 0x00000800u32, 0x00001000u32, 0x00002000u32, 0x00004000u32, 0x00008000u32, 0x00010000u32, 0x00020000u32, 0x00040000u32, 0x00080000u32, 0x00100000u32, 0x00200000u32, 0x00400000u32, 0x00800000u32, 0x01000000u32, 0x02000000u32, 0x04000000u32, 0x08000000u32, 0x10000000u32, 0x40000000u32]);
    assert(0x00000001u32 != 0 && 0x00000001u32 & 0x00000001u32.wrapping_sub(1) == 0 && 0x00000001u32 & 0xa0000000u32 == 0
        && 0x00000002u32 != 0 && 0x00000002u32 & 0x00000002u32.wrapping_sub(1) == 0 && 0x00000002u32 & 0xa0000000u32 == 0
        && 0x00000004u32 != 0 && 0x00000004u32 & 0x00000004u32.wrapping_sub(1) == 0 && 0x00000004u32 & 0xa0000000u32 == 0
        && 0x00000008u32 != 0 && 0x00000008u32 & 0x00000008u32.wrapping_sub(1) == 0 && 0x00000008u32 & 0xa0000000u32 == 0
        && 0x00000010u32 != 0 && 0x00000010u32 & 0x00000010u32.wrapping_sub(1) == 0 && 0x00000010u32 & 0xa0000000u32 == 0
        && 0x00000020u32 != 0 && 0x00000020u32 & 0x00000020u32.wrapping_sub(1) == 0 && 0x00000020u32 & 0xa0000000u32 == 0
        && 0x00000040u32 != 0 && 0x00000040u32 & 0x00000040u32.wrapping_sub(1) == 0 && 0x00000040u32 & 0xa0000000u32 == 0
        && 0x00000080u32 != 0 && 0x00000080u32 & 0x00000080u32.wrapping_sub(1) == 0 && 0x00000080u32 & 0xa0000000u32 == 0
        && 0x00000100u32 != 0 && 0x00000100u32 & 0x00000100u32.wrapping_sub(1) == 0 && 0x00000100u32 & 0xa0000000u32 == 0
        && 0x00000200u32 != 0 && 0x00000200u32 & 0x00000200u32.wrapping_sub(1) == 0 && 0x00000200u32 & 0xa0000000u32 == 0
        && 0x00000400u32 != 0 && 0x00000400u32 & 0x00000400u32.wrapping_sub(1) == 0 && 0x00000400u32 & 0xa0000000u32 == 0
        && 0x00000800u32 != 0 && 0x00000800u32 & 0x00000800u32.wrapping_sub(1) == 0 && 0x00000800u32 & 0xa0000000u32 == 0
        && 0x00001000u32 != 0 && 0x00001000u32 & 0x00001000u32.wrapping_sub(1) == 0 && 0x00001000u32 & 0xa0000000u32 == 0
        && 0x00002000u32 != 0 && 0x00002000u32 & 0x00002000u32.wrapping_sub(1) == 0 && 0x00002000u32 & 0xa0000000u32 == 0
        && 0x00004000u32 != 0 && 0x00004000u32 & 0x00004000u32.wrapping_sub(1) == 0 && 0x00004000u32 & 0xa0000000u32 == 0
        && 0x00008000u32 != 0 && 0x00008000u32 & 0x00008000u32.wrapping_sub(1) == 0 && 0x00008000u32 & 0xa0000000u32 == 0
        && 0x00010000u32 != 0 && 0x00010000u32 & 0x00010000u32.wrapping_sub(1) == 0 && 0x00010000u32 & 0xa0000000u32 == 0
        && 0x00020000u32 != 0 && 0x00020000u32 & 0x00020000u32.wrapping_sub(1) == 0 && 0x00020000u32 & 0xa0000000u32 == 0
        && 0x00040000u32 != 0 && 0x00040000u32 & 0x00040000u32.wrapping_sub(1) == 0 && 0x00040000u32 & 0xa0000000u32 == 0
        && 0x00080000u32 != 0 && 0x00080000u32 & 0x00080000u32.wrapping_sub(1) == 0 && 0x00080000u32 & 0xa0000000u32 == 0
        && 0x00100000u32 != 0 && 0x00100000u32 & 0x00100000u32.wrapping_sub(1) == 0 && 0x00100000u32 & 0xa0000000u32 == 0
        && 0x00200000u32 != 0 && 0x00200000u32 & 0x00200000u32.wrapping_sub(1) == 0 && 0x00200000u32 & 0xa0000000u32 == 0
        && 0x00400000u32 != 0 && 0x00400000u32 & 0x00400000u32.wrapping_sub(1) == 0 && 0x00400000u32 & 0xa0000000u32 == 0
        && 0x00800000u32 != 0 && 0x00800000u32 & 0x00800000u32.wrapping_sub(1) == 0 && 0x00800000u32 & 0xa0000000u32 == 0
        && 0x01000000u32 != 0 && 0x01000000u32 & 0x01000000u32.wrapping_sub(1) == 0 && 0x01000000u32 & 0xa0000000u32 == 0
        && 0x02000000u32 != 0 && 0x02000000u32 & 0x02000000u32.wrapping_sub(1) == 0 && 0x02000000u32 & 0xa0000000u32 == 0
        && 0x04000000u32 != 0 && 0x04000000u32 & 0x04000000u32.wrapping_sub(1) == 0 && 0x04000000u32 & 0xa0000000u32 == 0
        && 0x08000000u32 != 0 && 0x08000000u32 & 0x08000000u32.wrapping_sub(1) == 0 && 0x08000000u32 & 0xa0000000u32 == 0
        && 0x10000000u32 != 0 && 0x10000000u32 & 0x10000000u32.wrapping_sub(1) == 0 && 0x10000000u32 & 0xa0000000u32 == 0
        && 0x40000000u32 != 0 && 0x40000000u32 & 0x40000000u32.wrapping_sub(1) == 0 && 0x40000000u32 & 0xa0000000u32 == 0) by (bit_vector);
    assert(m != 0 && m & m.wrapping_sub(1) == 0 && m & 0xa0000000u32 == 0);
    let old16 = v.0[16];
    assert((q ^ old16) == m) by (bit_vector)
        requires
            q == old16 ^ m,
    ;
}

/// The words of a view have their lengths: 17 trace words and 32 message
/// words of each message.
pub open spec fn b2_view_wf(v: B2View) -> bool {
    v.0.len() == 17 && v.1.len() == 17 && v.2.len() == 32 && v.3.len() == 32
}

/// How many first-round trace words (with their message words) a pass at
/// `m` has set: all 16 once it reached the last stage, none once stuck.
pub open spec fn b2_written(m: B2Pass) -> int {
    let (k, t, v) = m;
    if k == 17 || k == 18 {
        16
    } else if 1 <= k <= 16 {
        if t > 0 {
            k
        } else {
            k - 1
        }
    } else {
        0
    }
}

/// The two views agree on the trace word `Q[j]` and the message word that
/// step `j - 1` reads, of both traces.
pub open spec fn b2_agree_at(v1: B2View, v2: B2View, j: int) -> bool {
    &&& v1.0[j] == v2.0[j]
    &&& v1.1[j] == v2.1[j]
    &&& v1.2[15 + j] == v2.2[15 + j]
    &&& v1.3[15 + j] == v2.3[15 + j]
}

/// Two passes stand at the same stage and try, and agree on every word
/// they have set.
pub open spec fn b2_agree(m1: B2Pass, m2: B2Pass) -> bool {
    &&& m1.0 == m2.0
    &&& m1.1 == m2.1
    &&& b2_view_wf(m1.2)
    &&& b2_view_wf(m2.2)
    &&& forall|j: int| 1 <= j <= b2_written(m1) ==> #[trigger] b2_agree_at(m1.2, m2.2, j)
}

proof fn lemma_and_zero(x: u32)
    ensures
        x & 0u32 == 0u32,
{
    assert(x & 0u32 == 0u32) by (bit_vector);
}

/// Placing the same word into two agreeing views agrees on it and on what
/// they agreed on before.
proof fn lemma_place_agree(cv0: Chain, cv1: Chain, v1: B2View, v2: B2View, k: int, q: u32, dq: u32)
    requires
        1 <= k <= 16,
        b2_view_wf(v1),
        b2_view_wf(v2),
        forall|j: int| 1 <= j < k ==> #[trigger] b2_agree_at(v1, v2, j),
    ensures
        b2_view_wf(b2_place_next(cv0, cv1, v1, k, q, dq).0),
        b2_place_next(cv0, cv1, v1, k, q, dq).1 == b2_place_next(cv0, cv1, v2, k, q, dq).1,
        b2_place_next(cv0, cv1, v1, k, q, dq).2 == b2_place_next(cv0, cv1, v2, k, q, dq).2,
        forall|j: int| 1 <= j <= k ==> #[trigger] b2_agree_at(
            b2_place_next(cv0, cv1, v1, k, q, dq).0,
            b2_place_next(cv0, cv1, v2, k, q, dq).0,
            j,
        ),
{
    let (n1, a0, a1) = b2_place_next(cv0, cv1, v1, k, q, dq);
    let (n2, b0, b1) = b2_place_next(cv0, cv1, v2, k, q, dq);
    let q0a = v1.0.update(k, q);
    let q0b = v2.0.update(k, q);
    let q1a = v1.1.update(k, q.wrapping_sub(dq));
    let q1b = v2.1.update(k, q.wrapping_sub(dq));
    assert forall|j: int| k - 4 <= j <= k - 1 implies q_at(cv0, q0a, j) == q_at(cv0, q0b, j)
        && q_at(cv1, q1a, j) == q_at(cv1, q1b, j) by {
        if j >= 1 {
            assert(b2_agree_at(v1, v2, j));
        }
    }
    assert(a0 == b0);
    assert(a1 == b1);
    assert forall|j: int| 1 <= j <= k implies #[trigger] b2_agree_at(n1, n2, j) by {
        if j < k {
            assert(b2_agree_at(v1, v2, j));
        }
    }
}

/// One more drawn word keeps two passes in agreement.
pub proof fn lemma_on_draw_agree(cv0: Chain, cv1: Chain, m1: B2Pass, m2: B2Pass, d: u32)
    requires
        b2_agree(m1, m2),
    ensures
        b2_agree(b2_on_draw(cv0, cv1, m1, d), b2_on_draw(cv0, cv1, m2, d)),
{
    let (k, t, v1) = m1;
    let v2 = m2.2;
    if 1 <= k <= 16 && t < b2_limit(k) {
        let p1 = b2_from_draw(k, d, v1.0[k - 1]);
        let p2 = b2_from_draw(k, d, v2.0[k - 1]);
        if k == 1 {
            lemma_and_zero(v1.0[0]);
            lemma_and_zero(v2.0[0]);
        } else {
            assert(b2_agree_at(v1, v2, k - 1));
        }
        assert(p1 == p2);
        assert forall|j: int| 1 <= j < k implies #[trigger] b2_agree_at(v1, v2, j) by {}
        lemma_place_agree(cv0, cv1, v1, v2, k, p1, b2_mask(k).3);
        let n1 = b2_place_next(cv0, cv1, v1, k, p1, b2_mask(k).3).0;
        let n2 = b2_place_next(cv0, cv1, v2, k, p2, b2_mask(k).3).0;
        if k == 16 {
            assert forall|i: int| 0 <= i < 16 implies n1.2.subrange(16, 32)[i] == n2.2.subrange(16, 32)[i]
                && n1.3.subrange(16, 32)[i] == n2.3.subrange(16, 32)[i] by {
                assert(b2_agree_at(n1, n2, i + 1));
            }
            assert(n1.2.subrange(16, 32) =~= n2.2.subrange(16, 32));
            assert(n1.3.subrange(16, 32) =~= n2.3.subrange(16, 32));
        }
        let r1 = b2_on_draw(cv0, cv1, m1, d);
        let r2 = b2_on_draw(cv0, cv1, m2, d);
        assert(r1.2 == n1);
        assert(r2.2 == n2);
        assert forall|j: int| 1 <= j <= b2_written(r1) implies #[trigger] b2_agree_at(r1.2, r2.2, j) by {}
    }
}

/// One more drawn index keeps two passes in agreement.
pub proof fn lemma_on_index_agree(cv0: Chain, cv1: Chain, m1: B2Pass, m2: B2Pass, idx: usize)
    requires
        b2_agree(m1, m2),
    ensures
        b2_agree(b2_on_index(cv0, cv1, m1, idx), b2_on_index(cv0, cv1, m2, idx)),
{
    let (k, t, v1) = m1;
    let v2 = m2.2;
    if k == 17 && t < b2_limit(17) {
        let i = (idx as int) % 30;
        assert(b2_agree_at(v1, v2, 16));
        let p = v1.0[16] ^ MASK22[i];
        assert forall|j: int| 1 <= j < 16 implies #[trigger] b2_agree_at(v1, v2, j) by {}
        lemma_place_agree(cv0, cv1, v1, v2, 16, p, 0xa0000000u32);
        let n1 = b2_place_next(cv0, cv1, v1, 16, p, 0xa0000000u32).0;
        let n2 = b2_place_next(cv0, cv1, v2, 16, p, 0xa0000000u32).0;
        assert forall|i2: int| 0 <= i2 < 16 implies n1.2.subrange(16, 32)[i2] == n2.2.subrange(16, 32)[i2]
            && n1.3.subrange(16, 32)[i2] == n2.3.subrange(16, 32)[i2] by {
            assert(b2_agree_at(n1, n2, i2 + 1));
        }
        assert(n1.2.subrange(16, 32) =~= n2.2.subrange(16, 32));
        assert(n1.3.subrange(16, 32) =~= n2.3.subrange(16, 32));
        let r1 = b2_on_index(cv0, cv1, m1, idx);
        let r2 = b2_on_index(cv0, cv1, m2, idx);
        assert forall|j: int| 1 <= j <= b2_written(r1) implies #[trigger] b2_agree_at(r1.2, r2.2, j) by {}
    }
}

/// The same drawn words keep two passes in agreement.
pub proof fn lemma_run_draws_agree(cv0: Chain, cv1: Chain, m1: B2Pass, m2: B2Pass, draws: Seq<u32>)
    requires
        b2_agree(m1, m2),
    ensures
        b2_agree(b2_run_draws(cv0, cv1, m1, draws), b2_run_draws(cv0, cv1, m2, draws)),
    decreases draws.len(),
{
    if draws.len() > 0 {
        lemma_run_draws_agree(cv0, cv1, m1, m2, draws.drop_last());
        lemma_on_draw_agree(
            cv0,
            cv1,
            b2_run_draws(cv0, cv1, m1, draws.drop_last()),
            b2_run_draws(cv0, cv1, m2, draws.drop_last()),
            draws.last(),
        );
    }
}

/// The same drawn indices keep two passes in agreement.
pub proof fn lemma_run_indices_agree(cv0: Chain, cv1: Chain, m1: B2Pass, m2: B2Pass, idxs: Seq<usize>)
    requires
        b2_agree(m1, m2),
    ensures
        b2_agree(b2_run_indices(cv0, cv1, m1, idxs), b2_run_indices(cv0, cv1, m2, idxs)),
    decreases idxs.len(),
{
    if idxs.len() > 0 {
        lemma_run_indices_agree(cv0, cv1, m1, m2, idxs.drop_last());
        lemma_on_index_agree(
            cv0,
            cv1,
            b2_run_indices(cv0, cv1, m1, idxs.drop_last()),
            b2_run_indices(cv0, cv1, m2, idxs.drop_last()),
            idxs.last(),
        );
    }
}

/// Two passes from any two views with the same draws end in agreement.
pub proof fn lemma_pass_end_agree(cv0: Chain, cv1: Chain, v1: B2View, v2: B2View, draws: Seq<u32>, idxs: Seq<usize>)
    requires
        b2_view_wf(v1),
        b2_view_wf(v2),
    ensures
        b2_agree(b2_pass_end(cv0, cv1, v1, draws, idxs), b2_pass_end(cv0, cv1, v2, draws, idxs)),
{
    let s1: B2Pass = (1, 0, v1);
    let s2: B2Pass = (1, 0, v2);
    assert(b2_agree(s1, s2));
    lemma_run_draws_agree(cv0, cv1, s1, s2, draws);
    lemma_run_indices_agree(cv0, cv1, b2_run_draws(cv0, cv1, s1, draws), b2_run_draws(cv0, cv1, s2, draws), idxs);
}

/// The views at the start of each pass of two searches with the same draws
/// have their lengths, and the passes come to the same results.
pub proof fn lemma_passes_agree(cv0: Chain, cv1: Chain, v1: B2View, v2: B2View, passes: B2Draws, p: int)
    requires
        b2_view_wf(v1),
        b2_view_wf(v2),
        0 <= p <= passes.len(),
    ensures
        b2_view_wf(b2_view_before(cv0, cv1, v1, passes, p)),
        b2_view_wf(b2_view_before(cv0, cv1, v2, passes, p)),
        forall|i: int| 0 <= i < p ==> #[trigger] b2_pass_result(cv0, cv1, v1, passes, i) == b2_pass_result(cv0, cv1, v2, passes, i),
        p > 0 ==> b2_agree(
            b2_pass_end(cv0, cv1, b2_view_before(cv0, cv1, v1, passes, p - 1), passes[p - 1].0, passes[p - 1].1),
            b2_pass_end(cv0, cv1, b2_view_before(cv0, cv1, v2, passes, p - 1), passes[p - 1].0, passes[p - 1].1),
        ),
    decreases p,
{
    if p > 0 {
        lemma_passes_agree(cv0, cv1, v1, v2, passes, p - 1);
        let u1 = b2_view_before(cv0, cv1, v1, passes, p - 1);
        let u2 = b2_view_before(cv0, cv1, v2, passes, p - 1);
        lemma_pass_end_agree(cv0, cv1, u1, u2, passes[p - 1].0, passes[p - 1].1);
        assert forall|i: int| 0 <= i < p implies #[trigger] b2_pass_result(cv0, cv1, v1, passes, i) == b2_pass_result(cv0, cv1, v2, passes, i) by {
            if i == p - 1 {
            }
        }
    }
}

/// The second-block search reads of its state only the chaining values:
/// two searches from states with the same chaining values whose passes
/// draw the same words and indices come to the same result, and when it is
/// 0 they leave the same first-round trace words `Q[1..=16]` and second
/// blocks.
pub proof fn lemma_block2_ignores_start(cv0: Chain, cv1: Chain, v1: B2View, v2: B2View, passes: B2Draws)
    requires
        b2_view_wf(v1),
        b2_view_wf(v2),
    ensures
        b2_result(cv0, cv1, v1, passes) == b2_result(cv0, cv1, v2, passes),
        b2_result(cv0, cv1, v1, passes) == 0 ==> {
            let e1 = b2_view_before(cv0, cv1, v1, passes, passes.len() as int);
            let e2 = b2_view_before(cv0, cv1, v2, passes, passes.len() as int);
            &&& forall|j: int| 1 <= j <= 16 ==> e1.0[j] == e2.0[j] && e1.1[j] == e2.1[j]
            &&& e1.2.subrange(16, 32) == e2.2.subrange(16, 32)
            &&& e1.3.subrange(16, 32) == e2.3.subrange(16, 32)
        },
{
    let n = passes.len() as int;
    lemma_passes_agree(cv0, cv1, v1, v2, passes, n);
    let l1 = b2_pass_log(cv0, cv1, v1, passes);
    let l2 = b2_pass_log(cv0, cv1, v2, passes);
    assert forall|i: int| 0 <= i < n implies l1[i] == l2[i] by {
        assert(b2_pass_result(cv0, cv1, v1, passes, i) == b2_pass_result(cv0, cv1, v2, passes, i));
    }
    assert(l1 =~= l2);
    if b2_result(cv0, cv1, v1, passes) == 0 {
        let e1 = b2_view_before(cv0, cv1, v1, passes, n);
        let e2 = b2_view_before(cv0, cv1, v2, passes, n);
        let u1 = b2_view_before(cv0, cv1, v1, passes, n - 1);
        let m1 = b2_pass_end(cv0, cv1, u1, passes[n - 1].0, passes[n - 1].1);
        assert(l1.last() == 0);
        assert(l1[n - 1] == b2_pass_code(m1));
        assert(m1.0 == 18);
        assert forall|j: int| 1 <= j <= 16 implies e1.0[j] == e2.0[j] && e1.1[j] == e2.1[j] by {
            assert(b2_agree_at(e1, e2, j));
        }
        assert forall|i: int| 0 <= i < 16 implies e1.2.subrange(16, 32)[i] == e2.2.subrange(16, 32)[i]
            && e1.3.subrange(16, 32)[i] == e2.3.subrange(16, 32)[i] by {
            assert(b2_agree_at(e1, e2, i + 1));
        }
        assert(e1.2.subrange(16, 32) =~= e2.2.subrange(16, 32));
        assert(e1.3.subrange(16, 32) =~= e2.3.subrange(16, 32));
    }
}

/// Searches, with random words, for second blocks of `x0` and `x1` that turn
/// the first blocks' near-collision into a collision.
///
/// Also returns, as ghost values, the results of its passes ([`b2_attempt`])
/// and what each pass drew, in order: each result is the one those draws
/// give from where the pass started ([`b2_pass_result`]), and the state ends
/// where the last pass ended. It returns 0 when its last pass found the
/// blocks; -1 when the 10000th pass that ran out of candidates for `Q[3]`
/// before any pass reached the last stage ends (the first blocks then give
/// no way forward, and the caller should search for new ones); and 1 when a
/// 64-bit try counter ran out: the first stage's draws in the last pass, or
/// the count of passes. Which of these happens depends on the random words
/// drawn; whatever they are, on 0 the second blocks collide and meet all the
/// attack's conditions.
pub fn block2(s: &mut StateS) -> (res: (i32, Ghost<Seq<i32>>, Ghost<B2Draws>))
    ensures
        keeps_first_block(*old(s), *final(s)),
        res.1@.len() == res.2@.len(),
        forall|p: int| 0 <= p < res.1@.len() ==> #[trigger] res.1@[p] == b2_pass_result(
            old(s).chain0(),
            old(s).chain1(),
            b2_view(*old(s)),
            res.2@,
            p,
        ),
        b2_view(*final(s)) == b2_view_before(old(s).chain0(), old(s).chain1(), b2_view(*old(s)), res.2@, res.2@.len() as int),
        res.1@ == b2_pass_log(old(s).chain0(), old(s).chain1(), b2_view(*old(s)), res.2@),
        res.0 == b2_result(old(s).chain0(), old(s).chain1(), b2_view(*old(s)), res.2@),
        res.0 == 0 || res.0 == -1 || res.0 == 1,
        res.1@.len() >= 1,
        forall|i: int| 0 <= i < res.1@.len() - 1 ==> #[trigger] res.1@[i] == AGAIN || res.1@[i] == C1_SPENT || res.1@[i] == LAST_SPENT,
        (res.0 == 0) == (res.1@.last() == 0),
        (res.0 == -1) == (b2_c1_spent(res.1@) == 10000),
        res.0 == -1 ==> res.1@.last() == C1_SPENT,
        res.0 == 1 ==> res.1@.last() == 1 || res.1@.len() == MAX_TRIES,
        res.0 == 1 ==> res.2@.len() == 0xffff_ffff_ffff_ffff || (res.2@.last().0.len() == 0xffff_ffff_ffff_ffff
            && res.2@.last().1.len() == 0),
        res.0 == 0 ==> second_block_done(*final(s)),
        res.0 == 0 ==> second_block_conds(*final(s)),
        res.0 == 0 ==> b2_round1_upto(*final(s), 16),
{
    let mut rng = thread_rng();
    let mut ct3: i32 = 0;
    let mut it: i32 = 0;
    let ghost mut log: Seq<i32> = Seq::empty();
    let ghost mut passes: B2Draws = Seq::empty();
    let ghost cv0 = old(s).chain0();
    let ghost cv1 = old(s).chain1();
    let ghost v0 = b2_view(*old(s));
    let mut restarts: u64 = MAX_TRIES;
    proof {
        assert(log =~= b2_pass_log(cv0, cv1, v0, passes));
    }
    loop
        invariant
            cv0 == old(s).chain0() && cv1 == old(s).chain1() && v0 == b2_view(*old(s)),
            keeps_first_block(*old(s), *s),
            log.len() == passes.len(),
            forall|p: int| 0 <= p < log.len() ==> #[trigger] log[p] == b2_pass_result(cv0, cv1, v0, passes, p),
            log == b2_pass_log(cv0, cv1, v0, passes),
            b2_view(*s) == b2_view_before(cv0, cv1, v0, passes, passes.len() as int),
            0 <= it < 10000,
            it == b2_c1_spent(log),
            ct3 == b2_last_spent(log),
            log.len() + restarts == MAX_TRIES,
            forall|i: int| 0 <= i < log.len() ==> #[trigger] log[i] == AGAIN || log[i] == C1_SPENT || log[i] == LAST_SPENT,
        decreases restarts,
    {
        if restarts == 0 {
            return (1, Ghost(log), Ghost(passes));
        }
        restarts = restarts - 1;
        let (r, Ghost(drawn), Ghost(indices)) = b2_attempt(s, &mut rng);
        let ghost before = log;
        let ghost earlier = passes;
        proof {
            log = log.push(r);
            passes = passes.push((drawn, indices));
            assert(log.drop_last() =~= before);
            assert forall|p: int| 0 <= p < log.len() implies #[trigger] log[p] == b2_pass_result(cv0, cv1, v0, passes, p) by {
                lemma_view_before_push(cv0, cv1, v0, earlier, (drawn, indices), p);
                if p < before.len() {
                    assert(log[p] == before[p]);
                    assert(passes[p] == earlier[p]);
                } else {
                    assert(passes[p] == (drawn, indices));
                }
            }
            assert(log =~= b2_pass_log(cv0, cv1, v0, passes));
            lemma_view_before_push(cv0, cv1, v0, earlier, (drawn, indices), earlier.len() as int);
            assert(b2_view_before(cv0, cv1, v0, passes, passes.len() as int) == b2_pass_end(
                cv0,
                cv1,
                b2_view_before(cv0, cv1, v0, earlier, earlier.len() as int),
                drawn,
                indices,
            ).2);
        }
        if r == 0 || r == 1 {
            proof {
                let n = earlier.len() as int;
                assert(log[n] == b2_pass_result(cv0, cv1, v0, passes, n));
                lemma_pass_gives_up_only_at_first_stage(
                    cv0,
                    cv1,
                    b2_view_before(cv0, cv1, v0, passes, n),
                    drawn,
                    indices,
                );
                assert(passes.last() == (drawn, indices));
            }
            return (r, Ghost(log), Ghost(passes));
        } else if r == LAST_SPENT {
            ct3 = ct3.wrapping_add(1);
        } else if r == C1_SPENT && ct3 == 0 {
            /* block1() may hand over a state that never gets past this
            point; give up on it after enough tries. */
            it = it + 1;
            if it >= 10000 {
                return (-1, Ghost(log), Ghost(passes));
            }
        }
    }
}

} // verus!
