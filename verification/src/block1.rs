//! The search for the first blocks: a pair of blocks whose compressions
//! from the initial value differ exactly as the second-block search needs.

use vstd::prelude::*;
use crate::md5::{md5_step, md5_unstep, md5_compress, trace_word, lemma_trace_word_at, step_ok, steps_ok, lemma_trace_compress, lemma_steps_ok_concat};
use crate::state::{
    StateS, lemma_second_round_ready_frame, deltas_ok, wang_delta, lemma_xor_delta, iv_chain, first_steps, first_round_ready,
    second_round_ready, first_block_done, near_collision, keeps_second_block,
};
use crate::block2::{AGAIN, MAX_TRIES};
use crate::trace::{block_at, range_avoids_word, forward_step, inverse_step, store_q, store_word};

verus! {

/// The fixed words from which the first-block search builds `Q[3..=17]`
/// and `Q[20]`.
pub const RAND_ARR: [u32; 16] = [
    624373811, 2088533051, 16313804, 1906178774, 1444401697, 538793990, 1513199138, 1003925344,
    1324987654, 209079516, 1694804360, 532383565, 599986987, 1435564660, 492230460, 1314485900,
];

/// The trace words `Q[3..=17]` that the first-block search prescribes for
/// `x0`, built from [`RAND_ARR`]; the entries below 3 are zero.
pub open spec fn b1_targets0() -> Seq<u32> {
    let q3 = RAND_ARR[0] & !0x00800040u32;
    let q4 = ((RAND_ARR[1] | 0x80080800u32) & !(0x00800040u32 | 0x0077f780u32)) | (q3 & 0x0077f780u32);
    let q5 = (RAND_ARR[2] | 0x88400025u32) & !0x02bfffc0u32;
    let q6 = ((RAND_ARR[3] | 0x027fbc41u32) & !(0x888043a4u32 | 0x7500001au32)) | (q5 & 0x7500001au32);
    let q7 = (RAND_ARR[4] | 0x03fef820u32) & !0xfc0107dfu32;
    let q8 = (RAND_ARR[5] | 0x01910540u32) & !0xfe0eaabfu32;
    let q9 = ((RAND_ARR[6] | 0xfb102f3du32) & !(0x040f80c2u32 | 0x00001000u32)) | (q8 & 0x00001000u32);
    let q10 = (RAND_ARR[7] | 0x401f9040u32) & !0x80802183u32;
    let q11 = ((RAND_ARR[8] | 0x000180c2u32) & !(0xc00e3101u32 | 0x00004000u32)) | (q10 & 0x00004000u32);
    let q12 = ((RAND_ARR[9] | 0x00081100u32) & !(0xc007e080u32 | 0x03000000u32)) | (q11 & 0x03000000u32);
    let q13 = (RAND_ARR[10] | 0x410fe008u32) & !0x82000180u32;
    let q14 = (RAND_ARR[11] | 0x000be188u32) & !0xa3040000u32;
    let q15 = (RAND_ARR[12] | 0x21008000u32) & !0x82000008u32;
    let q16 = (RAND_ARR[13] | 0x20000000u32) & !0x80000000u32;
    let q17 = (RAND_ARR[14] & !(0x80020000u32 | 0x00008008u32)) | (q16 & 0x00008008u32);
    seq![0u32, 0, 0, q3, q4, q5, q6, q7, q8, q9, q10, q11, q12, q13, q14, q15, q16, q17]
}

/// The trace words `Q[3..=17]` that the first-block search prescribes for
/// `x1`: those of `x0` shifted by the attack's differences.
pub open spec fn b1_targets1() -> Seq<u32> {
    let t = b1_targets0();
    seq![0u32, 0, 0, t[3], t[4], t[5].wrapping_sub(0x00000040), t[6].wrapping_sub(0x7f800040), t[7].wrapping_sub(0x07800041), t[8].wrapping_sub(0x00827fff), t[9].wrapping_sub(0x8000003f), t[10].wrapping_sub(0x7ffff000), t[11].wrapping_sub(0x40000000), t[12].wrapping_sub(0x80002080), t[13].wrapping_sub(0x7f000000), t[14].wrapping_sub(0x80000000), t[15].wrapping_sub(0x80007ff8), t[16].wrapping_sub(0xa0000000), t[17].wrapping_sub(0x80000000)]
}

/// `Q[20]` of the candidate that the second stage of the first-block
/// search tries.
pub open spec fn b1_stage2_q20() -> u32 {
    RAND_ARR[15] & !0x80000000u32
}

/// `Q[20]` of the candidate that the third stage tries.
pub open spec fn b1_stage3_q20() -> u32 {
    886608102u32
}

/// The words 1 and 6 to 15 of a block whose trace has the words
/// `t[3..=17]`: each the word that makes the step reading it produce the
/// next trace word. (The other entries are zero.)
pub open spec fn b1_round1_words(t: Seq<u32>) -> Seq<u32> {
    let w6 = md5_unstep(6, t[3], t[6], t[5], t[4], t[7]);
    let w7 = md5_unstep(7, t[4], t[7], t[6], t[5], t[8]);
    let w8 = md5_unstep(8, t[5], t[8], t[7], t[6], t[9]);
    let w9 = md5_unstep(9, t[6], t[9], t[8], t[7], t[10]);
    let w10 = md5_unstep(10, t[7], t[10], t[9], t[8], t[11]);
    let w11 = md5_unstep(11, t[8], t[11], t[10], t[9], t[12]);
    let w12 = md5_unstep(12, t[9], t[12], t[11], t[10], t[13]);
    let w13 = md5_unstep(13, t[10], t[13], t[12], t[11], t[14]);
    let w14 = md5_unstep(14, t[11], t[14], t[13], t[12], t[15]);
    let w15 = md5_unstep(15, t[12], t[15], t[14], t[13], t[16]);
    let w1 = md5_unstep(16, t[13], t[16], t[15], t[14], t[17]);
    seq![0u32, w1, 0, 0, 0, 0, w6, w7, w8, w9, w10, w11, w12, w13, w14, w15]
}

/// The candidate block of the first-block search, and its trace words
/// `Q[1..=27]`: the block whose trace from `iv` has the words `t[3..=17]`
/// and `Q[20] == q20`, built by inverting, one by one, the steps that read
/// each of its words.
pub open spec fn b1_candidate(iv: [u32; 4], t: Seq<u32>, q20: u32) -> (Seq<u32>, Seq<u32>) {
    let r = b1_round1_words(t);
    let q18 = md5_step(17, t[14], t[17], t[16], t[15], r[6]);
    let q19 = md5_step(18, t[15], q18, t[17], t[16], r[11]);
    let w0 = md5_unstep(19, t[16], q19, q18, t[17], q20);
    let q1 = md5_step(0, iv[0], iv[1], iv[2], iv[3], w0);
    let q2 = md5_step(1, iv[3], q1, iv[1], iv[2], r[1]);
    let w2 = md5_unstep(2, iv[2], q2, q1, iv[1], t[3]);
    let w3 = md5_unstep(3, iv[1], t[3], q2, q1, t[4]);
    let w4 = md5_unstep(4, q1, t[4], t[3], q2, t[5]);
    let w5 = md5_unstep(5, q2, t[5], t[4], t[3], t[6]);
    let q21 = md5_step(20, t[17], q20, q19, q18, w5);
    let q22 = md5_step(21, q18, q21, q20, q19, r[10]);
    let q23 = md5_step(22, q19, q22, q21, q20, r[15]);
    let q24 = md5_step(23, q20, q23, q22, q21, w4);
    let q25 = md5_step(24, q21, q24, q23, q22, r[9]);
    let q26 = md5_step(25, q22, q25, q24, q23, r[14]);
    let q27 = md5_step(26, q23, q26, q25, q24, w3);
    (
        seq![w0, r[1], w2, w3, w4, w5, r[6], r[7], r[8], r[9], r[10], r[11], r[12], r[13], r[14], r[15]],
        seq![0u32, q1, q2, t[3], t[4], t[5], t[6], t[7], t[8], t[9], t[10], t[11], t[12], t[13], t[14],
            t[15], t[16], t[17], q18, q19, q20, q21, q22, q23, q24, q25, q26, q27],
    )
}

/// The conditions of the first stage of the first-block search: the words
/// 6 to 15 of the two candidates differ as the attack needs.
pub open spec fn b1_stage1_conds() -> bool {
    let m0 = b1_round1_words(b1_targets0());
    let m1 = b1_round1_words(b1_targets1());
    &&& m0[6] == m1[6]
    &&& m0[7] == m1[7]
    &&& m0[8] == m1[8]
    &&& m0[9] == m1[9]
    &&& m0[10] == m1[10]
    &&& (m0[11] ^ m1[11]) == 0x00008000
    &&& m0[12] == m1[12]
    &&& m0[13] == m1[13]
    &&& (m0[14] ^ m1[14]) == 0x80000000
    &&& m0[15] == m1[15]
}

/// The conditions of the second stage of the first-block search, on the
/// candidates with `Q[20]` from [`b1_stage2_q20`].
pub open spec fn b1_stage2_conds(iv: [u32; 4]) -> bool {
    let (m0, q0c) = b1_candidate(iv, b1_targets0(), b1_stage2_q20());
    let (m1, q1c) = b1_candidate(iv, b1_targets1(), b1_stage2_q20().wrapping_sub(0x80000000u32));
    &&& m0[1] == m1[1]
    &&& (q0c[18] & 0xa0020000) == (0x00020000 | (q0c[17] & 0x20000000))
    &&& (q0c[18] ^ q1c[18]) == 0x80000000
    &&& (q0c[19] & 0x80020000) == 0
    &&& q0c[19].wrapping_sub(q1c[19]) == 0x7ffe0000
    &&& m0[0] == m1[0]
    &&& (m0[4] ^ m1[4]) == 0x80000000
    &&& m0[5] == m1[5]
    &&& (q0c[21] & 0x80020000) == (q0c[20] & 0x00020000)
    &&& (q0c[21] ^ q1c[21]) == 0x80000000
    &&& (q0c[22] & 0x80000000) == 0
    &&& (q0c[22] ^ q1c[22]) == 0x80000000
    &&& (q0c[23] & 0x80000000) == 0
    &&& q0c[23] == q1c[23]
    &&& q0c[24] == q1c[24]
    &&& q0c[25] == q1c[25]
    &&& q0c[26] == q1c[26]
    &&& q0c[27] == q1c[27]
}

/// The candidate blocks of the third stage of the first-block search.
pub open spec fn b1_stage3_blocks(iv: [u32; 4]) -> (Seq<u32>, Seq<u32>) {
    (
        b1_candidate(iv, b1_targets0(), b1_stage3_q20()).0,
        b1_candidate(iv, b1_targets1(), b1_stage3_q20().wrapping_sub(0x80000000u32)).0,
    )
}

/// The conditions on the words of the third stage's candidates.
pub open spec fn b1_stage3_word_conds(iv: [u32; 4]) -> bool {
    let (m0, m1) = b1_stage3_blocks(iv);
    &&& m0[0] == m1[0]
    &&& (m0[4] ^ m1[4]) == 0x80000000
    &&& m0[5] == m1[5]
}

/// The conditions of the third stage of the first-block search.
pub open spec fn b1_stage3_conds(iv: [u32; 4]) -> bool {
    let (m0, m1) = b1_stage3_blocks(iv);
    &&& b1_stage3_word_conds(iv)
    &&& b1_conds_20_31(iv, m0, m1)
    &&& b1_conds_32_47(iv, m0, m1)
    &&& b1_conds_48_63(iv, m0, m1)
}

/// The first-block search from `iv` succeeds: its candidates meet the
/// conditions of all three stages.
pub open spec fn b1_succeeds(iv: [u32; 4]) -> bool {
    &&& b1_stage1_conds()
    &&& b1_stage2_conds(iv)
    &&& b1_stage3_conds(iv)
}

/// The first stage's results: `Q[3..=16]` and the words 6 to 15 of both
/// candidates.
pub open spec fn round1_pinned(s: StateS) -> bool {
    let t0 = b1_targets0();
    let t1 = b1_targets1();
    let w0 = b1_round1_words(t0);
    let w1 = b1_round1_words(t1);
    &&& forall|k: int| 3 <= k <= 16 ==> s.q0[k] == t0[k] && s.q1[k] == t1[k]
    &&& forall|k: int| 6 <= k <= 15 ==> s.x0[k] == w0[k] && s.x1[k] == w1[k]
}

/// The second stage's results that the third stage builds on: `Q[17..=19]`
/// and the word 1 of both candidates.
pub open spec fn round2_pinned(iv: [u32; 4], s: StateS) -> bool {
    let t0 = b1_targets0();
    let t1 = b1_targets1();
    let c0 = b1_candidate(iv, t0, b1_stage2_q20());
    let c1 = b1_candidate(iv, t1, b1_stage2_q20().wrapping_sub(0x80000000u32));
    &&& round1_pinned(s)
    &&& s.q0[17] == t0[17] && s.q1[17] == t1[17]
    &&& s.q0[18] == c0.1[18] && s.q1[18] == c1.1[18]
    &&& s.q0[19] == c0.1[19] && s.q1[19] == c1.1[19]
    &&& s.x0[1] == c0.0[1] && s.x1[1] == c1.0[1]
}

/// The first stage of the first-block search: builds `Q[3..=16]` of both
/// traces from [`RAND_ARR`] and sets the words 6 to 15 that steps 6 to 15
/// need; tells whether those words differ as the attack needs.
pub fn b1_loop1_body(iv: [u32; 4], s: &mut StateS) -> (ok: bool)
    ensures
        ok == b1_stage1_conds(),
        ok ==> first_round_ready(iv, *final(s)),
        ok ==> round1_pinned(*final(s)),
        keeps_second_block(*old(s), *final(s)),
{
    let cv0 = (iv[0], iv[1], iv[2], iv[3]);
    let cv1 = cv0;
    /* c1 */
    let v: u32 = RAND_ARR[0] & !0x00800040;
    store_q(&mut s.q0, 3, v);
    let v: u32 = s.q0[3];
    store_q(&mut s.q1, 3, v);
    /* b1 */
    let v: u32 = (RAND_ARR[1] | 0x80080800) & !(0x00800040 | 0x0077f780);
    store_q(&mut s.q0, 4, v);
    let v: u32 = s.q0[4] | (s.q0[3] & 0x0077f780);
    store_q(&mut s.q0, 4, v);
    let v: u32 = s.q0[4];
    store_q(&mut s.q1, 4, v);
    /* A2 */
    let v: u32 = (RAND_ARR[2] | 0x88400025) & !0x02bfffc0;
    store_q(&mut s.q0, 5, v);
    let v: u32 = s.q0[5].wrapping_sub(0x00000040);
    store_q(&mut s.q1, 5, v);
    /* D2 */
    let v: u32 = (RAND_ARR[3] | 0x027fbc41) & !(0x888043a4 | 0x7500001a);
    store_q(&mut s.q0, 6, v);
    let v: u32 = s.q0[6] | (s.q0[5] & 0x7500001a);
    store_q(&mut s.q0, 6, v);
    let v: u32 = s.q0[6].wrapping_sub(0x7f800040);
    store_q(&mut s.q1, 6, v);
    /* C2 */
    let v: u32 = (RAND_ARR[4] | 0x03fef820) & !0xfc0107df;
    store_q(&mut s.q0, 7, v);
    let v: u32 = s.q0[7].wrapping_sub(0x07800041);
    store_q(&mut s.q1, 7, v);
    proof {
        assert(steps_ok(cv0, s.q0@, block_at(s.x0@, 0), 6, 6));
        assert(steps_ok(cv1, s.q1@, block_at(s.x1@, 0), 6, 6));
    }
    inverse_step(cv0, &s.q0, &mut s.x0, 0, 6);
    inverse_step(cv1, &s.q1, &mut s.x1, 0, 6);
    if s.x0[6] != s.x1[6] {
        return false;
    }
    proof { lemma_xor_delta(s.x0[6], s.x1[6], 0); }
    /* B2 */
    let v: u32 = (RAND_ARR[5] | 0x01910540) & !0xfe0eaabf;
    store_q(&mut s.q0, 8, v);
    let v: u32 = s.q0[8].wrapping_sub(0x00827fff);
    store_q(&mut s.q1, 8, v);
    inverse_step(cv0, &s.q0, &mut s.x0, 0, 7);
    inverse_step(cv1, &s.q1, &mut s.x1, 0, 7);
    if s.x0[7] != s.x1[7] {
        return false;
    }
    proof { lemma_xor_delta(s.x0[7], s.x1[7], 0); }
    /* A3 */
    let v: u32 = (RAND_ARR[6] | 0xfb102f3d) & !(0x040f80c2 | 0x00001000);
    store_q(&mut s.q0, 9, v);
    let v: u32 = s.q0[9] | (s.q0[8] & 0x00001000);
    store_q(&mut s.q0, 9, v);
    let v: u32 = s.q0[9].wrapping_sub(0x8000003f);
    store_q(&mut s.q1, 9, v);
    inverse_step(cv0, &s.q0, &mut s.x0, 0, 8);
    inverse_step(cv1, &s.q1, &mut s.x1, 0, 8);
    if s.x0[8] != s.x1[8] {
        return false;
    }
    proof { lemma_xor_delta(s.x0[8], s.x1[8], 0); }
    /* D3 */
    let v: u32 = (RAND_ARR[7] | 0x401f9040) & !0x80802183;
    store_q(&mut s.q0, 10, v);
    let v: u32 = s.q0[10].wrapping_sub(0x7ffff000);
    store_q(&mut s.q1, 10, v);
    inverse_step(cv0, &s.q0, &mut s.x0, 0, 9);
    inverse_step(cv1, &s.q1, &mut s.x1, 0, 9);
    if s.x0[9] != s.x1[9] {
        return false;
    }
    proof { lemma_xor_delta(s.x0[9], s.x1[9], 0); }
    /* C3 */
    let v: u32 = (RAND_ARR[8] | 0x000180c2) & !(0xc00e3101 | 0x00004000);
    store_q(&mut s.q0, 11, v);
    let v: u32 = s.q0[11] | (s.q0[10] & 0x00004000);
    store_q(&mut s.q0, 11, v);
    let v: u32 = s.q0[11].wrapping_sub(0x40000000);
    store_q(&mut s.q1, 11, v);
    inverse_step(cv0, &s.q0, &mut s.x0, 0, 10);
    inverse_step(cv1, &s.q1, &mut s.x1, 0, 10);
    if s.x0[10] != s.x1[10] {
        return false;
    }
    proof { lemma_xor_delta(s.x0[10], s.x1[10], 0); }
    /* B3 */
    let v: u32 = (RAND_ARR[9] | 0x00081100) & !(0xc007e080 | 0x03000000);
    store_q(&mut s.q0, 12, v);
    let v: u32 = s.q0[12] | (s.q0[11] & 0x03000000);
    store_q(&mut s.q0, 12, v);
    let v: u32 = s.q0[12].wrapping_sub(0x80002080);
    store_q(&mut s.q1, 12, v);
    inverse_step(cv0, &s.q0, &mut s.x0, 0, 11);
    inverse_step(cv1, &s.q1, &mut s.x1, 0, 11);
    if (s.x0[11] ^ s.x1[11]) != 0x00008000 {
        return false;
    }
    proof { lemma_xor_delta(s.x0[11], s.x1[11], 0x00008000); }
    /* A4 */
    let v: u32 = (RAND_ARR[10] | 0x410fe008) & !0x82000180;
    store_q(&mut s.q0, 13, v);
    let v: u32 = s.q0[13].wrapping_sub(0x7f000000);
    store_q(&mut s.q1, 13, v);
    inverse_step(cv0, &s.q0, &mut s.x0, 0, 12);
    inverse_step(cv1, &s.q1, &mut s.x1, 0, 12);
    if s.x0[12] != s.x1[12] {
        return false;
    }
    proof { lemma_xor_delta(s.x0[12], s.x1[12], 0); }
    /* D4 */
    let v: u32 = (RAND_ARR[11] | 0x000be188) & !0xa3040000;
    store_q(&mut s.q0, 14, v);
    let v: u32 = s.q0[14].wrapping_sub(0x80000000);
    store_q(&mut s.q1, 14, v);
    inverse_step(cv0, &s.q0, &mut s.x0, 0, 13);
    inverse_step(cv1, &s.q1, &mut s.x1, 0, 13);
    if s.x0[13] != s.x1[13] {
        return false;
    }
    proof { lemma_xor_delta(s.x0[13], s.x1[13], 0); }
    /* C4 */
    let v: u32 = (RAND_ARR[12] | 0x21008000) & !0x82000008;
    store_q(&mut s.q0, 15, v);
    let v: u32 = s.q0[15].wrapping_sub(0x80007ff8);
    store_q(&mut s.q1, 15, v);
    inverse_step(cv0, &s.q0, &mut s.x0, 0, 14);
    inverse_step(cv1, &s.q1, &mut s.x1, 0, 14);
    if (s.x0[14] ^ s.x1[14]) != 0x80000000 {
        return false;
    }
    proof { lemma_xor_delta(s.x0[14], s.x1[14], 0x80000000); }
    /* B4 */
    let v: u32 = (RAND_ARR[13] | 0x20000000) & !0x80000000;
    store_q(&mut s.q0, 16, v);
    let v: u32 = s.q0[16].wrapping_sub(0xa0000000);
    store_q(&mut s.q1, 16, v);
    inverse_step(cv0, &s.q0, &mut s.x0, 0, 15);
    inverse_step(cv1, &s.q1, &mut s.x1, 0, 15);
    if s.x0[15] != s.x1[15] {
        return false;
    }
    proof { lemma_xor_delta(s.x0[15], s.x1[15], 0); }
    proof {
        assert forall|k: int| 6 <= k < 16 implies #[trigger] s.x1@[k] == s.x0@[k] ^ wang_delta(k) by {
            assert(k == 6 || k == 7 || k == 8 || k == 9 || k == 10 || k == 11 || k == 12 || k == 13 || k == 14 || k == 15);
        }
    }
    true
}

/// The second stage of the first-block search: builds `Q[17..=19]` of both
/// traces and the word 1 that step 16 needs, then tries the rest of the
/// first round and steps 19 to 26; tells whether every condition held.
#[verifier::rlimit(60)]
pub fn b1_loop11_body(iv: [u32; 4], s: &mut StateS) -> (ok: bool)
    requires
        first_round_ready(iv, *old(s)),
        round1_pinned(*old(s)),
    ensures
        first_round_ready(iv, *final(s)),
        round1_pinned(*final(s)),
        ok == b1_stage2_conds(iv),
        ok ==> second_round_ready(iv, *final(s)),
        ok ==> round2_pinned(iv, *final(s)),
        keeps_second_block(*old(s), *final(s)),
{
    let cv0 = (iv[0], iv[1], iv[2], iv[3]);
    let cv1 = cv0;
    proof {
        assert(range_avoids_word(6, 16, 0));
        assert(range_avoids_word(6, 16, 1));
        assert(range_avoids_word(6, 16, 2));
        assert(range_avoids_word(6, 16, 3));
        assert(range_avoids_word(6, 16, 4));
        assert(range_avoids_word(6, 16, 5));
        assert(range_avoids_word(16, 19, 0));
        assert(range_avoids_word(16, 19, 2));
        assert(range_avoids_word(16, 19, 3));
        assert(range_avoids_word(16, 19, 4));
        assert(range_avoids_word(16, 19, 5));
    }
    /* A5 */
    let v: u32 = RAND_ARR[14] & !(0x80020000 | 0x00008008);
    store_q(&mut s.q0, 17, v);
    let v: u32 = s.q0[17] | (s.q0[16] & 0x00008008);
    store_q(&mut s.q0, 17, v);
    let v: u32 = s.q0[17].wrapping_sub(0x80000000);
    store_q(&mut s.q1, 17, v);
    inverse_step(cv0, &s.q0, &mut s.x0, 0, 16);
    inverse_step(cv1, &s.q1, &mut s.x1, 0, 16);
    proof {
        assert(steps_ok(cv0, s.q0@, block_at(s.x0@, 0), 16, 17));
        assert(steps_ok(cv1, s.q1@, block_at(s.x1@, 0), 16, 17));
    }
    if s.x0[1] != s.x1[1] {
        return false;
    }
    proof { lemma_xor_delta(s.x0[1], s.x1[1], 0); }
    /* D5 */
    forward_step(cv0, &mut s.q0, &s.x0, 0, 17);
    if (s.q0[18] & 0xa0020000) != (0x00020000 | (s.q0[17] & 0x20000000)) {
        return false;
    }
    forward_step(cv1, &mut s.q1, &s.x1, 0, 17);
    if (s.q0[18] ^ s.q1[18]) != 0x80000000 {
        return false;
    }
    /* C5 */
    forward_step(cv0, &mut s.q0, &s.x0, 0, 18);
    if s.q0[19] & 0x80020000 != 0 {
        return false;
    }
    forward_step(cv1, &mut s.q1, &s.x1, 0, 18);
    if s.q0[19].wrapping_sub(s.q1[19]) != 0x7ffe0000 {
        return false;
    }
    proof {
        assert(steps_ok(cv0, s.q0@, block_at(s.x0@, 0), 16, 19));
        assert(steps_ok(cv1, s.q1@, block_at(s.x1@, 0), 16, 19));
    }
    /* B5 */
    let v: u32 = RAND_ARR[15] & !0x80000000;
    store_q(&mut s.q0, 20, v);
    let v: u32 = s.q0[20].wrapping_sub(0x80000000);
    store_q(&mut s.q1, 20, v);
    inverse_step(cv0, &s.q0, &mut s.x0, 0, 19);
    inverse_step(cv1, &s.q1, &mut s.x1, 0, 19);
    if s.x0[0] != s.x1[0] {
        return false;
    }
    proof { lemma_xor_delta(s.x0[0], s.x1[0], 0); }
    forward_step(cv0, &mut s.q0, &s.x0, 0, 0);
    let v: u32 = s.q0[1];
    store_q(&mut s.q1, 1, v);
    forward_step(cv0, &mut s.q0, &s.x0, 0, 1);
    let v: u32 = s.q0[2];
    store_q(&mut s.q1, 2, v);
    inverse_step(cv0, &s.q0, &mut s.x0, 0, 2);
    let v: u32 = s.x0[2];
    store_word(&mut s.x1, 0, 2, v);
    inverse_step(cv0, &s.q0, &mut s.x0, 0, 3);
    let v: u32 = s.x0[3];
    store_word(&mut s.x1, 0, 3, v);
    inverse_step(cv0, &s.q0, &mut s.x0, 0, 4);
    inverse_step(cv1, &s.q1, &mut s.x1, 0, 4);
    if (s.x0[4] ^ s.x1[4]) != 0x80000000 {
        return false;
    }
    proof { lemma_xor_delta(s.x0[4], s.x1[4], 0x80000000); }
    inverse_step(cv0, &s.q0, &mut s.x0, 0, 5);
    inverse_step(cv1, &s.q1, &mut s.x1, 0, 5);
    if s.x0[5] != s.x1[5] {
        return false;
    }
    proof { lemma_xor_delta(s.x0[5], s.x1[5], 0); }
    /* A6 */
    forward_step(cv0, &mut s.q0, &s.x0, 0, 20);
    if (s.q0[21] & 0x80020000) != (s.q0[20] & 0x00020000) {
        return false;
    }
    forward_step(cv1, &mut s.q1, &s.x1, 0, 20);
    if (s.q0[21] ^ s.q1[21]) != 0x80000000 {
        return false;
    }
    /* D6 */
    forward_step(cv0, &mut s.q0, &s.x0, 0, 21);
    if s.q0[22] & 0x80000000 != 0 {
        return false;
    }
    forward_step(cv1, &mut s.q1, &s.x1, 0, 21);
    if (s.q0[22] ^ s.q1[22]) != 0x80000000 {
        return false;
    }
    /* C6 */
    forward_step(cv0, &mut s.q0, &s.x0, 0, 22);
    if s.q0[23] & 0x80000000 != 0 {
        return false;
    }
    forward_step(cv1, &mut s.q1, &s.x1, 0, 22);
    if s.q0[23] != s.q1[23] {
        return false;
    }
    /* B6 */
    forward_step(cv0, &mut s.q0, &s.x0, 0, 23);
    forward_step(cv1, &mut s.q1, &s.x1, 0, 23);
    if s.q0[24] != s.q1[24] {
        return false;
    }
    /* A7 */
    forward_step(cv0, &mut s.q0, &s.x0, 0, 24);
    forward_step(cv1, &mut s.q1, &s.x1, 0, 24);
    if s.q0[25] != s.q1[25] {
        return false;
    }
    /* D7 */
    forward_step(cv0, &mut s.q0, &s.x0, 0, 25);
    forward_step(cv1, &mut s.q1, &s.x1, 0, 25);
    if s.q0[26] != s.q1[26] {
        return false;
    }
    /* C7 */
    forward_step(cv0, &mut s.q0, &s.x0, 0, 26);
    forward_step(cv1, &mut s.q1, &s.x1, 0, 26);
    if s.q0[27] != s.q1[27] {
        return false;
    }
    true
}

/// The start of the third stage of the first-block search: fixes `Q[20]`,
/// sets the word 0 that step 19 needs, runs steps 0 and 1, and sets the
/// words 2 to 5 that steps 2 to 5 need; tells whether the words differ as
/// the attack needs.
#[verifier::rlimit(40)]
pub fn b1_loop12_head(iv: [u32; 4], s: &mut StateS) -> (ok: bool)
    requires
        second_round_ready(iv, *old(s)),
        round2_pinned(iv, *old(s)),
    ensures
        second_round_ready(iv, *final(s)),
        round2_pinned(iv, *final(s)),
        ok == b1_stage3_word_conds(iv),
        ok ==> first_steps(iv, *final(s), 0, 20),
        ok ==> deltas_ok(final(s).x0@, final(s).x1@, 0, 16),
        ok ==> block_at(final(s).x0@, 0) == b1_stage3_blocks(iv).0,
        ok ==> block_at(final(s).x1@, 0) == b1_stage3_blocks(iv).1,
        keeps_second_block(*old(s), *final(s)),
{
    let cv0 = (iv[0], iv[1], iv[2], iv[3]);
    let cv1 = cv0;
    proof {
        assert(range_avoids_word(6, 16, 0));
        assert(range_avoids_word(6, 16, 2));
        assert(range_avoids_word(6, 16, 3));
        assert(range_avoids_word(6, 16, 4));
        assert(range_avoids_word(6, 16, 5));
        assert(range_avoids_word(16, 19, 0));
        assert(range_avoids_word(16, 19, 2));
        assert(range_avoids_word(16, 19, 3));
        assert(range_avoids_word(16, 19, 4));
        assert(range_avoids_word(16, 19, 5));
        assert(range_avoids_word(19, 20, 2));
        assert(range_avoids_word(19, 20, 3));
        assert(range_avoids_word(19, 20, 4));
        assert(range_avoids_word(19, 20, 5));
        assert(range_avoids_word(0, 2, 2));
        assert(range_avoids_word(0, 3, 3));
    }
    /* B5 */
    let v: u32 = 886608102;
    store_q(&mut s.q0, 20, v);
    let v: u32 = s.q0[20].wrapping_sub(0x80000000);
    store_q(&mut s.q1, 20, v);
    inverse_step(cv0, &s.q0, &mut s.x0, 0, 19);
    inverse_step(cv1, &s.q1, &mut s.x1, 0, 19);
    proof {
        assert(steps_ok(cv0, s.q0@, block_at(s.x0@, 0), 19, 20));
        assert(steps_ok(cv1, s.q1@, block_at(s.x1@, 0), 19, 20));
    }
    if s.x0[0] != s.x1[0] {
        return false;
    }
    proof { lemma_xor_delta(s.x0[0], s.x1[0], 0); }
    proof {
        assert(steps_ok(cv0, s.q0@, block_at(s.x0@, 0), 0, 0));
    }
    forward_step(cv0, &mut s.q0, &s.x0, 0, 0);
    let v: u32 = s.q0[1];
    store_q(&mut s.q1, 1, v);
    proof {
        assert(step_ok(cv1, s.q1@, block_at(s.x1@, 0), 0));
        assert(steps_ok(cv1, s.q1@, block_at(s.x1@, 0), 0, 1));
    }
    forward_step(cv0, &mut s.q0, &s.x0, 0, 1);
    let v: u32 = s.q0[2];
    store_q(&mut s.q1, 2, v);
    proof {
        assert(step_ok(cv1, s.q1@, block_at(s.x1@, 0), 1));
        assert(steps_ok(cv1, s.q1@, block_at(s.x1@, 0), 1, 2));
        lemma_steps_ok_concat(cv1, s.q1@, block_at(s.x1@, 0), 0, 1, 2);
    }
    inverse_step(cv0, &s.q0, &mut s.x0, 0, 2);
    let v: u32 = s.x0[2];
    store_word(&mut s.x1, 0, 2, v);
    proof {
        assert(step_ok(cv1, s.q1@, block_at(s.x1@, 0), 2));
        assert(steps_ok(cv1, s.q1@, block_at(s.x1@, 0), 2, 3));
        lemma_steps_ok_concat(cv1, s.q1@, block_at(s.x1@, 0), 0, 2, 3);
    }
    inverse_step(cv0, &s.q0, &mut s.x0, 0, 3);
    let v: u32 = s.x0[3];
    store_word(&mut s.x1, 0, 3, v);
    proof {
        assert(step_ok(cv1, s.q1@, block_at(s.x1@, 0), 3));
        assert(steps_ok(cv1, s.q1@, block_at(s.x1@, 0), 3, 4));
        lemma_steps_ok_concat(cv1, s.q1@, block_at(s.x1@, 0), 0, 3, 4);
    }
    inverse_step(cv0, &s.q0, &mut s.x0, 0, 4);
    inverse_step(cv1, &s.q1, &mut s.x1, 0, 4);
    if (s.x0[4] ^ s.x1[4]) != 0x80000000 {
        return false;
    }
    proof { lemma_xor_delta(s.x0[4], s.x1[4], 0x80000000); }
    inverse_step(cv0, &s.q0, &mut s.x0, 0, 5);
    inverse_step(cv1, &s.q1, &mut s.x1, 0, 5);
    if s.x0[5] != s.x1[5] {
        return false;
    }
    proof { lemma_xor_delta(s.x0[5], s.x1[5], 0); }
    proof {
        let ghost b0 = block_at(s.x0@, 0);
        let ghost b1 = block_at(s.x1@, 0);
        lemma_steps_ok_concat(cv0, s.q0@, b0, 0, 6, 16);
        lemma_steps_ok_concat(cv0, s.q0@, b0, 0, 16, 19);
        lemma_steps_ok_concat(cv0, s.q0@, b0, 0, 19, 20);
        lemma_steps_ok_concat(cv1, s.q1@, b1, 0, 6, 16);
        lemma_steps_ok_concat(cv1, s.q1@, b1, 0, 16, 19);
        lemma_steps_ok_concat(cv1, s.q1@, b1, 0, 19, 20);
        lemma_xor_delta(s.x0[1], s.x1[1], 0);
        lemma_xor_delta(s.x0[2], s.x1[2], 0);
        lemma_xor_delta(s.x0[3], s.x1[3], 0);
        assert forall|k: int| 0 <= k < 16 implies #[trigger] s.x1@[k] == s.x0@[k] ^ wang_delta(k) by {
            if k < 6 {
                assert(k == 0 || k == 1 || k == 2 || k == 3 || k == 4 || k == 5);
            }
        }
    }
    proof {
        let (m0, m1) = b1_stage3_blocks(iv);
        assert(block_at(s.x0@, 0) =~= m0);
        assert(block_at(s.x1@, 0) =~= m1);
    }
    true
}

/// The conditions that steps 20 to 31 of both first blocks must meet.
#[verifier::opaque]
pub open spec fn b1_conds_20_31(iv: [u32; 4], m0: Seq<u32>, m1: Seq<u32>) -> bool {
    &&& (trace_word(iv_chain(iv), m0, 21) & 0x80020000) == (trace_word(iv_chain(iv), m0, 20) & 0x00020000)
    &&& (trace_word(iv_chain(iv), m0, 21) ^ trace_word(iv_chain(iv), m1, 21)) == 0x80000000
    &&& (trace_word(iv_chain(iv), m0, 22) & 0x80000000) == 0
    &&& (trace_word(iv_chain(iv), m0, 22) ^ trace_word(iv_chain(iv), m1, 22)) == 0x80000000
    &&& (trace_word(iv_chain(iv), m0, 23) & 0x80000000) == 0
    &&& (trace_word(iv_chain(iv), m0, 23)) == (trace_word(iv_chain(iv), m1, 23))
    &&& (trace_word(iv_chain(iv), m0, 24)) == (trace_word(iv_chain(iv), m1, 24))
    &&& (trace_word(iv_chain(iv), m0, 25)) == (trace_word(iv_chain(iv), m1, 25))
    &&& (trace_word(iv_chain(iv), m0, 26)) == (trace_word(iv_chain(iv), m1, 26))
    &&& (trace_word(iv_chain(iv), m0, 27)) == (trace_word(iv_chain(iv), m1, 27))
    &&& (trace_word(iv_chain(iv), m0, 28)) == (trace_word(iv_chain(iv), m1, 28))
    &&& (trace_word(iv_chain(iv), m0, 29)) == (trace_word(iv_chain(iv), m1, 29))
    &&& (trace_word(iv_chain(iv), m0, 30)) == (trace_word(iv_chain(iv), m1, 30))
    &&& (trace_word(iv_chain(iv), m0, 31)) == (trace_word(iv_chain(iv), m1, 31))
    &&& (trace_word(iv_chain(iv), m0, 32)) == (trace_word(iv_chain(iv), m1, 32))
}

/// Runs steps 20 to 31 of both first blocks; tells whether they meet the
/// attack's conditions.
pub fn b1_steps_20_31(iv: [u32; 4], s: &mut StateS) -> (ok: bool)
    requires
        first_steps(iv, *old(s), 0, 20),
    ensures
        final(s).x0 == old(s).x0,
        final(s).x1 == old(s).x1,
        forall|j: int| 0 <= j <= 20 ==> final(s).q0[j] == old(s).q0[j] && final(s).q1[j] == old(s).q1[j],
        final(s).ct1 == old(s).ct1 && final(s).ct2 == old(s).ct2,
        ok == b1_conds_20_31(iv, block_at(old(s).x0@, 0), block_at(old(s).x1@, 0)),
        ok ==> first_steps(iv, *final(s), 0, 32),
{
    let cv0 = (iv[0], iv[1], iv[2], iv[3]);
    let cv1 = cv0;
    proof {
        reveal(b1_conds_20_31);
    }
    proof {
        lemma_trace_word_at(cv0, s.q0@, block_at(s.x0@, 0), 20, 20);
        lemma_trace_word_at(cv1, s.q1@, block_at(s.x1@, 0), 20, 20);
        lemma_trace_word_at(cv0, s.q0@, block_at(s.x0@, 0), 19, 20);
        lemma_trace_word_at(cv1, s.q1@, block_at(s.x1@, 0), 19, 20);
        lemma_trace_word_at(cv0, s.q0@, block_at(s.x0@, 0), 18, 20);
        lemma_trace_word_at(cv1, s.q1@, block_at(s.x1@, 0), 18, 20);
    }
    /* A6 */
    forward_step(cv0, &mut s.q0, &s.x0, 0, 20);
    proof {
        lemma_trace_word_at(cv0, s.q0@, block_at(s.x0@, 0), 21, 21);
    }
    if (s.q0[21] & 0x80020000) != (s.q0[20] & 0x00020000) {
        return false;
    }
    forward_step(cv1, &mut s.q1, &s.x1, 0, 20);
    proof {
        lemma_trace_word_at(cv1, s.q1@, block_at(s.x1@, 0), 21, 21);
    }
    if (s.q0[21] ^ s.q1[21]) != 0x80000000 {
        return false;
    }
    /* D6 */
    forward_step(cv0, &mut s.q0, &s.x0, 0, 21);
    proof {
        lemma_trace_word_at(cv0, s.q0@, block_at(s.x0@, 0), 22, 22);
    }
    if s.q0[22] & 0x80000000 != 0 {
        return false;
    }
    forward_step(cv1, &mut s.q1, &s.x1, 0, 21);
    proof {
        lemma_trace_word_at(cv1, s.q1@, block_at(s.x1@, 0), 22, 22);
    }
    if (s.q0[22] ^ s.q1[22]) != 0x80000000 {
        return false;
    }
    /* C6 */
    forward_step(cv0, &mut s.q0, &s.x0, 0, 22);
    proof {
        lemma_trace_word_at(cv0, s.q0@, block_at(s.x0@, 0), 23, 23);
    }
    if s.q0[23] & 0x80000000 != 0 {
        return false;
    }
    forward_step(cv1, &mut s.q1, &s.x1, 0, 22);
    proof {
        lemma_trace_word_at(cv1, s.q1@, block_at(s.x1@, 0), 23, 23);
    }
    if s.q0[23] != s.q1[23] {
        return false;
    }
    /* B6 */
    forward_step(cv0, &mut s.q0, &s.x0, 0, 23);
    proof {
        lemma_trace_word_at(cv0, s.q0@, block_at(s.x0@, 0), 24, 24);
    }
    forward_step(cv1, &mut s.q1, &s.x1, 0, 23);
    proof {
        lemma_trace_word_at(cv1, s.q1@, block_at(s.x1@, 0), 24, 24);
    }
    if s.q0[24] != s.q1[24] {
        return false;
    }
    /* A7 */
    forward_step(cv0, &mut s.q0, &s.x0, 0, 24);
    proof {
        lemma_trace_word_at(cv0, s.q0@, block_at(s.x0@, 0), 25, 25);
    }
    forward_step(cv1, &mut s.q1, &s.x1, 0, 24);
    proof {
        lemma_trace_word_at(cv1, s.q1@, block_at(s.x1@, 0), 25, 25);
    }
    if s.q0[25] != s.q1[25] {
        return false;
    }
    /* D7 */
    forward_step(cv0, &mut s.q0, &s.x0, 0, 25);
    proof {
        lemma_trace_word_at(cv0, s.q0@, block_at(s.x0@, 0), 26, 26);
    }
    forward_step(cv1, &mut s.q1, &s.x1, 0, 25);
    proof {
        lemma_trace_word_at(cv1, s.q1@, block_at(s.x1@, 0), 26, 26);
    }
    if s.q0[26] != s.q1[26] {
        return false;
    }
    /* C7 */
    forward_step(cv0, &mut s.q0, &s.x0, 0, 26);
    proof {
        lemma_trace_word_at(cv0, s.q0@, block_at(s.x0@, 0), 27, 27);
    }
    forward_step(cv1, &mut s.q1, &s.x1, 0, 26);
    proof {
        lemma_trace_word_at(cv1, s.q1@, block_at(s.x1@, 0), 27, 27);
    }
    if s.q0[27] != s.q1[27] {
        return false;
    }
    /* B7 */
    forward_step(cv0, &mut s.q0, &s.x0, 0, 27);
    proof {
        lemma_trace_word_at(cv0, s.q0@, block_at(s.x0@, 0), 28, 28);
    }
    forward_step(cv1, &mut s.q1, &s.x1, 0, 27);
    proof {
        lemma_trace_word_at(cv1, s.q1@, block_at(s.x1@, 0), 28, 28);
    }
    if s.q0[28] != s.q1[28] {
        return false;
    }
    /* A8 */
    forward_step(cv0, &mut s.q0, &s.x0, 0, 28);
    proof {
        lemma_trace_word_at(cv0, s.q0@, block_at(s.x0@, 0), 29, 29);
    }
    forward_step(cv1, &mut s.q1, &s.x1, 0, 28);
    proof {
        lemma_trace_word_at(cv1, s.q1@, block_at(s.x1@, 0), 29, 29);
    }
    if s.q0[29] != s.q1[29] {
        return false;
    }
    /* D8 */
    forward_step(cv0, &mut s.q0, &s.x0, 0, 29);
    proof {
        lemma_trace_word_at(cv0, s.q0@, block_at(s.x0@, 0), 30, 30);
    }
    forward_step(cv1, &mut s.q1, &s.x1, 0, 29);
    proof {
        lemma_trace_word_at(cv1, s.q1@, block_at(s.x1@, 0), 30, 30);
    }
    if s.q0[30] != s.q1[30] {
        return false;
    }
    /* C8 */
    forward_step(cv0, &mut s.q0, &s.x0, 0, 30);
    proof {
        lemma_trace_word_at(cv0, s.q0@, block_at(s.x0@, 0), 31, 31);
    }
    forward_step(cv1, &mut s.q1, &s.x1, 0, 30);
    proof {
        lemma_trace_word_at(cv1, s.q1@, block_at(s.x1@, 0), 31, 31);
    }
    if s.q0[31] != s.q1[31] {
        return false;
    }
    /* B8 */
    forward_step(cv0, &mut s.q0, &s.x0, 0, 31);
    proof {
        lemma_trace_word_at(cv0, s.q0@, block_at(s.x0@, 0), 32, 32);
    }
    forward_step(cv1, &mut s.q1, &s.x1, 0, 31);
    proof {
        lemma_trace_word_at(cv1, s.q1@, block_at(s.x1@, 0), 32, 32);
    }
    if s.q0[32] != s.q1[32] {
        return false;
    }
    true
}

/// The conditions that steps 32 to 47 of both first blocks must meet.
#[verifier::opaque]
pub open spec fn b1_conds_32_47(iv: [u32; 4], m0: Seq<u32>, m1: Seq<u32>) -> bool {
    &&& (trace_word(iv_chain(iv), m0, 33)) == (trace_word(iv_chain(iv), m1, 33))
    &&& (trace_word(iv_chain(iv), m0, 34)) == (trace_word(iv_chain(iv), m1, 34))
    &&& (trace_word(iv_chain(iv), m0, 35) ^ trace_word(iv_chain(iv), m1, 35)) == 0x80000000
    &&& (trace_word(iv_chain(iv), m0, 36) ^ trace_word(iv_chain(iv), m1, 36)) == 0x80000000
    &&& (trace_word(iv_chain(iv), m0, 37) ^ trace_word(iv_chain(iv), m1, 37)) == 0x80000000
    &&& (trace_word(iv_chain(iv), m0, 38) ^ trace_word(iv_chain(iv), m1, 38)) == 0x80000000
    &&& (trace_word(iv_chain(iv), m0, 39) ^ trace_word(iv_chain(iv), m1, 39)) == 0x80000000
    &&& (trace_word(iv_chain(iv), m0, 40) ^ trace_word(iv_chain(iv), m1, 40)) == 0x80000000
    &&& (trace_word(iv_chain(iv), m0, 41) ^ trace_word(iv_chain(iv), m1, 41)) == 0x80000000
    &&& (trace_word(iv_chain(iv), m0, 42) ^ trace_word(iv_chain(iv), m1, 42)) == 0x80000000
    &&& (trace_word(iv_chain(iv), m0, 43) ^ trace_word(iv_chain(iv), m1, 43)) == 0x80000000
    &&& (trace_word(iv_chain(iv), m0, 44) ^ trace_word(iv_chain(iv), m1, 44)) == 0x80000000
    &&& (trace_word(iv_chain(iv), m0, 45) ^ trace_word(iv_chain(iv), m1, 45)) == 0x80000000
    &&& (trace_word(iv_chain(iv), m0, 46) ^ trace_word(iv_chain(iv), m1, 46)) == 0x80000000
    &&& (trace_word(iv_chain(iv), m0, 47) ^ trace_word(iv_chain(iv), m1, 47)) == 0x80000000
    &&& ((trace_word(iv_chain(iv), m0, 48) ^ trace_word(iv_chain(iv), m0, 46)) & 0x80000000) == 0
    &&& (trace_word(iv_chain(iv), m0, 48) ^ trace_word(iv_chain(iv), m1, 48)) == 0x80000000
}

/// Runs steps 32 to 47 of both first blocks; tells whether they meet the
/// attack's conditions.
pub fn b1_steps_32_47(iv: [u32; 4], s: &mut StateS) -> (ok: bool)
    requires
        first_steps(iv, *old(s), 0, 32),
    ensures
        final(s).x0 == old(s).x0,
        final(s).x1 == old(s).x1,
        forall|j: int| 0 <= j <= 32 ==> final(s).q0[j] == old(s).q0[j] && final(s).q1[j] == old(s).q1[j],
        final(s).ct1 == old(s).ct1 && final(s).ct2 == old(s).ct2,
        ok == b1_conds_32_47(iv, block_at(old(s).x0@, 0), block_at(old(s).x1@, 0)),
        ok ==> first_steps(iv, *final(s), 0, 48),
{
    let cv0 = (iv[0], iv[1], iv[2], iv[3]);
    let cv1 = cv0;
    proof {
        reveal(b1_conds_32_47);
    }
    proof {
        lemma_trace_word_at(cv0, s.q0@, block_at(s.x0@, 0), 32, 32);
        lemma_trace_word_at(cv1, s.q1@, block_at(s.x1@, 0), 32, 32);
        lemma_trace_word_at(cv0, s.q0@, block_at(s.x0@, 0), 31, 32);
        lemma_trace_word_at(cv1, s.q1@, block_at(s.x1@, 0), 31, 32);
        lemma_trace_word_at(cv0, s.q0@, block_at(s.x0@, 0), 30, 32);
        lemma_trace_word_at(cv1, s.q1@, block_at(s.x1@, 0), 30, 32);
    }
    /* A9 */
    forward_step(cv0, &mut s.q0, &s.x0, 0, 32);
    proof {
        lemma_trace_word_at(cv0, s.q0@, block_at(s.x0@, 0), 33, 33);
    }
    forward_step(cv1, &mut s.q1, &s.x1, 0, 32);
    proof {
        lemma_trace_word_at(cv1, s.q1@, block_at(s.x1@, 0), 33, 33);
    }
    if s.q0[33] != s.q1[33] {
        return false;
    }
    /* D9 */
    forward_step(cv0, &mut s.q0, &s.x0, 0, 33);
    proof {
        lemma_trace_word_at(cv0, s.q0@, block_at(s.x0@, 0), 34, 34);
    }
    forward_step(cv1, &mut s.q1, &s.x1, 0, 33);
    proof {
        lemma_trace_word_at(cv1, s.q1@, block_at(s.x1@, 0), 34, 34);
    }
    if s.q0[34] != s.q1[34] {
        return false;
    }
    /* C9 */
    forward_step(cv0, &mut s.q0, &s.x0, 0, 34);
    proof {
        lemma_trace_word_at(cv0, s.q0@, block_at(s.x0@, 0), 35, 35);
    }
    forward_step(cv1, &mut s.q1, &s.x1, 0, 34);
    proof {
        lemma_trace_word_at(cv1, s.q1@, block_at(s.x1@, 0), 35, 35);
    }
    if (s.q0[35] ^ s.q1[35]) != 0x80000000 {
        return false;
    }
    /* B9 */
    forward_step(cv0, &mut s.q0, &s.x0, 0, 35);
    proof {
        lemma_trace_word_at(cv0, s.q0@, block_at(s.x0@, 0), 36, 36);
    }
    forward_step(cv1, &mut s.q1, &s.x1, 0, 35);
    proof {
        lemma_trace_word_at(cv1, s.q1@, block_at(s.x1@, 0), 36, 36);
    }
    if (s.q0[36] ^ s.q1[36]) != 0x80000000 {
        return false;
    }
    /* A10 */
    forward_step(cv0, &mut s.q0, &s.x0, 0, 36);
    proof {
        lemma_trace_word_at(cv0, s.q0@, block_at(s.x0@, 0), 37, 37);
    }
    forward_step(cv1, &mut s.q1, &s.x1, 0, 36);
    proof {
        lemma_trace_word_at(cv1, s.q1@, block_at(s.x1@, 0), 37, 37);
    }
    if (s.q0[37] ^ s.q1[37]) != 0x80000000 {
        return false;
    }
    /* D10 */
    forward_step(cv0, &mut s.q0, &s.x0, 0, 37);
    proof {
        lemma_trace_word_at(cv0, s.q0@, block_at(s.x0@, 0), 38, 38);
    }
    forward_step(cv1, &mut s.q1, &s.x1, 0, 37);
    proof {
        lemma_trace_word_at(cv1, s.q1@, block_at(s.x1@, 0), 38, 38);
    }
    if (s.q0[38] ^ s.q1[38]) != 0x80000000 {
        return false;
    }
    /* C10 */
    forward_step(cv0, &mut s.q0, &s.x0, 0, 38);
    proof {
        lemma_trace_word_at(cv0, s.q0@, block_at(s.x0@, 0), 39, 39);
    }
    forward_step(cv1, &mut s.q1, &s.x1, 0, 38);
    proof {
        lemma_trace_word_at(cv1, s.q1@, block_at(s.x1@, 0), 39, 39);
    }
    if (s.q0[39] ^ s.q1[39]) != 0x80000000 {
        return false;
    }
    /* B10 */
    forward_step(cv0, &mut s.q0, &s.x0, 0, 39);
    proof {
        lemma_trace_word_at(cv0, s.q0@, block_at(s.x0@, 0), 40, 40);
    }
    forward_step(cv1, &mut s.q1, &s.x1, 0, 39);
    proof {
        lemma_trace_word_at(cv1, s.q1@, block_at(s.x1@, 0), 40, 40);
    }
    if (s.q0[40] ^ s.q1[40]) != 0x80000000 {
        return false;
    }
    /* A11 */
    forward_step(cv0, &mut s.q0, &s.x0, 0, 40);
    proof {
        lemma_trace_word_at(cv0, s.q0@, block_at(s.x0@, 0), 41, 41);
    }
    forward_step(cv1, &mut s.q1, &s.x1, 0, 40);
    proof {
        lemma_trace_word_at(cv1, s.q1@, block_at(s.x1@, 0), 41, 41);
    }
    if (s.q0[41] ^ s.q1[41]) != 0x80000000 {
        return false;
    }
    /* D11 */
    forward_step(cv0, &mut s.q0, &s.x0, 0, 41);
    proof {
        lemma_trace_word_at(cv0, s.q0@, block_at(s.x0@, 0), 42, 42);
    }
    forward_step(cv1, &mut s.q1, &s.x1, 0, 41);
    proof {
        lemma_trace_word_at(cv1, s.q1@, block_at(s.x1@, 0), 42, 42);
    }
    if (s.q0[42] ^ s.q1[42]) != 0x80000000 {
        return false;
    }
    /* C11 */
    forward_step(cv0, &mut s.q0, &s.x0, 0, 42);
    proof {
        lemma_trace_word_at(cv0, s.q0@, block_at(s.x0@, 0), 43, 43);
    }
    forward_step(cv1, &mut s.q1, &s.x1, 0, 42);
    proof {
        lemma_trace_word_at(cv1, s.q1@, block_at(s.x1@, 0), 43, 43);
    }
    if (s.q0[43] ^ s.q1[43]) != 0x80000000 {
        return false;
    }
    /* B11 */
    forward_step(cv0, &mut s.q0, &s.x0, 0, 43);
    proof {
        lemma_trace_word_at(cv0, s.q0@, block_at(s.x0@, 0), 44, 44);
    }
    forward_step(cv1, &mut s.q1, &s.x1, 0, 43);
    proof {
        lemma_trace_word_at(cv1, s.q1@, block_at(s.x1@, 0), 44, 44);
    }
    if (s.q0[44] ^ s.q1[44]) != 0x80000000 {
        return false;
    }
    /* A12 */
    forward_step(cv0, &mut s.q0, &s.x0, 0, 44);
    proof {
        lemma_trace_word_at(cv0, s.q0@, block_at(s.x0@, 0), 45, 45);
    }
    forward_step(cv1, &mut s.q1, &s.x1, 0, 44);
    proof {
        lemma_trace_word_at(cv1, s.q1@, block_at(s.x1@, 0), 45, 45);
    }
    if (s.q0[45] ^ s.q1[45]) != 0x80000000 {
        return false;
    }
    /* D12 */
    forward_step(cv0, &mut s.q0, &s.x0, 0, 45);
    proof {
        lemma_trace_word_at(cv0, s.q0@, block_at(s.x0@, 0), 46, 46);
    }
    forward_step(cv1, &mut s.q1, &s.x1, 0, 45);
    proof {
        lemma_trace_word_at(cv1, s.q1@, block_at(s.x1@, 0), 46, 46);
    }
    if (s.q0[46] ^ s.q1[46]) != 0x80000000 {
        return false;
    }
    /* C12 */
    forward_step(cv0, &mut s.q0, &s.x0, 0, 46);
    proof {
        lemma_trace_word_at(cv0, s.q0@, block_at(s.x0@, 0), 47, 47);
    }
    forward_step(cv1, &mut s.q1, &s.x1, 0, 46);
    proof {
        lemma_trace_word_at(cv1, s.q1@, block_at(s.x1@, 0), 47, 47);
    }
    if (s.q0[47] ^ s.q1[47]) != 0x80000000 {
        return false;
    }
    /* B12 */
    forward_step(cv0, &mut s.q0, &s.x0, 0, 47);
    proof {
        lemma_trace_word_at(cv0, s.q0@, block_at(s.x0@, 0), 48, 48);
    }
    if (s.q0[48] ^ s.q0[46]) & 0x80000000 != 0 {
        return false;
    }
    forward_step(cv1, &mut s.q1, &s.x1, 0, 47);
    proof {
        lemma_trace_word_at(cv1, s.q1@, block_at(s.x1@, 0), 48, 48);
    }
    if (s.q0[48] ^ s.q1[48]) != 0x80000000 {
        return false;
    }
    true
}

/// The conditions that steps 48 to 63 of both first blocks must meet.
#[verifier::opaque]
pub open spec fn b1_conds_48_63(iv: [u32; 4], m0: Seq<u32>, m1: Seq<u32>) -> bool {
    &&& ((trace_word(iv_chain(iv), m0, 49) ^ trace_word(iv_chain(iv), m0, 47)) & 0x80000000) == 0
    &&& (trace_word(iv_chain(iv), m0, 49) ^ trace_word(iv_chain(iv), m1, 49)) == 0x80000000
    &&& ((trace_word(iv_chain(iv), m0, 50) ^ trace_word(iv_chain(iv), m0, 48)) & 0x80000000) != 0
    &&& (trace_word(iv_chain(iv), m0, 50) ^ trace_word(iv_chain(iv), m1, 50)) == 0x80000000
    &&& ((trace_word(iv_chain(iv), m0, 51) ^ trace_word(iv_chain(iv), m0, 49)) & 0x80000000) == 0
    &&& (trace_word(iv_chain(iv), m0, 51) ^ trace_word(iv_chain(iv), m1, 51)) == 0x80000000
    &&& ((trace_word(iv_chain(iv), m0, 52) ^ trace_word(iv_chain(iv), m0, 50)) & 0x80000000) == 0
    &&& (trace_word(iv_chain(iv), m0, 52) ^ trace_word(iv_chain(iv), m1, 52)) == 0x80000000
    &&& ((trace_word(iv_chain(iv), m0, 53) ^ trace_word(iv_chain(iv), m0, 51)) & 0x80000000) == 0
    &&& (trace_word(iv_chain(iv), m0, 53) ^ trace_word(iv_chain(iv), m1, 53)) == 0x80000000
    &&& ((trace_word(iv_chain(iv), m0, 54) ^ trace_word(iv_chain(iv), m0, 52)) & 0x80000000) == 0
    &&& (trace_word(iv_chain(iv), m0, 54) ^ trace_word(iv_chain(iv), m1, 54)) == 0x80000000
    &&& ((trace_word(iv_chain(iv), m0, 55) ^ trace_word(iv_chain(iv), m0, 53)) & 0x80000000) == 0
    &&& (trace_word(iv_chain(iv), m0, 55) ^ trace_word(iv_chain(iv), m1, 55)) == 0x80000000
    &&& ((trace_word(iv_chain(iv), m0, 56) ^ trace_word(iv_chain(iv), m0, 54)) & 0x80000000) == 0
    &&& (trace_word(iv_chain(iv), m0, 56) ^ trace_word(iv_chain(iv), m1, 56)) == 0x80000000
    &&& ((trace_word(iv_chain(iv), m0, 57) ^ trace_word(iv_chain(iv), m0, 55)) & 0x80000000) == 0
    &&& (trace_word(iv_chain(iv), m0, 57) ^ trace_word(iv_chain(iv), m1, 57)) == 0x80000000
    &&& ((trace_word(iv_chain(iv), m0, 58) ^ trace_word(iv_chain(iv), m0, 56)) & 0x80000000) == 0
    &&& (trace_word(iv_chain(iv), m0, 58) ^ trace_word(iv_chain(iv), m1, 58)) == 0x80000000
    &&& ((trace_word(iv_chain(iv), m0, 59) ^ trace_word(iv_chain(iv), m0, 57)) & 0x80000000) == 0
    &&& (trace_word(iv_chain(iv), m0, 59) ^ trace_word(iv_chain(iv), m1, 59)) == 0x80000000
    &&& (trace_word(iv_chain(iv), m0, 60) & 0x02000000) == 0
    &&& (trace_word(iv_chain(iv), m0, 60) ^ trace_word(iv_chain(iv), m1, 60)) == 0x80000000
    &&& (iv[0].wrapping_add(trace_word(iv_chain(iv), m0, 61)) ^ iv[0].wrapping_add(trace_word(iv_chain(iv), m1, 61))) == 0x80000000
    &&& (iv[3].wrapping_add(trace_word(iv_chain(iv), m0, 62)) & 0x02000000) == 0
    &&& (iv[3].wrapping_add(trace_word(iv_chain(iv), m0, 62)).wrapping_sub(iv[3].wrapping_add(trace_word(iv_chain(iv), m1, 62)))) == 0x7e000000
    &&& (iv[2].wrapping_add(trace_word(iv_chain(iv), m0, 63)) & 0x86000000) == ((iv[3].wrapping_add(trace_word(iv_chain(iv), m0, 62)) & 0x80000000) | 0x02000000)
    &&& (iv[2].wrapping_add(trace_word(iv_chain(iv), m0, 63)).wrapping_sub(iv[2].wrapping_add(trace_word(iv_chain(iv), m1, 63)))) == 0x7e000000
    &&& (iv[1].wrapping_add(trace_word(iv_chain(iv), m0, 64)) & 0x86000020) == (iv[2].wrapping_add(trace_word(iv_chain(iv), m0, 63)) & 0x80000000)
    &&& (iv[1].wrapping_add(trace_word(iv_chain(iv), m0, 64)).wrapping_sub(iv[1].wrapping_add(trace_word(iv_chain(iv), m1, 64)))) == 0x7e000000
}

/// Runs steps 48 to 63 of both first blocks; tells whether they meet the
/// attack's conditions.
pub fn b1_steps_48_63(iv: [u32; 4], s: &mut StateS) -> (ok: bool)
    requires
        first_steps(iv, *old(s), 0, 48),
    ensures
        final(s).x0 == old(s).x0,
        final(s).x1 == old(s).x1,
        forall|j: int| 0 <= j <= 48 ==> final(s).q0[j] == old(s).q0[j] && final(s).q1[j] == old(s).q1[j],
        final(s).ct1 == old(s).ct1 && final(s).ct2 == old(s).ct2,
        ok == b1_conds_48_63(iv, block_at(old(s).x0@, 0), block_at(old(s).x1@, 0)),
        ok ==> first_steps(iv, *final(s), 0, 64),
        ok ==> final(s).a0 == iv[0].wrapping_add(final(s).q0[61]),
        ok ==> final(s).b0 == iv[1].wrapping_add(final(s).q0[64]),
        ok ==> final(s).c0 == iv[2].wrapping_add(final(s).q0[63]),
        ok ==> final(s).d0 == iv[3].wrapping_add(final(s).q0[62]),
        ok ==> final(s).a1 == iv[0].wrapping_add(final(s).q1[61]),
        ok ==> final(s).b1 == iv[1].wrapping_add(final(s).q1[64]),
        ok ==> final(s).c1 == iv[2].wrapping_add(final(s).q1[63]),
        ok ==> final(s).d1 == iv[3].wrapping_add(final(s).q1[62]),
        ok ==> near_collision(*final(s)),
{
    let cv0 = (iv[0], iv[1], iv[2], iv[3]);
    let cv1 = cv0;
    proof {
        reveal(b1_conds_48_63);
    }
    proof {
        lemma_trace_word_at(cv0, s.q0@, block_at(s.x0@, 0), 48, 48);
        lemma_trace_word_at(cv1, s.q1@, block_at(s.x1@, 0), 48, 48);
        lemma_trace_word_at(cv0, s.q0@, block_at(s.x0@, 0), 47, 48);
        lemma_trace_word_at(cv1, s.q1@, block_at(s.x1@, 0), 47, 48);
        lemma_trace_word_at(cv0, s.q0@, block_at(s.x0@, 0), 46, 48);
        lemma_trace_word_at(cv1, s.q1@, block_at(s.x1@, 0), 46, 48);
    }
    /* A13 */
    forward_step(cv0, &mut s.q0, &s.x0, 0, 48);
    proof {
        lemma_trace_word_at(cv0, s.q0@, block_at(s.x0@, 0), 49, 49);
    }
    if (s.q0[49] ^ s.q0[47]) & 0x80000000 != 0 {
        return false;
    }
    forward_step(cv1, &mut s.q1, &s.x1, 0, 48);
    proof {
        lemma_trace_word_at(cv1, s.q1@, block_at(s.x1@, 0), 49, 49);
    }
    if (s.q0[49] ^ s.q1[49]) != 0x80000000 {
        return false;
    }
    /* D13 */
    forward_step(cv0, &mut s.q0, &s.x0, 0, 49);
    proof {
        lemma_trace_word_at(cv0, s.q0@, block_at(s.x0@, 0), 50, 50);
    }
    /* bit 31 of Q[50] must differ from that of Q[48] */
    if ((s.q0[50] ^ s.q0[48]) & 0x80000000) == 0 {
        return false;
    }
    forward_step(cv1, &mut s.q1, &s.x1, 0, 49);
    proof {
        lemma_trace_word_at(cv1, s.q1@, block_at(s.x1@, 0), 50, 50);
    }
    if (s.q0[50] ^ s.q1[50]) != 0x80000000 {
        return false;
    }
    /* C13 */
    forward_step(cv0, &mut s.q0, &s.x0, 0, 50);
    proof {
        lemma_trace_word_at(cv0, s.q0@, block_at(s.x0@, 0), 51, 51);
    }
    if (s.q0[51] ^ s.q0[49]) & 0x80000000 != 0 {
        return false;
    }
    forward_step(cv1, &mut s.q1, &s.x1, 0, 50);
    proof {
        lemma_trace_word_at(cv1, s.q1@, block_at(s.x1@, 0), 51, 51);
    }
    if (s.q0[51] ^ s.q1[51]) != 0x80000000 {
        return false;
    }
    /* B13 */
    forward_step(cv0, &mut s.q0, &s.x0, 0, 51);
    proof {
        lemma_trace_word_at(cv0, s.q0@, block_at(s.x0@, 0), 52, 52);
    }
    if (s.q0[52] ^ s.q0[50]) & 0x80000000 != 0 {
        return false;
    }
    forward_step(cv1, &mut s.q1, &s.x1, 0, 51);
    proof {
        lemma_trace_word_at(cv1, s.q1@, block_at(s.x1@, 0), 52, 52);
    }
    if (s.q0[52] ^ s.q1[52]) != 0x80000000 {
        return false;
    }
    /* A14 */
    forward_step(cv0, &mut s.q0, &s.x0, 0, 52);
    proof {
        lemma_trace_word_at(cv0, s.q0@, block_at(s.x0@, 0), 53, 53);
    }
    if (s.q0[53] ^ s.q0[51]) & 0x80000000 != 0 {
        return false;
    }
    forward_step(cv1, &mut s.q1, &s.x1, 0, 52);
    proof {
        lemma_trace_word_at(cv1, s.q1@, block_at(s.x1@, 0), 53, 53);
    }
    if (s.q0[53] ^ s.q1[53]) != 0x80000000 {
        return false;
    }
    /* D14 */
    forward_step(cv0, &mut s.q0, &s.x0, 0, 53);
    proof {
        lemma_trace_word_at(cv0, s.q0@, block_at(s.x0@, 0), 54, 54);
    }
    if (s.q0[54] ^ s.q0[52]) & 0x80000000 != 0 {
        return false;
    }
    forward_step(cv1, &mut s.q1, &s.x1, 0, 53);
    proof {
        lemma_trace_word_at(cv1, s.q1@, block_at(s.x1@, 0), 54, 54);
    }
    if (s.q0[54] ^ s.q1[54]) != 0x80000000 {
        return false;
    }
    /* C14 */
    forward_step(cv0, &mut s.q0, &s.x0, 0, 54);
    proof {
        lemma_trace_word_at(cv0, s.q0@, block_at(s.x0@, 0), 55, 55);
    }
    if (s.q0[55] ^ s.q0[53]) & 0x80000000 != 0 {
        return false;
    }
    forward_step(cv1, &mut s.q1, &s.x1, 0, 54);
    proof {
        lemma_trace_word_at(cv1, s.q1@, block_at(s.x1@, 0), 55, 55);
    }
    if (s.q0[55] ^ s.q1[55]) != 0x80000000 {
        return false;
    }
    /* B14 */
    forward_step(cv0, &mut s.q0, &s.x0, 0, 55);
    proof {
        lemma_trace_word_at(cv0, s.q0@, block_at(s.x0@, 0), 56, 56);
    }
    if (s.q0[56] ^ s.q0[54]) & 0x80000000 != 0 {
        return false;
    }
    forward_step(cv1, &mut s.q1, &s.x1, 0, 55);
    proof {
        lemma_trace_word_at(cv1, s.q1@, block_at(s.x1@, 0), 56, 56);
    }
    if (s.q0[56] ^ s.q1[56]) != 0x80000000 {
        return false;
    }
    /* A15 */
    forward_step(cv0, &mut s.q0, &s.x0, 0, 56);
    proof {
        lemma_trace_word_at(cv0, s.q0@, block_at(s.x0@, 0), 57, 57);
    }
    if (s.q0[57] ^ s.q0[55]) & 0x80000000 != 0 {
        return false;
    }
    forward_step(cv1, &mut s.q1, &s.x1, 0, 56);
    proof {
        lemma_trace_word_at(cv1, s.q1@, block_at(s.x1@, 0), 57, 57);
    }
    if (s.q0[57] ^ s.q1[57]) != 0x80000000 {
        return false;
    }
    /* D15 */
    forward_step(cv0, &mut s.q0, &s.x0, 0, 57);
    proof {
        lemma_trace_word_at(cv0, s.q0@, block_at(s.x0@, 0), 58, 58);
    }
    if (s.q0[58] ^ s.q0[56]) & 0x80000000 != 0 {
        return false;
    }
    forward_step(cv1, &mut s.q1, &s.x1, 0, 57);
    proof {
        lemma_trace_word_at(cv1, s.q1@, block_at(s.x1@, 0), 58, 58);
    }
    if (s.q0[58] ^ s.q1[58]) != 0x80000000 {
        return false;
    }
    /* C15 */
    forward_step(cv0, &mut s.q0, &s.x0, 0, 58);
    proof {
        lemma_trace_word_at(cv0, s.q0@, block_at(s.x0@, 0), 59, 59);
    }
    if (s.q0[59] ^ s.q0[57]) & 0x80000000 != 0 {
        return false;
    }
    forward_step(cv1, &mut s.q1, &s.x1, 0, 58);
    proof {
        lemma_trace_word_at(cv1, s.q1@, block_at(s.x1@, 0), 59, 59);
    }
    if (s.q0[59] ^ s.q1[59]) != 0x80000000 {
        return false;
    }
    /* B15 */
    forward_step(cv0, &mut s.q0, &s.x0, 0, 59);
    proof {
        lemma_trace_word_at(cv0, s.q0@, block_at(s.x0@, 0), 60, 60);
    }
    if s.q0[60] & 0x02000000 != 0 {
        return false;
    }
    forward_step(cv1, &mut s.q1, &s.x1, 0, 59);
    proof {
        lemma_trace_word_at(cv1, s.q1@, block_at(s.x1@, 0), 60, 60);
    }
    if (s.q0[60] ^ s.q1[60]) != 0x80000000 {
        return false;
    }
    /* A16 */
    forward_step(cv0, &mut s.q0, &s.x0, 0, 60);
    proof {
        lemma_trace_word_at(cv0, s.q0@, block_at(s.x0@, 0), 61, 61);
    }
    s.a0 = iv[0].wrapping_add(s.q0[61]);
    forward_step(cv1, &mut s.q1, &s.x1, 0, 60);
    proof {
        lemma_trace_word_at(cv1, s.q1@, block_at(s.x1@, 0), 61, 61);
    }
    s.a1 = iv[0].wrapping_add(s.q1[61]);
    if (s.a0 ^ s.a1) != 0x80000000 {
        return false;
    }
    /* D16 */
    forward_step(cv0, &mut s.q0, &s.x0, 0, 61);
    proof {
        lemma_trace_word_at(cv0, s.q0@, block_at(s.x0@, 0), 62, 62);
    }
    s.d0 = iv[3].wrapping_add(s.q0[62]);
    if s.d0 & 0x02000000 != 0 {
        return false;
    }
    forward_step(cv1, &mut s.q1, &s.x1, 0, 61);
    proof {
        lemma_trace_word_at(cv1, s.q1@, block_at(s.x1@, 0), 62, 62);
    }
    s.d1 = iv[3].wrapping_add(s.q1[62]);
    if (s.d0.wrapping_sub(s.d1)) != 0x7e000000 {
        return false;
    }
    /* C16 */
    forward_step(cv0, &mut s.q0, &s.x0, 0, 62);
    proof {
        lemma_trace_word_at(cv0, s.q0@, block_at(s.x0@, 0), 63, 63);
    }
    s.c0 = iv[2].wrapping_add(s.q0[63]);
    if (s.c0 & 0x86000000) != ((s.d0 & 0x80000000) | 0x02000000) {
        return false;
    }
    forward_step(cv1, &mut s.q1, &s.x1, 0, 62);
    proof {
        lemma_trace_word_at(cv1, s.q1@, block_at(s.x1@, 0), 63, 63);
    }
    s.c1 = iv[2].wrapping_add(s.q1[63]);
    if (s.c0.wrapping_sub(s.c1)) != 0x7e000000 {
        return false;
    }
    /* B16 */
    forward_step(cv0, &mut s.q0, &s.x0, 0, 63);
    proof {
        lemma_trace_word_at(cv0, s.q0@, block_at(s.x0@, 0), 64, 64);
    }
    s.b0 = iv[1].wrapping_add(s.q0[64]);
    if (s.b0 & 0x86000020) != (s.c0 & 0x80000000) {
        return false;
    }
    forward_step(cv1, &mut s.q1, &s.x1, 0, 63);
    proof {
        lemma_trace_word_at(cv1, s.q1@, block_at(s.x1@, 0), 64, 64);
    }
    s.b1 = iv[1].wrapping_add(s.q1[64]);
    if (s.b0.wrapping_sub(s.b1)) != 0x7e000000 {
        return false;
    }
    true
}

/// What the third stage of the first-block search builds on carries over to
/// a state that agrees on the messages and on `Q[..=19]`.
pub proof fn lemma_stage3_frame(iv: [u32; 4], s1: StateS, s2: StateS)
    requires
        second_round_ready(iv, s1),
        round2_pinned(iv, s1),
        s2.x0 == s1.x0,
        s2.x1 == s1.x1,
        forall|j: int| 0 <= j <= 19 ==> s2.q0[j] == s1.q0[j] && s2.q1[j] == s1.q1[j],
    ensures
        second_round_ready(iv, s2),
        round2_pinned(iv, s2),
{
    lemma_second_round_ready_frame(iv, s1, s2);
}

/// One try of the third stage of the first-block search: fixes `Q[20]`,
/// finishes round 1 and runs steps 19 to 63; tells whether every condition
/// held.
pub fn b1_loop12_body(iv: [u32; 4], s: &mut StateS) -> (ok: bool)
    requires
        second_round_ready(iv, *old(s)),
        round2_pinned(iv, *old(s)),
    ensures
        second_round_ready(iv, *final(s)),
        round2_pinned(iv, *final(s)),
        ok == b1_stage3_conds(iv),
        ok ==> first_block_done(iv, *final(s)),
        ok ==> block_at(final(s).x0@, 0) == b1_stage3_blocks(iv).0,
        ok ==> block_at(final(s).x1@, 0) == b1_stage3_blocks(iv).1,
        keeps_second_block(*old(s), *final(s)),
{
    if !b1_loop12_head(iv, s) {
        return false;
    }
    let ghost headed = *s;
    if !b1_steps_20_31(iv, s) {
        proof {
            lemma_stage3_frame(iv, headed, *s);
        }
        return false;
    }
    let ghost after_31 = *s;
    if !b1_steps_32_47(iv, s) {
        proof {
            lemma_stage3_frame(iv, headed, after_31);
            lemma_stage3_frame(iv, after_31, *s);
        }
        return false;
    }
    let ghost after_47 = *s;
    proof {
        lemma_stage3_frame(iv, headed, after_31);
        lemma_stage3_frame(iv, after_31, after_47);
    }
    if b1_steps_48_63(iv, s) {
        proof {
            lemma_stage3_frame(iv, after_47, *s);
            assert(s.x0@ == headed.x0@);
            assert(s.x1@ == headed.x1@);
            assert(deltas_ok(s.x0@, s.x1@, 0, 16));
            lemma_trace_compress(iv_chain(iv), s.q0@, block_at(s.x0@, 0));
            lemma_trace_compress(iv_chain(iv), s.q1@, block_at(s.x1@, 0));
        }
        return true;
    }
    proof {
        lemma_stage3_frame(iv, after_47, *s);
    }
    false
}

/// How many times the second stage of the first-block search tries before
/// the search starts over.
pub const LOOP_11: u32 = 300;

/// How many times the third stage of the first-block search tries before
/// the search starts over.
pub const LOOP_12: u32 = 0x20000000;

/// One pass of the first-block search from its first stage: returns 0 when
/// it found the blocks, 1 when its first stage ran out of tries, and
/// [`AGAIN`] when a later stage ran out of tries and the search must start
/// over. Counts in `ct1` each pass through the second stage. Each stage
/// tries the same candidates every time, so the pass succeeds exactly when
/// they meet the conditions of all three stages.
fn b1_attempt(iv: [u32; 4], ct1: &mut i32, s: &mut StateS) -> (r: i32)
    ensures
        r == 0 || r == 1 || r == AGAIN,
        (r == 0) == b1_succeeds(iv),
        *final(ct1) == *old(ct1) || *final(ct1) == old(ct1).wrapping_add(1),
        r == 0 ==> *final(ct1) == old(ct1).wrapping_add(1),
        r == 0 ==> first_block_done(iv, *final(s)),
        r == 0 ==> block_at(final(s).x0@, 0) == b1_stage3_blocks(iv).0,
        r == 0 ==> block_at(final(s).x1@, 0) == b1_stage3_blocks(iv).1,
        r == 0 ==> final(s).ct1 == *final(ct1) && final(s).ct2 == 0,
        keeps_second_block(*old(s), *final(s)),
{
    let mut i: i32;
    let cnt: i32;
    let mut tries: u64 = MAX_TRIES;
    loop
        invariant_except_break
            b1_stage1_conds() ==> tries == MAX_TRIES,
        invariant
            keeps_second_block(*old(s), *s),
            *ct1 == *old(ct1),
        ensures
            keeps_second_block(*old(s), *s),
            *ct1 == *old(ct1),
            first_round_ready(iv, *s),
            round1_pinned(*s),
            b1_stage1_conds(),
        decreases tries,
    {
        if tries == 0 {
            return 1;
        }
        tries = tries - 1;
        if b1_loop1_body(iv, s) {
            break;
        }
    }
    i = -1;
    loop
        invariant_except_break
            b1_stage2_conds(iv) ==> i == -1,
        invariant
            keeps_second_block(*old(s), *s),
            *ct1 == *old(ct1),
            first_round_ready(iv, *s),
            round1_pinned(*s),
            b1_stage1_conds(),
            -1 <= i < 300,
        ensures
            keeps_second_block(*old(s), *s),
            *ct1 == *old(ct1),
            second_round_ready(iv, *s),
            round2_pinned(iv, *s),
            b1_stage1_conds(),
            b1_stage2_conds(iv),
        decreases 300 - i,
    {
        i += 1;
        if i as u32 == LOOP_11 {
            return AGAIN;
        }
        if b1_loop11_body(iv, s) {
            break;
        }
    }
    *ct1 = (*ct1).wrapping_add(1);
    cnt = 0;
    i = -1;
    loop
        invariant_except_break
            b1_stage3_conds(iv) ==> i == -1,
        invariant
            keeps_second_block(*old(s), *s),
            *ct1 == old(ct1).wrapping_add(1),
            second_round_ready(iv, *s),
            round2_pinned(iv, *s),
            b1_stage1_conds(),
            b1_stage2_conds(iv),
            -1 <= i < 0x20000000,
        ensures
            keeps_second_block(*old(s), *s),
            *ct1 == old(ct1).wrapping_add(1),
            first_block_done(iv, *s),
            block_at(s.x0@, 0) == b1_stage3_blocks(iv).0,
            block_at(s.x1@, 0) == b1_stage3_blocks(iv).1,
            b1_succeeds(iv),
        decreases 0x20000000 - i,
    {
        i += 1;
        if i as u32 == LOOP_12 {
            return AGAIN;
        }
        if b1_loop12_body(iv, s) {
            break;
        }
    }
    s.ct1 = *ct1;
    proof {
        assert(cnt >> 20 == 0) by (bit_vector)
            requires
                cnt == 0,
        ;
    }
    s.ct2 = (cnt >> 20) as u32;
    0
}

/// The state that a successful first-block search from `iv` leaves, when it
/// started from `s0` with the pass count `ct1`: the first blocks are the
/// third stage's candidates, the traces `Q[1..=64]` and the chaining values
/// are those of compressing them from `iv`, the pass count has gone up by
/// one, and the second blocks and `Q[0]` are as they were.
pub open spec fn b1_result(iv: [u32; 4], ct1: i32, s0: StateS, s: StateS) -> bool {
    let (m0, m1) = b1_stage3_blocks(iv);
    &&& block_at(s.x0@, 0) == m0
    &&& block_at(s.x1@, 0) == m1
    &&& forall|j: int| 1 <= j <= 64 ==> s.q0[j] == #[trigger] trace_word(iv_chain(iv), m0, j)
        && s.q1[j] == trace_word(iv_chain(iv), m1, j)
    &&& s.chain0() == md5_compress(iv_chain(iv), m0)
    &&& s.chain1() == md5_compress(iv_chain(iv), m1)
    &&& s.ct1 == ct1.wrapping_add(1)
    &&& s.ct2 == 0
    &&& keeps_second_block(s0, s)
}

/// What a successful first-block search leaves depends on `iv` and `ct1`
/// alone: two such runs from any two states agree on every field the search
/// writes, and each keeps the fields it does not write.
pub proof fn lemma_block1_result_determined(iv: [u32; 4], ct1: i32, a0: StateS, a: StateS, b0: StateS, b: StateS)
    requires
        b1_result(iv, ct1, a0, a),
        b1_result(iv, ct1, b0, b),
    ensures
        forall|j: int| 1 <= j <= 64 ==> #[trigger] a.q0[j] == b.q0[j] && a.q1[j] == b.q1[j],
        forall|k: int| 0 <= k < 16 ==> #[trigger] a.x0[k] == b.x0[k] && a.x1[k] == b.x1[k],
        a.chain0() == b.chain0(),
        a.chain1() == b.chain1(),
        a.ct1 == b.ct1,
        a.ct2 == b.ct2,
        forall|k: int| 16 <= k < 32 ==> #[trigger] a.x0[k] == a0.x0[k] && a.x1[k] == a0.x1[k],
        a.q0[0] == a0.q0[0] && a.q1[0] == a0.q1[0],
{
    let (m0, m1) = b1_stage3_blocks(iv);
    assert forall|j: int| 1 <= j <= 64 implies #[trigger] a.q0[j] == b.q0[j] && a.q1[j] == b.q1[j] by {
        assert(a.q0[j] == trace_word(iv_chain(iv), m0, j));
        assert(b.q0[j] == trace_word(iv_chain(iv), m0, j));
    }
    assert forall|k: int| 0 <= k < 16 implies #[trigger] a.x0[k] == b.x0[k] && a.x1[k] == b.x1[k] by {
        assert(block_at(a.x0@, 0)[k] == block_at(b.x0@, 0)[k]);
        assert(block_at(a.x1@, 0)[k] == block_at(b.x1@, 0)[k]);
    }
}

/// Searches for first blocks of `x0` and `x1` whose compressions from `iv`
/// form the near-collision that [`block2`](crate::block2::block2) completes.
///
/// The search is deterministic: it builds its candidates from [`RAND_ARR`],
/// and succeeds (returns 0) exactly when they meet the conditions of its
/// three stages ([`b1_succeeds`]); otherwise it returns 1 once its loops
/// run out of tries. On success the first blocks are those candidates, and
/// `s.ct1` holds `ct1`, the count of passes through the second stage so
/// far, advanced by this call's single pass.
pub fn block1(iv: [u32; 4], ct1: i32, s: &mut StateS) -> (r: i32)
    ensures
        r == 0 || r == 1,
        (r == 0) == b1_succeeds(iv),
        r == 0 ==> first_block_done(iv, *final(s)),
        r == 0 ==> block_at(final(s).x0@, 0) == b1_stage3_blocks(iv).0,
        r == 0 ==> block_at(final(s).x1@, 0) == b1_stage3_blocks(iv).1,
        r == 0 ==> final(s).ct1 == ct1.wrapping_add(1),
        r == 0 ==> final(s).ct2 == 0,
        keeps_second_block(*old(s), *final(s)),
        r == 0 ==> b1_result(iv, ct1, *old(s), *final(s)),
{
    let mut ct1_now: i32 = ct1;
    let mut restarts: u64 = MAX_TRIES;
    loop
        invariant
            keeps_second_block(*old(s), *s),
            b1_succeeds(iv) ==> restarts == MAX_TRIES && ct1_now == ct1,
        decreases restarts,
    {
        if restarts == 0 {
            return 1;
        }
        restarts = restarts - 1;
        let r = b1_attempt(iv, &mut ct1_now, s);
        proof {
            if r == 0 {
                let (m0, m1) = b1_stage3_blocks(iv);
                assert forall|j: int| 1 <= j <= 64 implies s.q0[j] == #[trigger] trace_word(iv_chain(iv), m0, j)
                    && s.q1[j] == trace_word(iv_chain(iv), m1, j) by {
                    lemma_trace_word_at(iv_chain(iv), s.q0@, block_at(s.x0@, 0), j, 64);
                    lemma_trace_word_at(iv_chain(iv), s.q1@, block_at(s.x1@, 0), j, 64);
                }
            }
        }
        if r != AGAIN {
            return r;
        }
    }
}

} // verus!
