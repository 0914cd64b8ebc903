//! Executable steps over a trace `q[1..=64]` and a message `x`, each with
//! the facts it keeps about ranges of steps already established.

use vstd::prelude::*;
use crate::md5::{
    Chain, q_at, step_ok, md5_unstep, steps_ok, md5_msg_index, md5_msg_index_exec, md5_step_exec, md5_unstep_exec,
    lemma_steps_ok_frame, lemma_msg_index_range,
};

verus! {

/// The 16-word block of `x` that starts at `off`.
pub open spec fn block_at(x: Seq<u32>, off: int) -> Seq<u32> {
    x.subrange(off, off + 16)
}

/// The steps `lo..hi` read no trace word at index `k`.
pub open spec fn range_avoids_q(lo: int, hi: int, k: int) -> bool {
    hi < k || k + 3 < lo
}

/// The steps `lo..hi` read no message word at block index `w`.
pub open spec fn range_avoids_word(lo: int, hi: int, w: int) -> bool {
    forall|j: int| lo <= j < hi ==> md5_msg_index(j) != w
}

/// Changing the trace at an index that steps `lo..hi` do not read keeps them.
pub proof fn lemma_store_q_keeps(cv: Chain, q1: Seq<u32>, m: Seq<u32>, lo: int, hi: int, k: int, v: u32)
    requires
        0 <= lo,
        hi <= 64,
        q1.len() == 65,
        1 <= k < q1.len(),
        range_avoids_q(lo, hi, k),
        steps_ok(cv, q1, m, lo, hi),
    ensures
        steps_ok(cv, q1.update(k, v), m, lo, hi),
{
    lemma_steps_ok_frame(cv, q1, m, q1.update(k, v), m, lo, hi);
}

/// Changing a message word that steps `lo..hi` do not read keeps them.
pub proof fn lemma_store_word_keeps(cv: Chain, q: Seq<u32>, m: Seq<u32>, lo: int, hi: int, w: int, v: u32)
    requires
        0 <= lo,
        hi <= 64,
        m.len() == 16,
        0 <= w < m.len(),
        range_avoids_word(lo, hi, w),
        steps_ok(cv, q, m, lo, hi),
    ensures
        steps_ok(cv, q, m.update(w, v), lo, hi),
{
    assert forall|i: int| lo <= i < hi implies m[md5_msg_index(i)] == m.update(w, v)[md5_msg_index(i)] by {
        assert(md5_msg_index(i) != w);
        lemma_msg_index_range(i);
    }
    lemma_steps_ok_frame(cv, q, m, q, m.update(w, v), lo, hi);
}

/// The trace word `Q[j]`, `-3 <= j <= 64`.
pub fn q_get(cv: Chain, q: &[u32; 65], j: i64) -> (r: u32)
    requires
        -3 <= j <= 64,
    ensures
        r == q_at(cv, q@, j as int),
{
    if j == -3 {
        cv.0
    } else if j == -2 {
        cv.3
    } else if j == -1 {
        cv.2
    } else if j == 0 {
        cv.1
    } else {
        q[j as usize]
    }
}

/// Stores `v` as the trace word `Q[k]`.
pub fn store_q(q: &mut [u32; 65], k: usize, v: u32)
    requires
        1 <= k <= 64,
    ensures
        final(q)@ == old(q)@.update(k as int, v),
        forall|cv: Chain, m: Seq<u32>, lo: int, hi: int|
            #![trigger steps_ok(cv, old(q)@, m, lo, hi)]
            0 <= lo && hi <= 64 && range_avoids_q(lo, hi, k as int) && steps_ok(cv, old(q)@, m, lo, hi)
                ==> steps_ok(cv, final(q)@, m, lo, hi),
{
    q[k] = v;
    proof {
        assert forall|cv: Chain, m: Seq<u32>, lo: int, hi: int|
            #![trigger steps_ok(cv, old(q)@, m, lo, hi)]
            0 <= lo && hi <= 64 && range_avoids_q(lo, hi, k as int) && steps_ok(cv, old(q)@, m, lo, hi)
                implies steps_ok(cv, q@, m, lo, hi) by {
            lemma_store_q_keeps(cv, old(q)@, m, lo, hi, k as int, v);
        }
    }
}

/// Stores `v` as the word `w` of the block at `x[off..off + 16]`.
pub fn store_word(x: &mut [u32; 32], off: usize, w: usize, v: u32)
    requires
        off <= 16,
        w < 16,
    ensures
        final(x)@ == old(x)@.update(off + w, v),
        block_at(final(x)@, off as int) == block_at(old(x)@, off as int).update(w as int, v),
        forall|cv: Chain, q: Seq<u32>, lo: int, hi: int|
            #![trigger steps_ok(cv, q, block_at(old(x)@, off as int), lo, hi), range_avoids_word(lo, hi, w as int)]
            0 <= lo && hi <= 64 && range_avoids_word(lo, hi, w as int) && steps_ok(cv, q, block_at(old(x)@, off as int), lo, hi)
                ==> steps_ok(cv, q, block_at(final(x)@, off as int), lo, hi),
{
    x[off + w] = v;
    proof {
        assert(block_at(x@, off as int) =~= block_at(old(x)@, off as int).update(w as int, v));
        assert forall|cv: Chain, q: Seq<u32>, lo: int, hi: int|
            #![trigger steps_ok(cv, q, block_at(old(x)@, off as int), lo, hi), range_avoids_word(lo, hi, w as int)]
            0 <= lo && hi <= 64 && range_avoids_word(lo, hi, w as int) && steps_ok(cv, q, block_at(old(x)@, off as int), lo, hi)
                implies steps_ok(cv, q, block_at(x@, off as int), lo, hi) by {
            lemma_store_word_keeps(cv, q, block_at(old(x)@, off as int), lo, hi, w as int, v);
        }
    }
}

/// Runs step `i` forward: stores `Q[i + 1]` computed from the trace and
/// the block at `x[off..off + 16]`.
pub fn forward_step(cv: Chain, q: &mut [u32; 65], x: &[u32; 32], off: usize, i: usize)
    requires
        i < 64,
        off <= 16,
    ensures
        final(q)@ == old(q)@.update(i + 1, final(q)@[i + 1]),
        step_ok(cv, final(q)@, block_at(x@, off as int), i as int),
        forall|cv2: Chain, m: Seq<u32>, lo: int, hi: int|
            #![trigger steps_ok(cv2, old(q)@, m, lo, hi)]
            0 <= lo && hi <= 64 && range_avoids_q(lo, hi, i + 1) && steps_ok(cv2, old(q)@, m, lo, hi)
                ==> steps_ok(cv2, final(q)@, m, lo, hi),
        forall|lo: int|
            #![trigger steps_ok(cv, old(q)@, block_at(x@, off as int), lo, i as int)]
            0 <= lo <= i && steps_ok(cv, old(q)@, block_at(x@, off as int), lo, i as int)
                ==> steps_ok(cv, final(q)@, block_at(x@, off as int), lo, i + 1),
{
    let ii = i as i64;
    let a = q_get(cv, q, ii - 3);
    let b = q_get(cv, q, ii);
    let c = q_get(cv, q, ii - 1);
    let d = q_get(cv, q, ii - 2);
    let k = md5_msg_index_exec(i);
    let v = md5_step_exec(i, a, b, c, d, x[off + k]);
    store_q(q, i + 1, v);
    proof {
        let blk = block_at(x@, off as int);
        assert(blk[md5_msg_index(i as int)] == x@[off + k]);
        assert(q_at(cv, q@, i - 3) == a);
        assert(q_at(cv, q@, i as int) == b);
        assert(q_at(cv, q@, i - 1) == c);
        assert(q_at(cv, q@, i - 2) == d);
        assert forall|lo: int|
            #![trigger steps_ok(cv, old(q)@, block_at(x@, off as int), lo, i as int)]
            0 <= lo <= i && steps_ok(cv, old(q)@, blk, lo, i as int)
                implies steps_ok(cv, q@, blk, lo, i + 1) by {
            lemma_steps_ok_frame(cv, old(q)@, blk, q@, blk, lo, i as int);
        }
    }
}

/// Inverts step `i`: stores the word that step `i` reads in the block at
/// `x[off..off + 16]` so that the step yields the trace's `Q[i + 1]`.
pub fn inverse_step(cv: Chain, q: &[u32; 65], x: &mut [u32; 32], off: usize, i: usize)
    requires
        i < 64,
        off <= 16,
    ensures
        final(x)@ == old(x)@.update(
            off + md5_msg_index(i as int),
            final(x)@[off + md5_msg_index(i as int)],
        ),
        step_ok(cv, q@, block_at(final(x)@, off as int), i as int),
        final(x)@[off + md5_msg_index(i as int)] == md5_unstep(
            i as int,
            q_at(cv, q@, i - 3),
            q_at(cv, q@, i as int),
            q_at(cv, q@, i - 1),
            q_at(cv, q@, i - 2),
            q@[i + 1],
        ),
        forall|cv2: Chain, q2: Seq<u32>, lo: int, hi: int|
            #![trigger steps_ok(cv2, q2, block_at(old(x)@, off as int), lo, hi), range_avoids_word(lo, hi, md5_msg_index(i as int))]
            0 <= lo && hi <= 64 && range_avoids_word(lo, hi, md5_msg_index(i as int)) && steps_ok(
                cv2,
                q2,
                block_at(old(x)@, off as int),
                lo,
                hi,
            ) ==> steps_ok(cv2, q2, block_at(final(x)@, off as int), lo, hi),
        i < 16 ==> forall|lo: int|
            #![trigger steps_ok(cv, q@, block_at(old(x)@, off as int), lo, i as int)]
            0 <= lo <= i && steps_ok(cv, q@, block_at(old(x)@, off as int), lo, i as int)
                ==> steps_ok(cv, q@, block_at(final(x)@, off as int), lo, i + 1),
{
    let ii = i as i64;
    let a = q_get(cv, q, ii - 3);
    let b = q_get(cv, q, ii);
    let c = q_get(cv, q, ii - 1);
    let d = q_get(cv, q, ii - 2);
    let k = md5_msg_index_exec(i);
    let w = md5_unstep_exec(i, a, b, c, d, q[i + 1]);
    store_word(x, off, k, w);
    proof {
        let blk = block_at(x@, off as int);
        assert(blk[md5_msg_index(i as int)] == w);
        if i < 16 {
            assert forall|lo: int|
                #![trigger steps_ok(cv, q@, block_at(old(x)@, off as int), lo, i as int)]
                0 <= lo <= i && steps_ok(cv, q@, block_at(old(x)@, off as int), lo, i as int)
                    implies steps_ok(cv, q@, blk, lo, i + 1) by {
                assert(range_avoids_word(lo, i as int, md5_msg_index(i as int)));
            }
        }
    }
}

} // verus!
