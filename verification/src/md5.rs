//! The MD5 compression function: its mathematical definition and
//! executable steps that are proved against it.

use vstd::prelude::*;

verus! {

/// MD5's per-step additive constants.
pub const MD5_T: [u32; 64] = [
    0xd76aa478, 0xe8c7b756, 0x242070db, 0xc1bdceee, 0xf57c0faf, 0x4787c62a, 0xa8304613, 0xfd469501,
    0x698098d8, 0x8b44f7af, 0xffff5bb1, 0x895cd7be, 0x6b901122, 0xfd987193, 0xa679438e, 0x49b40821,
    0xf61e2562, 0xc040b340, 0x265e5a51, 0xe9b6c7aa, 0xd62f105d, 0x02441453, 0xd8a1e681, 0xe7d3fbc8,
    0x21e1cde6, 0xc33707d6, 0xf4d50d87, 0x455a14ed, 0xa9e3e905, 0xfcefa3f8, 0x676f02d9, 0x8d2a4c8a,
    0xfffa3942, 0x8771f681, 0x6d9d6122, 0xfde5380c, 0xa4beea44, 0x4bdecfa9, 0xf6bb4b60, 0xbebfbc70,
    0x289b7ec6, 0xeaa127fa, 0xd4ef3085, 0x04881d05, 0xd9d4d039, 0xe6db99e5, 0x1fa27cf8, 0xc4ac5665,
    0xf4292244, 0x432aff97, 0xab9423a7, 0xfc93a039, 0x655b59c3, 0x8f0ccc92, 0xffeff47d, 0x85845dd1,
    0x6fa87e4f, 0xfe2ce6e0, 0xa3014314, 0x4e0811a1, 0xf7537e82, 0xbd3af235, 0x2ad7d2bb, 0xeb86d391,
];

/// MD5's per-step left-rotation amounts.
pub const MD5_S: [u32; 64] = [
    7, 12, 17, 22, 7, 12, 17, 22, 7, 12, 17, 22, 7, 12, 17, 22,
    5, 9, 14, 20, 5, 9, 14, 20, 5, 9, 14, 20, 5, 9, 14, 20,
    4, 11, 16, 23, 4, 11, 16, 23, 4, 11, 16, 23, 4, 11, 16, 23,
    6, 10, 15, 21, 6, 10, 15, 21, 6, 10, 15, 21, 6, 10, 15, 21,
];

/// MD5's first-round function: `y` where `x` is set, `z` elsewhere.
pub open spec fn md5_f(x: u32, y: u32, z: u32) -> u32 {
    z ^ (x & (y ^ z))
}

/// MD5's second-round function: `x` where `z` is set, `y` elsewhere.
pub open spec fn md5_g(x: u32, y: u32, z: u32) -> u32 {
    md5_f(z, x, y)
}

/// MD5's third-round function: the XOR of the three words.
pub open spec fn md5_h(x: u32, y: u32, z: u32) -> u32 {
    x ^ y ^ z
}

/// MD5's fourth-round function.
pub open spec fn md5_i(x: u32, y: u32, z: u32) -> u32 {
    y ^ (x | !z)
}

/// Left rotation of a 32-bit word by `n` bits, `0 < n < 32`.
pub open spec fn rotl(x: u32, n: u32) -> u32 {
    (x << n) | (x >> ((32 - n) as u32))
}

/// Right rotation of a 32-bit word by `n` bits, `0 < n < 32`.
pub open spec fn rotr(x: u32, n: u32) -> u32 {
    (x >> n) | (x << ((32 - n) as u32))
}

/// Rotating right and then left by the same amount gives the word back.
pub proof fn lemma_rotl_rotr(x: u32, n: u32)
    requires
        0 < n < 32,
    ensures
        rotl(rotr(x, n), n) == x,
{
    assert(((((x >> n) | (x << ((32 - n) as u32))) << n) | (((x >> n) | (x << ((32 - n) as u32))) >> ((32 - n) as u32))) == x) by (bit_vector)
        requires 0 < n < 32;
}

/// Subtracting three words and adding them back, modulo 2^32, is the identity.
pub proof fn lemma_wrapping_cancel(v: u32, f: u32, a: u32, t: u32)
    ensures
        v.wrapping_sub(f).wrapping_sub(a).wrapping_sub(t).wrapping_add(f).wrapping_add(a).wrapping_add(t) == v,
{
    assert(v.wrapping_sub(f).wrapping_sub(a).wrapping_sub(t).wrapping_add(f).wrapping_add(a).wrapping_add(t) == v) by (bit_vector);
}

/// The four chaining words `(a, b, c, d)` of MD5.
pub type Chain = (u32, u32, u32, u32);

/// MD5's standard initial chaining value.
pub open spec fn md5_initial_chain() -> Chain {
    (0x67452301u32, 0xefcdab89u32, 0x98badcfeu32, 0x10325476u32)
}

/// The boolean function of step `i`.
pub open spec fn md5_round_fn(i: int, x: u32, y: u32, z: u32) -> u32 {
    if i < 16 {
        md5_f(x, y, z)
    } else if i < 32 {
        md5_g(x, y, z)
    } else if i < 48 {
        md5_h(x, y, z)
    } else {
        md5_i(x, y, z)
    }
}

/// The index, within a 16-word block, of the message word that step `i` reads.
pub open spec fn md5_msg_index(i: int) -> int {
    if i < 16 {
        i
    } else if i < 32 {
        (5 * i + 1) % 16
    } else if i < 48 {
        (3 * i + 5) % 16
    } else {
        (7 * i) % 16
    }
}

/// Step `i` of MD5: the new `b` register computed from the registers
/// `(a, b, c, d)` and the message word `w`.
#[verifier::opaque]
pub open spec fn md5_step(i: int, a: u32, b: u32, c: u32, d: u32, w: u32) -> u32 {
    rotl(
        md5_round_fn(i, b, c, d).wrapping_add(a).wrapping_add(w).wrapping_add(MD5_T[i]),
        MD5_S[i],
    ).wrapping_add(b)
}

/// The message word that makes step `i` from the registers `(a, b, c, d)`
/// produce `target`.
#[verifier::opaque]
pub open spec fn md5_unstep(i: int, a: u32, b: u32, c: u32, d: u32, target: u32) -> u32 {
    rotr(target.wrapping_sub(b), MD5_S[i]).wrapping_sub(md5_round_fn(i, b, c, d)).wrapping_sub(a).wrapping_sub(
        MD5_T[i],
    )
}

/// Inverting a step and running it forward gives the target back.
pub proof fn lemma_unstep_step(i: int, a: u32, b: u32, c: u32, d: u32, target: u32)
    requires
        0 <= i < 64,
    ensures
        md5_step(i, a, b, c, d, md5_unstep(i, a, b, c, d, target)) == target,
{
    reveal(md5_step);
    reveal(md5_unstep);
    let f = md5_round_fn(i, b, c, d);
    let v = target.wrapping_sub(b);
    lemma_wrapping_cancel(rotr(v, MD5_S[i]), f, a, MD5_T[i]);
    lemma_rotl_rotr(v, MD5_S[i]);
    lemma_wrapping_sub_add(target, b);
}

/// Rotating left and then right by the same amount gives the word back.
pub proof fn lemma_rotr_rotl(x: u32, n: u32)
    requires
        0 < n < 32,
    ensures
        rotr(rotl(x, n), n) == x,
{
    assert(((((x << n) | (x >> ((32 - n) as u32))) >> n) | (((x << n) | (x >> ((32 - n) as u32))) << ((32 - n) as u32))) == x) by (bit_vector)
        requires 0 < n < 32;
}

/// The message word that a step reads is the one that inverting the step
/// on its result gives: for fixed registers, a step is one to one in its
/// message word.
pub proof fn lemma_step_unstep(i: int, a: u32, b: u32, c: u32, d: u32, w: u32)
    requires
        0 <= i < 64,
    ensures
        md5_unstep(i, a, b, c, d, md5_step(i, a, b, c, d, w)) == w,
{
    reveal(md5_step);
    reveal(md5_unstep);
    let f = md5_round_fn(i, b, c, d);
    let v = f.wrapping_add(a).wrapping_add(w).wrapping_add(MD5_T[i]);
    let r = rotl(v, MD5_S[i]);
    assert(r.wrapping_add(b).wrapping_sub(b) == r) by (bit_vector);
    lemma_rotr_rotl(v, MD5_S[i]);
    let t = MD5_T[i];
    assert(v.wrapping_sub(f).wrapping_sub(a).wrapping_sub(t) == w) by (bit_vector)
        requires v == f.wrapping_add(a).wrapping_add(w).wrapping_add(t);
}

/// The registers `(a, b, c, d)` after the first `n` steps of MD5's
/// compression of the block `m`, starting from `cv`.
pub open spec fn md5_regs(cv: Chain, m: Seq<u32>, n: nat) -> Chain
    decreases n,
{
    if n == 0 {
        cv
    } else {
        let r = md5_regs(cv, m, (n - 1) as nat);
        let i = n - 1;
        (r.3, md5_step(i, r.0, r.1, r.2, r.3, m[md5_msg_index(i)]), r.1, r.2)
    }
}

/// MD5's compression function on a 16-word block.
pub open spec fn md5_compress(cv: Chain, m: Seq<u32>) -> Chain {
    let r = md5_regs(cv, m, 64);
    (cv.0.wrapping_add(r.0), cv.1.wrapping_add(r.1), cv.2.wrapping_add(r.2), cv.3.wrapping_add(r.3))
}

/// The chaining value after compressing, block by block, a message of whole
/// 16-word blocks.
pub open spec fn md5_chain(cv: Chain, m: Seq<u32>) -> Chain
    decreases m.len(),
{
    if m.len() < 16 {
        cv
    } else {
        md5_chain(md5_compress(cv, m.subrange(0, 16)), m.subrange(16, m.len() as int))
    }
}

/// The padding block MD5 appends to a message of whole 64-byte blocks
/// holding `nbytes` bytes: the byte 0x80, zeros, and the length in bits.
pub open spec fn md5_padding_block(nbytes: nat) -> Seq<u32> {
    let bits = nbytes * 8;
    seq![0x80u32, 0, 0, 0, 0, 0, 0, 0, 0, 0, 0, 0, 0, 0,
        (bits % 0x1_0000_0000) as u32, ((bits / 0x1_0000_0000) % 0x1_0000_0000) as u32]
}

/// The MD5 digest, as its four little-endian words, of the message whose
/// bytes are the little-endian encoding of the words `m` (whole blocks).
pub open spec fn md5_digest_words(m: Seq<u32>) -> Chain {
    md5_chain(md5_initial_chain(), m + md5_padding_block((4 * m.len()) as nat))
}

/// The step-by-step register trace of a compression: `Q[1..=64]` stand in
/// `q[1..=64]`, and `Q[-3], Q[-2], Q[-1], Q[0]` are `a, d, c, b` of `cv`.
pub open spec fn q_at(cv: Chain, q: Seq<u32>, j: int) -> u32 {
    if j == -3 {
        cv.0
    } else if j == -2 {
        cv.3
    } else if j == -1 {
        cv.2
    } else if j == 0 {
        cv.1
    } else {
        q[j]
    }
}

/// `q[i + 1]` is what step `i` computes from the earlier trace and the block `m`.
pub open spec fn step_ok(cv: Chain, q: Seq<u32>, m: Seq<u32>, i: int) -> bool {
    q[i + 1] == md5_step(
        i,
        q_at(cv, q, i - 3),
        q_at(cv, q, i),
        q_at(cv, q, i - 1),
        q_at(cv, q, i - 2),
        m[md5_msg_index(i)],
    )
}

/// Steps `lo..hi` of the trace `q` are those of compressing `m` from `cv`.
pub open spec fn steps_ok(cv: Chain, q: Seq<u32>, m: Seq<u32>, lo: int, hi: int) -> bool {
    forall|i: int| lo <= i < hi ==> #[trigger] step_ok(cv, q, m, i)
}

/// The registers after `n` steps are the last four words of a trace whose
/// first `n` steps hold.
pub proof fn lemma_trace_regs(cv: Chain, q: Seq<u32>, m: Seq<u32>, n: nat)
    requires
        n <= 64,
        steps_ok(cv, q, m, 0, n as int),
    ensures
        md5_regs(cv, m, n) == (q_at(cv, q, n - 3), q_at(cv, q, n as int), q_at(cv, q, n - 1), q_at(
            cv,
            q,
            n - 2,
        )),
    decreases n,
{
    if n > 0 {
        lemma_trace_regs(cv, q, m, (n - 1) as nat);
        assert(step_ok(cv, q, m, n - 1));
    }
}

/// A complete trace determines the compression: the result is `cv` plus
/// the last four trace words.
pub proof fn lemma_trace_compress(cv: Chain, q: Seq<u32>, m: Seq<u32>)
    requires
        steps_ok(cv, q, m, 0, 64),
    ensures
        md5_compress(cv, m) == (
            cv.0.wrapping_add(q[61]),
            cv.1.wrapping_add(q[64]),
            cv.2.wrapping_add(q[63]),
            cv.3.wrapping_add(q[62]),
        ),
{
    lemma_trace_regs(cv, q, m, 64);
}

/// Step facts carry over to another trace and block that agree on what
/// the steps read.
pub proof fn lemma_steps_ok_frame(
    cv: Chain,
    q1: Seq<u32>,
    m1: Seq<u32>,
    q2: Seq<u32>,
    m2: Seq<u32>,
    lo: int,
    hi: int,
)
    requires
        0 <= lo,
        steps_ok(cv, q1, m1, lo, hi),
        forall|j: int| 1 <= j && lo - 3 <= j <= hi ==> q1[j] == q2[j],
        forall|i: int| lo <= i < hi ==> m1[md5_msg_index(i)] == m2[md5_msg_index(i)],
    ensures
        steps_ok(cv, q2, m2, lo, hi),
{
    assert forall|i: int| lo <= i < hi implies step_ok(cv, q2, m2, i) by {
        assert(step_ok(cv, q1, m1, i));
        assert(m1[md5_msg_index(i)] == m2[md5_msg_index(i)]);
        assert(q1[i + 1] == q2[i + 1]);
        assert(q_at(cv, q1, i) == q_at(cv, q2, i));
        assert(q_at(cv, q1, i - 1) == q_at(cv, q2, i - 1));
        assert(q_at(cv, q1, i - 2) == q_at(cv, q2, i - 2));
        assert(q_at(cv, q1, i - 3) == q_at(cv, q2, i - 3));
    }
}

/// Rotates `x` left by `n` bits.
pub fn rl(x: u32, n: u32) -> (r: u32)
    requires
        0 < n < 32,
    ensures
        r == rotl(x, n),
{
    (x << n) | (x >> (32 - n))
}

/// Rotates `x` right by `n` bits.
pub fn rr(x: u32, n: u32) -> (r: u32)
    requires
        0 < n < 32,
    ensures
        r == rotr(x, n),
{
    (x >> n) | (x << (32 - n))
}

/// Computes the boolean function of step `i`.
pub fn md5_round_fn_exec(i: usize, x: u32, y: u32, z: u32) -> (r: u32)
    requires
        i < 64,
    ensures
        r == md5_round_fn(i as int, x, y, z),
{
    if i < 16 {
        z ^ (x & (y ^ z))
    } else if i < 32 {
        y ^ (z & (x ^ y))
    } else if i < 48 {
        x ^ y ^ z
    } else {
        y ^ (x | !z)
    }
}

/// Computes the index of the message word that step `i` reads.
pub fn md5_msg_index_exec(i: usize) -> (k: usize)
    requires
        i < 64,
    ensures
        k == md5_msg_index(i as int),
        k < 16,
{
    if i < 16 {
        i
    } else if i < 32 {
        (5 * i + 1) % 16
    } else if i < 48 {
        (3 * i + 5) % 16
    } else {
        (7 * i) % 16
    }
}

/// Computes step `i` of MD5.
pub fn md5_step_exec(i: usize, a: u32, b: u32, c: u32, d: u32, w: u32) -> (r: u32)
    requires
        i < 64,
    ensures
        r == md5_step(i as int, a, b, c, d, w),
{
    let f = md5_round_fn_exec(i, b, c, d);
    let r = rl(f.wrapping_add(a).wrapping_add(w).wrapping_add(MD5_T[i]), MD5_S[i]).wrapping_add(b);
    proof {
        reveal(md5_step);
    }
    r
}

/// Computes the message word that makes step `i` produce `target`.
pub fn md5_unstep_exec(i: usize, a: u32, b: u32, c: u32, d: u32, target: u32) -> (w: u32)
    requires
        i < 64,
    ensures
        w == md5_unstep(i as int, a, b, c, d, target),
        md5_step(i as int, a, b, c, d, w) == target,
{
    let f = md5_round_fn_exec(i, b, c, d);
    let t = MD5_T[i];
    let s = MD5_S[i];
    let v = target.wrapping_sub(b);
    let w = rr(v, s).wrapping_sub(f).wrapping_sub(a).wrapping_sub(t);
    proof {
        reveal(md5_unstep);
        lemma_unstep_step(i as int, a, b, c, d, target);
    }
    w
}

/// Subtracting a word and adding it back, modulo 2^32, is the identity.
pub proof fn lemma_wrapping_sub_add(x: u32, y: u32)
    ensures
        x.wrapping_sub(y).wrapping_add(y) == x,
{
    assert(x.wrapping_sub(y).wrapping_add(y) == x) by (bit_vector);
}


/// Each step reads a word inside its block.
pub proof fn lemma_msg_index_range(i: int)
    requires
        0 <= i < 64,
    ensures
        0 <= md5_msg_index(i) < 16,
{
}

/// Two adjacent ranges of steps make one.
pub proof fn lemma_steps_ok_concat(cv: Chain, q: Seq<u32>, m: Seq<u32>, a: int, b: int, c: int)
    requires
        a <= b <= c,
        steps_ok(cv, q, m, a, b),
        steps_ok(cv, q, m, b, c),
    ensures
        steps_ok(cv, q, m, a, c),
{
    assert forall|i: int| a <= i < c implies step_ok(cv, q, m, i) by {
        if i < b {
            assert(step_ok(cv, q, m, i));
        } else {
            assert(step_ok(cv, q, m, i));
        }
    }
}

/// The trace word `Q[j]`, `1 <= j <= 64`, of compressing `m` from `cv`:
/// the register `b` after `j` steps.
pub open spec fn trace_word(cv: Chain, m: Seq<u32>, j: int) -> u32 {
    md5_regs(cv, m, j as nat).1
}

/// The word `q[n]` of a trace whose first `n` steps hold is the trace
/// word `Q[n]` of the compression.
pub proof fn lemma_trace_word_at(cv: Chain, q: Seq<u32>, m: Seq<u32>, n: int, hi: int)
    requires
        1 <= n <= hi <= 64,
        steps_ok(cv, q, m, 0, hi),
    ensures
        q[n] == trace_word(cv, m, n),
{
    reveal(trace_word);
    assert(steps_ok(cv, q, m, 0, n));
    lemma_trace_regs(cv, q, m, n as nat);
}

} // verus!
