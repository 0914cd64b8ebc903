use md5coll::block1::block1;
use md5coll::block2::{b2_draw_stage, b2_mask_exec, b2_steps_16_20, b2_steps_21_31, b2_steps_32_47, b2_steps_48_63};
use md5coll::md5::{md5_msg_index_exec, md5_step_exec};
use md5coll::state::StateS;
use md5coll::trace::forward_step;

const IV: [u32; 4] = [0x67452301, 0xefcdab89, 0x98badcfe, 0x10325476];

/// A pair of colliding messages that the search produced from the standard
/// initial value.
const M0: [u32; 32] = [
    0x8a582418, 0x743f1f16, 0x66da0a2b, 0x9a7ee5bc, 0xf772c7f0, 0xae2ba6f1, 0xd4440a3e, 0xc56ffead,
    0x0633acc5, 0x629479fd, 0x73a496d7, 0x94226f87, 0x727558d2, 0x746b5dfe, 0x19f44217, 0x98e134c9,
    0x25b300da, 0x0d5f5170, 0x0bd37225, 0xf8034c27, 0x3857f241, 0x3bf88f4a, 0x56ab8522, 0xdd4c84d6,
    0xa0be6791, 0xaa7bf4ba, 0xad91c7f2, 0x5da6f489, 0x411254fc, 0x98680388, 0x0ff15df8, 0x3be018a9,
];
const M1: [u32; 32] = [
    0x8a582418, 0x743f1f16, 0x66da0a2b, 0x9a7ee5bc, 0x7772c7f0, 0xae2ba6f1, 0xd4440a3e, 0xc56ffead,
    0x0633acc5, 0x629479fd, 0x73a496d7, 0x9422ef87, 0x727558d2, 0x746b5dfe, 0x99f44217, 0x98e134c9,
    0x25b300da, 0x0d5f5170, 0x0bd37225, 0xf8034c27, 0xb857f241, 0x3bf88f4a, 0x56ab8522, 0xdd4c84d6,
    0xa0be6791, 0xaa7bf4ba, 0xad91c7f2, 0x5da67489, 0x411254fc, 0x98680388, 0x8ff15df8, 0x3be018a9,
];

/// Compression through the library's step function.
fn compress(cv: [u32; 4], m: &[u32]) -> [u32; 4] {
    let (mut a, mut b, mut c, mut d) = (cv[0], cv[1], cv[2], cv[3]);
    for i in 0..64 {
        let nb = md5_step_exec(i, a, b, c, d, m[md5_msg_index_exec(i)]);
        a = d;
        d = c;
        c = b;
        b = nb;
    }
    [cv[0].wrapping_add(a), cv[1].wrapping_add(b), cv[2].wrapping_add(c), cv[3].wrapping_add(d)]
}

/// MD5 of the 128-byte message whose little-endian words are `m`, as hex.
fn md5_hex(m: &[u32; 32]) -> String {
    let mut pad = [0u32; 16];
    pad[0] = 0x80;
    pad[14] = 1024;
    let c = compress(IV, &m[..16]);
    let c = compress(c, &m[16..]);
    let d = compress(c, &pad);
    let mut s = String::new();
    for w in d.iter() {
        for b in w.to_le_bytes().iter() {
            s.push_str(&format!("{:02x}", b));
        }
    }
    s
}

#[test]
fn known_pair_collides() {
    assert_ne!(M0, M1);
    assert_eq!(md5_hex(&M0), "1eb1d64f7e390962615a37506a71d599");
    assert_eq!(md5_hex(&M1), "1eb1d64f7e390962615a37506a71d599");
    for k in 0..32 {
        let d = match k {
            4 | 14 | 20 | 30 => 0x80000000,
            11 | 27 => 0x8000,
            _ => 0,
        };
        assert_eq!(M0[k] ^ M1[k], d);
    }
}

#[test]
fn first_blocks_are_those_of_the_known_pair() {
    let mut s = StateS::new();
    assert_eq!(block1(IV, 0, &mut s), 0);
    assert_eq!(s.x0[..16], M0[..16]);
    assert_eq!(s.x1[..16], M1[..16]);
    assert_eq!([s.a0, s.b0, s.c0, s.d0], compress(IV, &M0[..16]));
    assert_eq!([s.a1, s.b1, s.c1, s.d1], compress(IV, &M1[..16]));
}

/// The state after the first-block search, with the given second blocks and
/// the first 16 trace words of their compressions.
fn with_second_blocks(m0: &[u32; 32], m1: &[u32; 32]) -> StateS {
    let mut s = StateS::new();
    assert_eq!(block1(IV, 0, &mut s), 0);
    s.x0[16..].copy_from_slice(&m0[16..]);
    s.x1[16..].copy_from_slice(&m1[16..]);
    let cv0 = (s.a0, s.b0, s.c0, s.d0);
    let cv1 = (s.a1, s.b1, s.c1, s.d1);
    for i in 0..16 {
        forward_step(cv0, &mut s.q0, &s.x0, 16, i);
        forward_step(cv1, &mut s.q1, &s.x1, 16, i);
    }
    s
}

fn second_stages_pass(s: &mut StateS) -> bool {
    b2_steps_16_20(s) && b2_steps_21_31(s) && b2_steps_32_47(s) && b2_steps_48_63(s)
}

#[test]
fn second_block_checks_accept_the_known_pair() {
    let mut s = with_second_blocks(&M0, &M1);
    assert!(second_stages_pass(&mut s));
    let c0 = compress([s.a0, s.b0, s.c0, s.d0], &s.x0[16..]);
    let c1 = compress([s.a1, s.b1, s.c1, s.d1], &s.x1[16..]);
    assert_eq!(c0, c1);
    assert_eq!(c0, [s.a0.wrapping_add(s.q0[61]), s.b0.wrapping_add(s.q0[64]), s.c0.wrapping_add(s.q0[63]), s.d0.wrapping_add(s.q0[62])]);
}

#[test]
fn second_block_checks_reject_a_changed_pair() {
    let mut m0 = M0;
    m0[17] ^= 0x10;
    let mut s = with_second_blocks(&m0, &M1);
    assert!(!second_stages_pass(&mut s));
}

#[test]
fn known_pair_meets_the_first_round_masks() {
    let s = with_second_blocks(&M0, &M1);
    for k in 1..=16 {
        let (set, clear, keep, dq, _) = b2_mask_exec(k);
        let q = s.q0[k];
        assert_eq!(((q | set) & !clear) | (s.q0[k - 1] & keep), q);
        assert_eq!(q.wrapping_sub(s.q1[k]), dq);
    }
    assert_eq!(s.q0[16] & 0xa0000000, 0x20000000);
}

#[test]
fn drawing_a_first_round_word() {
    let mut s = StateS::new();
    assert_eq!(block1(IV, 0, &mut s), 0);
    let draw = 0x12345678u32;
    let ok = b2_draw_stage(&mut s, 1, draw);
    let q = (draw | 0x84200000) & !0x0a000820;
    assert_eq!(s.q0[1], q);
    assert_eq!(s.q1[1], q.wrapping_sub(0x7e000000));
    assert_eq!(ok, s.x0[16] == s.x1[16]);
    let prev = s.q0[1];
    let ok2 = b2_draw_stage(&mut s, 2, 0);
    let q2 = (0x8c000800 & !(0x02208026u32 | 0x701f10c0)) | (prev & 0x701f10c0);
    assert_eq!(s.q0[2], q2);
    assert_eq!(s.q1[2], q2.wrapping_sub(0x7dffffe0));
    assert_eq!(ok2, s.x0[17] == s.x1[17]);
    assert_eq!(b2_mask_exec(5).4, 0x80000000);
    assert_eq!(b2_mask_exec(12).4, 0x8000);
}
