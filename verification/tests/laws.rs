use md5coll::block1::{b1_loop11_body, b1_loop12_body, b1_loop1_body, block1, LOOP_11, LOOP_12};
use md5coll::block2::{LOOP_21, LOOP_22, MAX_TRIES};
use md5coll::md5::{md5_step_exec, md5_unstep_exec, rl, rr};
use md5coll::state::StateS;
use md5coll::trace::{store_q, store_word};

const IV: [u32; 4] = [0x67452301, 0xefcdab89, 0x98badcfe, 0x10325476];

#[test]
fn step_recovers_its_word() {
    let regs = [
        (0u32, 0u32, 0u32, 0u32),
        (0x67452301, 0xefcdab89, 0x98badcfe, 0x10325476),
        (0xffffffff, 0x80000000, 0x7fffffff, 0x00000001),
    ];
    for &(a, b, c, d) in regs.iter() {
        for i in [0usize, 15, 16, 31, 32, 47, 48, 63] {
            for w in [0u32, 0x80, 0x12345678, 0xffffffff] {
                let t = md5_step_exec(i, a, b, c, d, w);
                assert_eq!(md5_unstep_exec(i, a, b, c, d, t), w);
            }
        }
    }
}

#[test]
fn rotations_undo_each_other() {
    for n in 1..32u32 {
        for x in [0u32, 1, 0x80000001, 0xdeadbeef] {
            assert_eq!(rl(rr(x, n), n), x);
            assert_eq!(rr(rl(x, n), n), x);
        }
    }
}

#[test]
fn storing_a_trace_word_changes_only_it() {
    let mut q = [7u32; 65];
    store_q(&mut q, 20, 0xabcdef01);
    assert_eq!(q[20], 0xabcdef01);
    for k in 0..65 {
        if k != 20 {
            assert_eq!(q[k], 7);
        }
    }
}

#[test]
fn storing_a_message_word_uses_the_block_offset() {
    let mut x = [0u32; 32];
    store_word(&mut x, 16, 3, 0x55);
    store_word(&mut x, 0, 3, 0x66);
    assert_eq!(x[19], 0x55);
    assert_eq!(x[3], 0x66);
    assert_eq!(x.iter().filter(|w| **w != 0).count(), 2);
}

#[test]
fn first_block_stages_in_order() {
    let mut s = StateS::new();
    assert!(b1_loop1_body(IV, &mut s));
    let round1 = s.x0;
    assert!(b1_loop11_body(IV, &mut s));
    assert_eq!(s.x0[6..16], round1[6..16]);
    assert!(b1_loop12_body(IV, &mut s));
    let mut t = StateS::new();
    assert_eq!(block1(IV, 0, &mut t), 0);
    assert_eq!(s.x0[..16], t.x0[..16]);
    assert_eq!(s.x1[..16], t.x1[..16]);
    assert_eq!([s.a0, s.b0, s.c0, s.d0], [t.a0, t.b0, t.c0, t.d0]);
    assert_eq!([s.a1, s.b1, s.c1, s.d1], [t.a1, t.b1, t.c1, t.d1]);
}

#[test]
fn first_block_counts_its_passes() {
    let mut s = StateS::new();
    assert_eq!(block1(IV, i32::MAX, &mut s), 0);
    assert_eq!(s.ct1, i32::MIN);
    assert_eq!(s.ct2, 0);
}

#[test]
fn loop_limits() {
    assert_eq!(LOOP_11, 300);
    assert_eq!(LOOP_12, 0x20000000);
    assert_eq!(LOOP_21, 1000);
    assert_eq!(LOOP_22, 0x40000000);
    assert_eq!(MAX_TRIES, u64::MAX);
}

#[test]
fn first_block_leaves_the_second_blocks() {
    let mut s = StateS::new();
    for k in 16..32 {
        s.x0[k] = k as u32 * 3;
        s.x1[k] = k as u32 * 5;
    }
    s.q0[0] = 11;
    s.q1[0] = 13;
    assert_eq!(block1(IV, 0, &mut s), 0);
    for k in 16..32 {
        assert_eq!(s.x0[k], k as u32 * 3);
        assert_eq!(s.x1[k], k as u32 * 5);
    }
    assert_eq!((s.q0[0], s.q1[0]), (11, 13));
    let mut t = StateS::new();
    assert_eq!(block1(IV, 0, &mut t), 0);
    assert_eq!(s.q0[1..], t.q0[1..]);
    assert_eq!(s.q1[1..], t.q1[1..]);
}
