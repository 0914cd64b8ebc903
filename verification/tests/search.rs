use md5coll::block1::{block1, RAND_ARR};
use md5coll::block2::{b2_place, b2_steps_16_20, MASK22};
use md5coll::state::StateS;

const IV: [u32; 4] = [0x67452301, 0xefcdab89, 0x98badcfe, 0x10325476];

/// A plain MD5 compression function, written out for checking.
fn plain_compress(cv: [u32; 4], m: &[u32]) -> [u32; 4] {
    const S: [u32; 64] = [
        7, 12, 17, 22, 7, 12, 17, 22, 7, 12, 17, 22, 7, 12, 17, 22, 5, 9, 14, 20, 5, 9, 14, 20, 5, 9,
        14, 20, 5, 9, 14, 20, 4, 11, 16, 23, 4, 11, 16, 23, 4, 11, 16, 23, 4, 11, 16, 23, 6, 10, 15,
        21, 6, 10, 15, 21, 6, 10, 15, 21, 6, 10, 15, 21,
    ];
    let (mut a, mut b, mut c, mut d) = (cv[0], cv[1], cv[2], cv[3]);
    for i in 0..64 {
        let (f, g) = match i / 16 {
            0 => ((b & c) | (!b & d), i),
            1 => ((d & b) | (!d & c), (5 * i + 1) % 16),
            2 => (b ^ c ^ d, (3 * i + 5) % 16),
            _ => (c ^ (b | !d), (7 * i) % 16),
        };
        let k = ((i as f64 + 1.0).sin().abs() * 4294967296.0) as u32;
        let t = f.wrapping_add(a).wrapping_add(k).wrapping_add(m[g]);
        a = d;
        d = c;
        c = b;
        b = b.wrapping_add(t.rotate_left(S[i]));
    }
    [
        cv[0].wrapping_add(a),
        cv[1].wrapping_add(b),
        cv[2].wrapping_add(c),
        cv[3].wrapping_add(d),
    ]
}

fn delta(k: usize) -> u32 {
    match k {
        4 | 14 | 20 | 30 => 0x80000000,
        11 | 27 => 0x8000,
        _ => 0,
    }
}

#[test]
fn first_block_from_standard_iv() {
    let mut s = StateS::new();
    let r = block1(IV, 7, &mut s);
    assert_eq!(r, 0);
    let c0 = plain_compress(IV, &s.x0[..16]);
    let c1 = plain_compress(IV, &s.x1[..16]);
    assert_eq!(c0, [s.a0, s.b0, s.c0, s.d0]);
    assert_eq!(c1, [s.a1, s.b1, s.c1, s.d1]);
    for k in 0..16 {
        assert_eq!(s.x1[k], s.x0[k] ^ delta(k));
    }
    assert_eq!(s.a0 ^ s.a1, 0x80000000);
    assert_eq!(s.b0.wrapping_sub(s.b1), 0x7e000000);
    assert_eq!(s.c0.wrapping_sub(s.c1), 0x7e000000);
    assert_eq!(s.d0.wrapping_sub(s.d1), 0x7e000000);
    assert_eq!(s.d0 & 0x02000000, 0);
    assert_eq!(s.ct1, 8);
    assert_eq!(s.ct2, 0);
    // the fixed words are where the trace starts
    assert_eq!(s.q0[3], RAND_ARR[0] & !0x00800040);
    assert_eq!(s.q0[20], 886608102);
}

#[test]
fn first_block_is_deterministic() {
    let mut s = StateS::new();
    let mut t = StateS::new();
    t.q0[30] = 5;
    t.x0[31] = 9;
    assert_eq!(block1(IV, 0, &mut s), 0);
    assert_eq!(block1(IV, 0, &mut t), 0);
    assert_eq!(s.x0[..16], t.x0[..16]);
    assert_eq!(s.x1[..16], t.x1[..16]);
    assert_eq!([s.a0, s.b0, s.c0, s.d0], [t.a0, t.b0, t.c0, t.d0]);
}

#[test]
fn placing_the_second_blocks_first_word() {
    let mut s = StateS::new();
    assert_eq!(block1(IV, 0, &mut s), 0);
    let first0 = s.x0;
    let v = (0x12345678u32 | 0x84200000) & !0x0a000820;
    let ok = b2_place(&mut s, 1, v, 0x7e000000, 0);
    assert_eq!(s.q0[1], v);
    assert_eq!(s.q1[1], v.wrapping_sub(0x7e000000));
    assert_eq!(ok, s.x0[16] == s.x1[16]);
    // the word is the one that makes step 0 produce Q[1]
    let f = s.d0 ^ (s.b0 & (s.c0 ^ s.d0));
    let t = f.wrapping_add(s.a0).wrapping_add(s.x0[16]).wrapping_add(0xd76aa478);
    assert_eq!(t.rotate_left(7).wrapping_add(s.b0), v);
    let f1 = s.d1 ^ (s.b1 & (s.c1 ^ s.d1));
    let t1 = f1.wrapping_add(s.a1).wrapping_add(s.x1[16]).wrapping_add(0xd76aa478);
    assert_eq!(t1.rotate_left(7).wrapping_add(s.b1), s.q1[1]);
    // the first blocks are untouched
    assert_eq!(s.x0[..16], first0[..16]);
}

#[test]
fn placing_reports_the_difference() {
    let mut s = StateS::new();
    assert_eq!(block1(IV, 0, &mut s), 0);
    let same = b2_place(&mut s, 1, 0x01020304, 0, 0);
    assert_eq!(same, s.x0[16] == s.x1[16]);
    assert_eq!(s.q0[1], s.q1[1]);
    // with a difference the result says whether the words differ by delta
    let d = b2_place(&mut s, 5, 0x5a5a5a5a, 0x7ffffcbf, 0x80000000);
    assert_eq!(d, s.x0[20] ^ s.x1[20] == 0x80000000);
}

#[test]
fn second_round_start_checks_conditions() {
    let mut s = StateS::new();
    assert_eq!(block1(IV, 0, &mut s), 0);
    let x0 = s.x0;
    let ok = b2_steps_16_20(&mut s);
    assert_eq!(s.x0, x0);
    if ok {
        assert_eq!(s.q0[17] ^ s.q1[17], 0x80000000);
        assert_eq!(s.q0[21] ^ s.q1[21], 0x80000000);
    }
}

#[test]
fn single_bit_masks() {
    assert_eq!(MASK22.len(), 30);
    for (i, m) in MASK22.iter().enumerate() {
        assert_eq!(m.count_ones(), 1);
        if i < 29 {
            assert_eq!(*m, 1u32 << i);
        } else {
            assert_eq!(*m, 0x40000000);
        }
    }
}
