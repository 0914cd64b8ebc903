use md5coll::md5::{md5_msg_index_exec, md5_round_fn_exec, md5_step_exec, md5_unstep_exec, rl, rr, MD5_S, MD5_T};
use md5coll::trace::{forward_step, inverse_step, q_get};

const IV: [u32; 4] = [0x67452301, 0xefcdab89, 0x98badcfe, 0x10325476];

/// Compression through the library's step function.
fn compress_with_steps(cv: [u32; 4], m: &[u32]) -> [u32; 4] {
    let (mut a, mut b, mut c, mut d) = (cv[0], cv[1], cv[2], cv[3]);
    for i in 0..64 {
        let nb = md5_step_exec(i, a, b, c, d, m[md5_msg_index_exec(i)]);
        a = d;
        d = c;
        c = b;
        b = nb;
    }
    [
        cv[0].wrapping_add(a),
        cv[1].wrapping_add(b),
        cv[2].wrapping_add(c),
        cv[3].wrapping_add(d),
    ]
}

fn digest_hex(words: [u32; 4]) -> String {
    let mut s = String::new();
    for w in words.iter() {
        for b in w.to_le_bytes().iter() {
            s.push_str(&format!("{:02x}", b));
        }
    }
    s
}

/// One padded block holding `msg` (at most 55 bytes).
fn padded_block(msg: &[u8]) -> [u32; 16] {
    let mut bytes = [0u8; 64];
    bytes[..msg.len()].copy_from_slice(msg);
    bytes[msg.len()] = 0x80;
    let bits = (msg.len() as u64) * 8;
    bytes[56..64].copy_from_slice(&bits.to_le_bytes());
    let mut m = [0u32; 16];
    for i in 0..16 {
        m[i] = u32::from_le_bytes([bytes[4 * i], bytes[4 * i + 1], bytes[4 * i + 2], bytes[4 * i + 3]]);
    }
    m
}

#[test]
fn md5_of_empty_message() {
    let d = compress_with_steps(IV, &padded_block(b""));
    assert_eq!(digest_hex(d), "d41d8cd98f00b204e9800998ecf8427e");
}

#[test]
fn md5_of_abc() {
    let d = compress_with_steps(IV, &padded_block(b"abc"));
    assert_eq!(digest_hex(d), "900150983cd24fb0d6963f7d28e17f72");
}

#[test]
fn md5_of_alphabet() {
    let d = compress_with_steps(IV, &padded_block(b"abcdefghijklmnopqrstuvwxyz"));
    assert_eq!(digest_hex(d), "c3fcd3d76192e4007dfb496cca67e13b");
}

#[test]
fn tables_are_md5s() {
    assert_eq!(MD5_T[0], 0xd76aa478);
    assert_eq!(MD5_T[63], 0xeb86d391);
    for i in 0..64 {
        assert_eq!(MD5_T[i], ((i as f64 + 1.0).sin().abs() * 4294967296.0) as u32);
    }
    assert_eq!(MD5_S[0], 7);
    assert_eq!(MD5_S[22], 14);
    assert_eq!(MD5_S[47], 23);
    assert_eq!(MD5_S[63], 21);
}

#[test]
fn rotations() {
    assert_eq!(rl(0x80000001, 1), 0x00000003);
    assert_eq!(rr(0x00000003, 1), 0x80000001);
    assert_eq!(rl(0x12345678, 8), 0x34567812);
    assert_eq!(rr(0x12345678, 8), 0x78123456);
    for n in 1..32u32 {
        assert_eq!(rl(rr(0xdeadbeef, n), n), 0xdeadbeef);
        assert_eq!(rl(0xdeadbeef, n), 0xdeadbeefu32.rotate_left(n));
    }
}

#[test]
fn round_functions() {
    let (x, y, z) = (0xf0f0f0f0u32, 0xff00ff00u32, 0x12345678u32);
    assert_eq!(md5_round_fn_exec(0, x, y, z), (x & y) | (!x & z));
    assert_eq!(md5_round_fn_exec(16, x, y, z), (x & z) | (y & !z));
    assert_eq!(md5_round_fn_exec(32, x, y, z), x ^ y ^ z);
    assert_eq!(md5_round_fn_exec(48, x, y, z), y ^ (x | !z));
}

#[test]
fn message_indices() {
    let want: Vec<usize> = vec![1, 6, 11, 0, 5, 10, 15, 4, 9, 14, 3, 8, 13, 2, 7, 12];
    for i in 0..16 {
        assert_eq!(md5_msg_index_exec(i), i);
        assert_eq!(md5_msg_index_exec(16 + i), want[i]);
    }
    assert_eq!(md5_msg_index_exec(32), 5);
    assert_eq!(md5_msg_index_exec(33), 8);
    assert_eq!(md5_msg_index_exec(48), 0);
    assert_eq!(md5_msg_index_exec(49), 7);
}

#[test]
fn unstep_inverts_step() {
    let (a, b, c, d) = (0x01234567u32, 0x89abcdefu32, 0xfedcba98u32, 0x76543210u32);
    for i in [0usize, 5, 17, 31, 40, 63] {
        for target in [0u32, 1, 0x80000000, 0xdeadbeef] {
            let w = md5_unstep_exec(i, a, b, c, d, target);
            assert_eq!(md5_step_exec(i, a, b, c, d, w), target);
        }
    }
    // step 0 of MD5("") from the standard initial value
    let w = md5_unstep_exec(0, IV[0], IV[1], IV[2], IV[3], md5_step_exec(0, IV[0], IV[1], IV[2], IV[3], 0x80));
    assert_eq!(w, 0x80);
}

#[test]
fn trace_steps_over_arrays() {
    let cv = (IV[0], IV[1], IV[2], IV[3]);
    let m = padded_block(b"abc");
    let mut x = [0u32; 32];
    x[..16].copy_from_slice(&m);
    let mut q = [0u32; 65];
    for i in 0..64 {
        forward_step(cv, &mut q, &x, 0, i);
    }
    let d = [
        IV[0].wrapping_add(q[61]),
        IV[1].wrapping_add(q[64]),
        IV[2].wrapping_add(q[63]),
        IV[3].wrapping_add(q[62]),
    ];
    assert_eq!(digest_hex(d), "900150983cd24fb0d6963f7d28e17f72");
    assert_eq!(q_get(cv, &q, -3), IV[0]);
    assert_eq!(q_get(cv, &q, -2), IV[3]);
    assert_eq!(q_get(cv, &q, 0), IV[1]);
    assert_eq!(q_get(cv, &q, 7), q[7]);
    // recovering the words of round 1 from the trace gives the block back
    let mut y = [0u32; 32];
    for i in 0..16 {
        inverse_step(cv, &q, &mut y, 16, i);
    }
    assert_eq!(&y[16..32], &m[..]);
    assert_eq!(&y[..16], &[0u32; 16][..]);
}
