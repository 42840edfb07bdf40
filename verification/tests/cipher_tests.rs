use lambda_shield::cipher::{collatz_step, sip_round};
use lambda_shield::{lambda_keystream, lambda_process};

const README_MESSAGE: &[u8] = b"Bazinga! Lemma 3 is live.";

#[test]
fn process_readme_message_exact_ciphertext() {
    let out = lambda_process(README_MESSAGE, 12345, 67890);
    let expected: Vec<u8> = vec![
        98, 140, 83, 6, 30, 115, 2, 148, 239, 49, 66, 127, 203, 240, 188, 78, 144, 59, 58, 135,
        150, 65, 93, 152, 81,
    ];
    assert_eq!(out, expected);
}

#[test]
fn process_twice_decrypts() {
    let enc = lambda_process(README_MESSAGE, 12345, 67890);
    assert_ne!(enc.as_slice(), README_MESSAGE);
    let dec = lambda_process(&enc, 12345, 67890);
    assert_eq!(dec.as_slice(), README_MESSAGE);
}

#[test]
fn process_with_other_seeds_does_not_decrypt() {
    let enc = lambda_process(README_MESSAGE, 12345, 67890);
    let dec = lambda_process(&enc, 12345, 67891);
    assert_ne!(dec.as_slice(), README_MESSAGE);
}

#[test]
fn process_empty_input_gives_empty_output() {
    assert!(lambda_process(&[], 1, 2).is_empty());
    assert!(lambda_keystream(0, 1, 2).is_empty());
}

#[test]
fn keystream_exact_values() {
    assert_eq!(
        lambda_keystream(16, 12345, 67890),
        vec![32, 237, 41, 111, 112, 20, 99, 181, 207, 125, 39, 18, 166, 145, 156, 125]
    );
    assert_eq!(lambda_keystream(8, 0, 0), vec![72, 88, 233, 172, 123, 212, 71, 244]);
    assert_eq!(
        lambda_keystream(8, u64::MAX, u64::MAX),
        vec![89, 133, 214, 94, 209, 249, 196, 18]
    );
}

#[test]
fn process_single_bytes_exact_values() {
    assert_eq!(lambda_process(&[0], 1, 0), vec![94]);
    assert_eq!(lambda_process(&[0xff, 0, 0x55], 1, 0), vec![161, 13, 48]);
}

#[test]
fn keystream_is_prefix_of_longer_keystream() {
    let long = lambda_keystream(64, 7, 9);
    for len in [0usize, 1, 5, 31, 64] {
        assert_eq!(lambda_keystream(len, 7, 9).as_slice(), &long[..len]);
    }
}

#[test]
fn process_is_xor_with_keystream() {
    let data: Vec<u8> = (0u8..=200).collect();
    let ks = lambda_keystream(data.len(), 42, 4242);
    let enc = lambda_process(&data, 42, 4242);
    for i in 0..data.len() {
        assert_eq!(enc[i], data[i] ^ ks[i]);
    }
}

#[test]
fn encrypting_a_prefix_gives_prefix_of_ciphertext() {
    let data: Vec<u8> = (0u8..100).map(|x| x.wrapping_mul(37)).collect();
    let full = lambda_process(&data, 3, 5);
    let part = lambda_process(&data[..40], 3, 5);
    assert_eq!(part.as_slice(), &full[..40]);
}

#[test]
fn reused_seeds_leak_plaintext_xor() {
    let a = b"attack at dawn!!";
    let b = b"retreat at noon.";
    let ea = lambda_process(a, 11, 22);
    let eb = lambda_process(b, 11, 22);
    for i in 0..a.len() {
        assert_eq!(ea[i] ^ eb[i], a[i] ^ b[i]);
    }
}

#[test]
fn sip_round_exact_value() {
    assert_eq!(
        sip_round(1, 2, 3, 4),
        (0x300040007, 0x8006400a, 0x400a00000000, 0x8300e40007)
    );
}

#[test]
fn collatz_step_edge_values() {
    assert_eq!(collatz_step(0), 0xdeadbeef1337cafe);
    assert_eq!(collatz_step(1), 4);
    assert_eq!(collatz_step(2), 0xdeadbeef1337cafe);
    assert_eq!(collatz_step(3), 10);
    assert_eq!(collatz_step(u128::MAX), u64::MAX as u128 + 6);
    assert_eq!(collatz_step(1u128 << 100), 34359738375);
    assert_eq!(collatz_step(2 * (u64::MAX as u128) + 4), 9);
}

#[test]
fn collatz_step_stays_bounded() {
    let mut n: u128 = (12345u128 << 64) | 67890;
    for _ in 0..10_000 {
        n = collatz_step(n);
        assert!(n >= 2);
        assert!(n <= u64::MAX as u128 + 6);
    }
}
