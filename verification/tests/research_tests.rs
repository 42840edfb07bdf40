use lambda_shield::cipher;
use lambda_shield::research::{
    attack_collatz_with_full_state, attack_collatz_with_state, attack_counter, collatz_next,
    collatz_step, count_matches, siphash_mix, sip_round, CollatzGen, CounterGen,
};

fn study_seed() -> u64 {
    0xab515515u64.wrapping_mul(0xdeadbeef)
}

#[test]
fn in_place_round_matches_cipher_round() {
    let (mut a, mut b, mut c, mut d) = (1u64, 2u64, 3u64, 4u64);
    sip_round(&mut a, &mut b, &mut c, &mut d);
    assert_eq!((a, b, c, d), cipher::sip_round(1, 2, 3, 4));
    let (mut a, mut b, mut c, mut d) = (u64::MAX, 0x1234, 0xdead_beef, 77);
    sip_round(&mut a, &mut b, &mut c, &mut d);
    assert_eq!((a, b, c, d), cipher::sip_round(u64::MAX, 0x1234, 0xdead_beef, 77));
}

#[test]
fn siphash_mix_exact_values() {
    assert_eq!(siphash_mix(7, 1, 2), 0xded9518e44c2edfb);
}

#[test]
fn plain_collatz_step_values() {
    assert_eq!(collatz_step(7), 22);
    assert_eq!(collatz_step(8), 4);
    assert_eq!(collatz_step(u64::MAX), u64::MAX - 1);
}

#[test]
fn keyed_collatz_next_values() {
    assert_eq!(collatz_next(8, 1, 2), 7);
    assert_eq!(collatz_next(2, 10, 20), 31);
    assert_eq!(collatz_next(1, u64::MAX, 1), 5);
    assert_eq!(collatz_next(7, 1, 2), 22);
}

#[test]
fn counter_generator_keys_and_outputs() {
    let mut g = CounterGen::new(12345);
    assert_eq!(g.counter, 0);
    assert_eq!(g.key0, 0xdeadbeefcafe3039);
    assert_eq!(g.key1, 0x123755e89abcdef);
    assert_eq!(g.next(), 0xe50129d34aedda83);
    assert_eq!(g.counter, 1);
    assert_eq!(g.next(), 0x22d6bb77a8e0946e);
    assert_eq!(g.counter, 2);
}

#[test]
fn collatz_generator_starts_odd_and_steps() {
    assert_eq!(CollatzGen::new(12344).state, 12345);
    assert_eq!(CollatzGen::new(12345).state, 12345);
    let mut g = CollatzGen::new(12345);
    assert_eq!(g.next(), 0xf8e22617c29f3921);
    assert_eq!(g.state, 37036);
}

#[test]
fn count_matches_over_shorter_list() {
    assert_eq!(count_matches(&vec![1, 2, 3, 4], &vec![1, 0, 3]), 2);
    assert_eq!(count_matches(&vec![], &vec![1, 2]), 0);
}

#[test]
fn counter_attack_predicts_everything() {
    for observe_n in [1usize, 10, 100, 1000] {
        assert_eq!(attack_counter(study_seed(), observe_n, 128), 128);
    }
}

#[test]
fn collatz_attack_with_full_state_predicts_everything() {
    for observe_n in [1usize, 100, 10000] {
        assert_eq!(attack_collatz_with_full_state(study_seed(), observe_n, 128), 128);
    }
}

#[test]
fn collatz_attack_without_state_fails_on_study_seed() {
    assert_eq!(attack_collatz_with_state(study_seed(), 1, 128), 0);
    assert_eq!(attack_collatz_with_state(study_seed(), 10, 128), 0);
}

#[test]
fn collatz_attack_without_state_finds_odd_true_state() {
    assert_eq!(attack_collatz_with_state(12345, 0, 5), 5);
}
