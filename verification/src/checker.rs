//! The entropy check of the raw Collatz bit stream: a trajectory from a
//! 64-bit seed emits its parity bit at every step; the check counts zeros,
//! ones and bit transitions.

use vstd::prelude::*;

verus! {

/// Offset added to the seed (besides the last bit) when the trajectory
/// falls to 0 or 1 and is restarted.
pub const RESTART_OFFSET: u128 = 7;

/// One plain Collatz step with its parity bit: an even `n` halves and emits
/// 0, an odd `n` becomes `3n + 1` (modulo 2^128) and emits 1.
pub open spec fn spec_collatz_bit(n: u128) -> (u128, u8) {
    if n % 2 == 0 {
        (n / 2, 0)
    } else {
        (n.wrapping_mul(3).wrapping_add(1), 1)
    }
}

/// One plain Collatz step with its parity bit.
pub fn get_collatz_bit(n: u128) -> (r: (u128, u8))
    ensures
        r == spec_collatz_bit(n),
        r.1 as int == n % 2,
{
    if n % 2 == 0 {
        (n / 2, 0)
    } else {
        (n.wrapping_mul(3).wrapping_add(1), 1)
    }
}

/// The trajectory value before step `i`: it starts at the seed, and when a
/// step lands on 0 or 1 it restarts at `seed + bit + 7`, where `bit` is the
/// bit that step emitted.
pub open spec fn trajectory(seed: u64, i: nat) -> u128
    decreases i,
{
    if i == 0 {
        seed as u128
    } else {
        let (next, bit) = spec_collatz_bit(trajectory(seed, (i - 1) as nat));
        if next <= 1 {
            (seed + bit + RESTART_OFFSET) as u128
        } else {
            next
        }
    }
}

/// The bit emitted at step `i`.
pub open spec fn bit_at(seed: u64, i: nat) -> u8 {
    spec_collatz_bit(trajectory(seed, i)).1
}

/// How many of the first `steps` bits equal `b`.
pub open spec fn count_bits(seed: u64, steps: nat, b: u8) -> nat
    decreases steps,
{
    if steps == 0 {
        0
    } else {
        count_bits(seed, (steps - 1) as nat, b) + if bit_at(seed, (steps - 1) as nat) == b {
            1nat
        } else {
            0nat
        }
    }
}

/// How many of the first `steps` bits differ from the bit before them.
pub open spec fn count_transitions(seed: u64, steps: nat) -> nat
    decreases steps,
{
    if steps <= 1 {
        0
    } else {
        count_transitions(seed, (steps - 1) as nat) + if bit_at(seed, (steps - 1) as nat)
            != bit_at(seed, (steps - 2) as nat) {
            1nat
        } else {
            0nat
        }
    }
}

/// The counts of an entropy check.
#[derive(Clone, Copy, PartialEq, Eq, Structural)]
pub struct EntropyReport {
    pub zeros: u32,
    pub ones: u32,
    pub transitions: u32,
}

/// The zeros and ones of a check account for every step, and there are
/// fewer transitions than steps.
pub proof fn lemma_counts_cover_steps(seed: u64, steps: nat)
    ensures
        count_bits(seed, steps, 0) + count_bits(seed, steps, 1) == steps,
        steps > 0 ==> count_transitions(seed, steps) < steps,
        steps == 0 ==> count_transitions(seed, steps) == 0,
    decreases steps,
{
    if steps > 0 {
        lemma_counts_cover_steps(seed, (steps - 1) as nat);
    }
}

/// Runs `steps` steps of the trajectory from `seed` and counts the emitted
/// zeros, ones and transitions.
pub fn entropy_scan(seed: u64, steps: u32) -> (r: EntropyReport)
    ensures
        r.zeros == count_bits(seed, steps as nat, 0),
        r.ones == count_bits(seed, steps as nat, 1),
        r.transitions == count_transitions(seed, steps as nat),
        r.zeros + r.ones == steps,
        r.transitions <= r.zeros + r.ones,
{
    let mut n: u128 = seed as u128;
    let mut zeros: u32 = 0;
    let mut ones: u32 = 0;
    let mut transitions: u32 = 0;
    let mut last_bit: u8 = 2;

    let mut i: u32 = 0;
    while i < steps
        invariant
            i <= steps,
            n == trajectory(seed, i as nat),
            zeros == count_bits(seed, i as nat, 0),
            ones == count_bits(seed, i as nat, 1),
            transitions == count_transitions(seed, i as nat),
            i == 0 ==> last_bit == 2,
            i > 0 ==> last_bit == bit_at(seed, (i - 1) as nat),
        decreases steps - i,
    {
        proof {
            lemma_counts_cover_steps(seed, i as nat);
        }
        let (next_n, bit) = get_collatz_bit(n);
        if bit == 0 {
            zeros += 1;
        } else {
            ones += 1;
        }
        if last_bit != 2 && bit != last_bit {
            transitions += 1;
        }
        last_bit = bit;
        n = next_n;
        if n <= 1 {
            n = seed as u128 + last_bit as u128 + RESTART_OFFSET;
        }
        i += 1;
    }
    proof {
        lemma_counts_cover_steps(seed, steps as nat);
    }
    EntropyReport { zeros, ones, transitions }
}

/// The verdict of the check: the share of ones, `ones / (zeros + ones)`,
/// lies strictly between 3/10 and 7/10.
pub open spec fn spec_high_entropy(r: EntropyReport) -> bool {
    let total = r.zeros + r.ones;
    10 * r.ones > 3 * total && 10 * r.ones < 7 * total
}

/// Whether a report passes the check.
pub fn is_high_entropy(r: &EntropyReport) -> (b: bool)
    ensures
        b == spec_high_entropy(*r),
{
    let total: u64 = r.zeros as u64 + r.ones as u64;
    let ones: u64 = r.ones as u64;
    10 * ones > 3 * total && 10 * ones < 7 * total
}

/// One step of the checked trajectory in integer terms: `t / 2` for an
/// even `t`, `3t + 1` (modulo 2^128) for an odd one, and a step that lands
/// on 0 or 1 restarts at `seed + (t mod 2) + 7`.
pub proof fn lemma_trajectory_step(seed: u64, i: nat)
    ensures
        ({
            let t = trajectory(seed, i) as int;
            let next = if t % 2 == 0 {
                t / 2
            } else {
                (3 * t + 1) % (u128::MAX + 1)
            };
            trajectory(seed, i + 1) as int == if next <= 1 {
                seed + t % 2 + 7
            } else {
                next
            }
        }),
{
    assert(trajectory(seed, i + 1) == ({
        let (next, bit) = spec_collatz_bit(trajectory(seed, i));
        if next <= 1 {
            (seed + bit + RESTART_OFFSET) as u128
        } else {
            next
        }
    }));
}

} // verus!
