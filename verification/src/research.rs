//! The state-recovery study: a counter-driven and a Collatz-driven generator
//! of 64-bit words, both finished by a SipHash-1-2 style mix under a key
//! derived from a seed, and the prediction experiments run against them.
//!
//! Each experiment returns how many of the predicted words were right; the
//! share of the predicted words is the accuracy of the attack.

use vstd::prelude::*;
use crate::bits::{rotl, rotate_left};
use crate::cipher::{spec_sip_round, INIT_V0, INIT_V1, INIT_V2, INIT_V3};

verus! {

/// Key constants XORed into the seed.
pub const KEY0_MASK: u64 = 0xdeadbeefcafe0000;
pub const KEY1_MASK: u64 = 0x0123456789abcdef;

/// How far on either side of the true state the brute-force search looks.
pub const SEARCH_RADIUS: u64 = 500_000;

/// One SipHash round applied in place; it computes the same round as the
/// cipher's mixer, with the operations in another order.
pub fn sip_round(v0: &mut u64, v1: &mut u64, v2: &mut u64, v3: &mut u64)
    ensures
        (*final(v0), *final(v1), *final(v2), *final(v3)) == spec_sip_round(
            (*old(v0), *old(v1), *old(v2), *old(v3)),
        ),
{
    *v0 = v0.wrapping_add(*v1);
    *v1 = rotate_left(*v1, 13);
    *v1 ^= *v0;
    *v0 = rotate_left(*v0, 32);
    *v2 = v2.wrapping_add(*v3);
    *v3 = rotate_left(*v3, 16);
    *v3 ^= *v2;
    *v0 = v0.wrapping_add(*v3);
    *v3 = rotate_left(*v3, 21);
    *v3 ^= *v0;
    *v2 = v2.wrapping_add(*v1);
    *v1 = rotate_left(*v1, 17);
    *v1 ^= *v2;
    *v2 = rotate_left(*v2, 32);
}

/// The keyed mix of a state word: one round with the state injected into
/// the last word, the state XORed into the first word and 0xff into the
/// third, two more rounds, then the XOR of the four words.
pub open spec fn spec_siphash_mix(state: u64, key0: u64, key1: u64) -> u64 {
    let v = spec_sip_round((key0 ^ INIT_V0, key1 ^ INIT_V1, key0 ^ INIT_V2, (key1 ^ INIT_V3) ^ state));
    let v = spec_sip_round(spec_sip_round((v.0 ^ state, v.1, v.2 ^ 0xff, v.3)));
    v.0 ^ v.1 ^ v.2 ^ v.3
}

/// The keyed mix of a state word.
pub fn siphash_mix(state: u64, key0: u64, key1: u64) -> (r: u64)
    ensures
        r == spec_siphash_mix(state, key0, key1),
{
    let mut v0 = key0 ^ INIT_V0;
    let mut v1 = key1 ^ INIT_V1;
    let mut v2 = key0 ^ INIT_V2;
    let mut v3 = key1 ^ INIT_V3;
    v3 ^= state;
    sip_round(&mut v0, &mut v1, &mut v2, &mut v3);
    v0 ^= state;
    v2 ^= 0xff;
    sip_round(&mut v0, &mut v1, &mut v2, &mut v3);
    sip_round(&mut v0, &mut v1, &mut v2, &mut v3);
    v0 ^ v1 ^ v2 ^ v3
}

/// A plain 64-bit Collatz step: halve an even value, map an odd one to
/// `3n + 1` modulo 2^64.
pub open spec fn spec_collatz_step(n: u64) -> u64 {
    if n % 2 == 0 {
        n / 2
    } else {
        3u64.wrapping_mul(n).wrapping_add(1)
    }
}

/// A plain 64-bit Collatz step.
pub fn collatz_step(n: u64) -> (r: u64)
    ensures
        r == spec_collatz_step(n),
{
    if n % 2 == 0 {
        n / 2
    } else {
        3u64.wrapping_mul(n).wrapping_add(1)
    }
}

/// The keyed Collatz transition: a step that lands on 1, 2 or 4 (the
/// trivial cycle) is replaced by `(key0 + key1 + s) | 1`, modulo 2^64.
pub open spec fn spec_collatz_next(state: u64, key0: u64, key1: u64) -> u64 {
    let s = spec_collatz_step(state);
    if s == 1 || s == 2 || s == 4 {
        key0.wrapping_add(key1).wrapping_add(s) | 1
    } else {
        s
    }
}

/// The keyed Collatz transition.
pub fn collatz_next(state: u64, key0: u64, key1: u64) -> (r: u64)
    ensures
        r == spec_collatz_next(state, key0, key1),
        r != 2 && r != 4,
{
    let mut s = collatz_step(state);
    if s == 1 || s == 2 || s == 4 {
        let t = key0.wrapping_add(key1).wrapping_add(s);
        assert((t | 1) % 2 == 1) by (bit_vector);
        s = t | 1;
    }
    s
}

/// `j` keyed Collatz transitions from `state`.
pub open spec fn collatz_iter(state: u64, key0: u64, key1: u64, j: nat) -> u64
    decreases j,
{
    if j == 0 {
        state
    } else {
        spec_collatz_next(collatz_iter(state, key0, key1, (j - 1) as nat), key0, key1)
    }
}

/// The first key word derived from a seed.
pub open spec fn derive_key0(seed: u64) -> u64 {
    seed ^ KEY0_MASK
}

/// The second key word derived from a seed.
pub open spec fn derive_key1(seed: u64) -> u64 {
    rotl(seed, 32) ^ KEY1_MASK
}

/// A generator whose state is a counter.
pub struct CounterGen {
    pub counter: u64,
    pub key0: u64,
    pub key1: u64,
}

impl CounterGen {
    /// A counter generator at 0 with the keys of `seed`.
    pub fn new(seed: u64) -> (g: Self)
        ensures
            g.counter == 0,
            g.key0 == derive_key0(seed),
            g.key1 == derive_key1(seed),
    {
        Self { counter: 0, key0: seed ^ KEY0_MASK, key1: rotate_left(seed, 32) ^ KEY1_MASK }
    }

    /// The mix of the current counter; the counter then moves on by one.
    pub fn next(&mut self) -> (out: u64)
        requires
            old(self).counter < u64::MAX,
        ensures
            out == spec_siphash_mix(old(self).counter, old(self).key0, old(self).key1),
            final(self).counter == old(self).counter + 1,
            final(self).key0 == old(self).key0,
            final(self).key1 == old(self).key1,
    {
        let out = siphash_mix(self.counter, self.key0, self.key1);
        self.counter += 1;
        out
    }
}

/// A generator whose state follows the keyed Collatz transition.
pub struct CollatzGen {
    pub state: u64,
    pub key0: u64,
    pub key1: u64,
}

/// The starting state of a Collatz generator: the seed made odd.
pub open spec fn collatz_start(seed: u64) -> u64 {
    if seed % 2 == 0 {
        seed | 1
    } else {
        seed
    }
}

impl CollatzGen {
    /// A Collatz generator at the seed made odd, with the keys of `seed`.
    pub fn new(seed: u64) -> (g: Self)
        ensures
            g.state == collatz_start(seed),
            g.state % 2 == 1,
            g.key0 == derive_key0(seed),
            g.key1 == derive_key1(seed),
    {
        let s = if seed % 2 == 0 {
            seed | 1
        } else {
            seed
        };
        assert(s % 2 == 1) by (bit_vector)
            requires
                s == (if seed % 2 == 0 { seed | 1 } else { seed });
        Self { state: s, key0: seed ^ KEY0_MASK, key1: rotate_left(seed, 32) ^ KEY1_MASK }
    }

    /// Moves the state by one keyed Collatz transition and returns the mix
    /// of the new state.
    pub fn next(&mut self) -> (out: u64)
        ensures
            final(self).state == spec_collatz_next(old(self).state, old(self).key0, old(self).key1),
            final(self).key0 == old(self).key0,
            final(self).key1 == old(self).key1,
            out == spec_siphash_mix(final(self).state, final(self).key0, final(self).key1),
    {
        self.state = collatz_next(self.state, self.key0, self.key1);
        siphash_mix(self.state, self.key0, self.key1)
    }
}

/// How many of the first `n` positions hold equal words in `a` and `b`.
pub open spec fn count_equal(a: Seq<u64>, b: Seq<u64>, n: nat) -> nat
    decreases n,
{
    if n == 0 {
        0
    } else {
        count_equal(a, b, (n - 1) as nat) + if a[n - 1] == b[n - 1] {
            1nat
        } else {
            0nat
        }
    }
}

/// Two sequences that agree on their first `n` positions agree `n` times.
pub proof fn lemma_count_equal_same(a: Seq<u64>, b: Seq<u64>, n: nat)
    requires
        n <= a.len(),
        n <= b.len(),
        forall|j: int| 0 <= j < n ==> a[j] == b[j],
    ensures
        count_equal(a, b, n) == n,
    decreases n,
{
    if n > 0 {
        lemma_count_equal_same(a, b, (n - 1) as nat);
    }
}

/// At most `n` of the first `n` positions agree.
pub proof fn lemma_count_equal_bound(a: Seq<u64>, b: Seq<u64>, n: nat)
    ensures
        count_equal(a, b, n) <= n,
    decreases n,
{
    if n > 0 {
        lemma_count_equal_bound(a, b, (n - 1) as nat);
    }
}

/// The number of positions at which two word lists agree, over the
/// shorter of the two.
pub fn count_matches(a: &Vec<u64>, b: &Vec<u64>) -> (count: usize)
    ensures
        count == count_equal(
            a@,
            b@,
            if a.len() <= b.len() {
                a.len() as nat
            } else {
                b.len() as nat
            },
        ),
{
    let len = if a.len() <= b.len() {
        a.len()
    } else {
        b.len()
    };
    let mut count: usize = 0;
    let mut j: usize = 0;
    while j < len
        invariant
            j <= len,
            len <= a.len(),
            len <= b.len(),
            count == count_equal(a@, b@, j as nat),
        decreases len - j,
    {
        proof {
            lemma_count_equal_bound(a@, b@, j as nat);
        }
        if a[j] == b[j] {
            count += 1;
        }
        j += 1;
    }
    count
}

/// The next `count` words of a counter generator.
pub fn counter_outputs(g: &mut CounterGen, count: usize) -> (out: Vec<u64>)
    requires
        old(g).counter + count <= u64::MAX,
    ensures
        out.len() == count,
        forall|j: int|
            0 <= j < count ==> #[trigger] out@[j] == spec_siphash_mix(
                (old(g).counter + j) as u64,
                old(g).key0,
                old(g).key1,
            ),
        final(g).counter == old(g).counter + count,
        final(g).key0 == old(g).key0,
        final(g).key1 == old(g).key1,
{
    let ghost start = g.counter;
    let mut out: Vec<u64> = Vec::new();
    let mut i: usize = 0;
    while i < count
        invariant
            i <= count,
            start + count <= u64::MAX,
            g.counter == start + i,
            g.key0 == old(g).key0,
            g.key1 == old(g).key1,
            start == old(g).counter,
            out.len() == i,
            forall|j: int|
                0 <= j < i ==> #[trigger] out@[j] == spec_siphash_mix(
                    (start + j) as u64,
                    old(g).key0,
                    old(g).key1,
                ),
        decreases count - i,
    {
        let w = g.next();
        out.push(w);
        i += 1;
    }
    out
}

/// The next `count` words of a Collatz generator: word `j` is the mix of
/// the state `j + 1` transitions on.
pub fn collatz_outputs(g: &mut CollatzGen, count: usize) -> (out: Vec<u64>)
    ensures
        out.len() == count,
        forall|j: int|
            0 <= j < count ==> #[trigger] out@[j] == spec_siphash_mix(
                collatz_iter(old(g).state, old(g).key0, old(g).key1, (j + 1) as nat),
                old(g).key0,
                old(g).key1,
            ),
        final(g).state == collatz_iter(old(g).state, old(g).key0, old(g).key1, count as nat),
        final(g).key0 == old(g).key0,
        final(g).key1 == old(g).key1,
{
    let ghost start = g.state;
    let mut out: Vec<u64> = Vec::new();
    let mut i: usize = 0;
    while i < count
        invariant
            i <= count,
            start == old(g).state,
            g.key0 == old(g).key0,
            g.key1 == old(g).key1,
            g.state == collatz_iter(start, g.key0, g.key1, i as nat),
            out.len() == i,
            forall|j: int|
                0 <= j < i ==> #[trigger] out@[j] == spec_siphash_mix(
                    collatz_iter(start, g.key0, g.key1, (j + 1) as nat),
                    g.key0,
                    g.key1,
                ),
        decreases count - i,
    {
        let w = g.next();
        out.push(w);
        i += 1;
    }
    out
}

/// The counter attack: the attacker holds the key and knows that the
/// counter stands at `observe_n` after `observe_n` observed words, so every
/// one of the next `predict_n` words is predicted correctly.
pub fn attack_counter(seed: u64, observe_n: usize, predict_n: usize) -> (correct: usize)
    requires
        observe_n + predict_n <= u64::MAX,
    ensures
        correct == predict_n,
{
    let mut legit = CounterGen::new(seed);
    let _observed = counter_outputs(&mut legit, observe_n);
    let future = counter_outputs(&mut legit, predict_n);

    let mut attacker = CounterGen::new(seed);
    attacker.counter = observe_n as u64;
    let predicted = counter_outputs(&mut attacker, predict_n);

    proof {
        lemma_count_equal_same(future@, predicted@, predict_n as nat);
    }
    let correct = count_matches(&future, &predicted);
    correct
}

/// The Collatz attack with the complete state: the attacker holds the key
/// and the true state after `observe_n` observed words, so every one of the
/// next `predict_n` words is predicted correctly.
pub fn attack_collatz_with_full_state(seed: u64, observe_n: usize, predict_n: usize) -> (correct: usize)
    ensures
        correct == predict_n,
{
    let mut legit = CollatzGen::new(seed);
    let _observed = collatz_outputs(&mut legit, observe_n);
    let true_state = legit.state;
    let future = collatz_outputs(&mut legit, predict_n);

    let key0 = seed ^ KEY0_MASK;
    let key1 = rotate_left(seed, 32) ^ KEY1_MASK;
    let mut attacker_state = true_state;
    let mut predicted: Vec<u64> = Vec::new();
    let mut i: usize = 0;
    while i < predict_n
        invariant
            i <= predict_n,
            key0 == legit.key0,
            key1 == legit.key1,
            future.len() == predict_n,
            forall|j: int|
                0 <= j < predict_n ==> #[trigger] future@[j] == spec_siphash_mix(
                    collatz_iter(true_state, key0, key1, (j + 1) as nat),
                    key0,
                    key1,
                ),
            attacker_state == collatz_iter(true_state, key0, key1, i as nat),
            predicted.len() == i,
            forall|j: int| 0 <= j < i ==> #[trigger] predicted@[j] == future@[j],
        decreases predict_n - i,
    {
        attacker_state = collatz_next(attacker_state, key0, key1);
        predicted.push(siphash_mix(attacker_state, key0, key1));
        i += 1;
    }

    proof {
        lemma_count_equal_same(future@, predicted@, predict_n as nat);
    }
    let correct = count_matches(&future, &predicted);
    correct
}

/// Whether `candidate`, made odd, is consistent with the first future word:
/// its next state mixes to `target`.
pub open spec fn search_matches(candidate: u64, target: u64, key0: u64, key1: u64) -> bool {
    spec_siphash_mix(spec_collatz_next(candidate | 1, key0, key1), key0, key1) == target
}

/// The first candidate in `c..=end` that is consistent with `target`, made
/// odd, if there is one.
pub open spec fn first_hit(c: int, end: int, target: u64, key0: u64, key1: u64) -> Option<u64>
    decreases end + 1 - c,
{
    if c > end {
        None
    } else if search_matches(c as u64, target, key0, key1) {
        Some((c as u64) | 1)
    } else {
        first_hit(c + 1, end, target, key0, key1)
    }
}

/// How many of the words `from..to` (word `j` being the mix of the state
/// `j + 1` transitions on) agree between the trajectories from `a` and `b`.
pub open spec fn agreements(a: u64, b: u64, key0: u64, key1: u64, from: nat, to: nat) -> nat
    decreases to,
{
    if to <= from {
        0
    } else {
        agreements(a, b, key0, key1, from, (to - 1) as nat) + if spec_siphash_mix(
            collatz_iter(a, key0, key1, to),
            key0,
            key1,
        ) == spec_siphash_mix(collatz_iter(b, key0, key1, to), key0, key1) {
            1nat
        } else {
            0nat
        }
    }
}

/// At most `to - from` of the words `from..to` agree.
pub proof fn lemma_agreements_bound(a: u64, b: u64, key0: u64, key1: u64, from: nat, to: nat)
    ensures
        agreements(a, b, key0, key1, from, to) <= if to >= from {
            to - from
        } else {
            0
        },
    decreases to,
{
    if to > from {
        lemma_agreements_bound(a, b, key0, key1, from, (to - 1) as nat);
    }
}

/// The outcome of the Collatz attack that holds the key but not the state:
/// the true state `t` after `observe_n` words is searched for among the
/// candidates within `SEARCH_RADIUS` of it, in increasing order; without a
/// consistent candidate nothing is predicted, and with one the first word
/// counts as predicted and each later word counts where the trajectory of
/// the found state agrees with the true one.
pub open spec fn state_search_outcome(seed: u64, observe_n: nat, predict_n: nat) -> nat {
    let key0 = derive_key0(seed);
    let key1 = derive_key1(seed);
    let t = collatz_iter(collatz_start(seed), key0, key1, observe_n);
    let target = spec_siphash_mix(collatz_iter(t, key0, key1, 1), key0, key1);
    match first_hit(
        t.saturating_sub(SEARCH_RADIUS) as int,
        t.saturating_add(SEARCH_RADIUS) as int,
        target,
        key0,
        key1,
    ) {
        None => 0,
        Some(s) => 1 + agreements(s, t, key0, key1, 1, predict_n),
    }
}

/// The Collatz attack with the key but not the state: brute-forces the
/// state near the true one from the first future word, then predicts the
/// remaining `predict_n - 1` words from the state it found.
pub fn attack_collatz_with_state(seed: u64, observe_n: usize, predict_n: usize) -> (correct: usize)
    requires
        predict_n >= 1,
    ensures
        correct == state_search_outcome(seed, observe_n as nat, predict_n as nat),
        correct <= predict_n,
{
    let mut legit = CollatzGen::new(seed);
    let _observed = collatz_outputs(&mut legit, observe_n);
    let true_state_at_t = legit.state;
    let future = collatz_outputs(&mut legit, predict_n);

    let key0 = seed ^ KEY0_MASK;
    let key1 = rotate_left(seed, 32) ^ KEY1_MASK;
    let first_future = future[0];

    let search_start = true_state_at_t.saturating_sub(SEARCH_RADIUS);
    let search_end = true_state_at_t.saturating_add(SEARCH_RADIUS);
    let ghost hit = first_hit(search_start as int, search_end as int, first_future, key0, key1);

    let mut found_state: Option<u64> = None;
    let mut candidate = search_start;
    loop
        invariant_except_break
            search_start <= candidate <= search_end,
            found_state is None,
            hit == first_hit(candidate as int, search_end as int, first_future, key0, key1),
        ensures
            found_state == hit,
        decreases search_end - candidate,
    {
        let candidate_state = collatz_next(candidate | 1, key0, key1);
        if siphash_mix(candidate_state, key0, key1) == first_future {
            found_state = Some(candidate | 1);
            break;
        }
        if candidate == search_end {
            assert(first_hit(candidate + 1, search_end as int, first_future, key0, key1) is None);
            break;
        }
        candidate += 1;
    }

    match found_state {
        None => 0,
        Some(s) => {
            let mut attacker_state = collatz_next(s, key0, key1);
            assert(collatz_iter(s, key0, key1, 0) == s);
            let mut correct: usize = 1;
            let mut j: usize = 1;
            while j < predict_n
                invariant
                    1 <= j <= predict_n,
                    future.len() == predict_n,
                    forall|i: int|
                        0 <= i < predict_n ==> #[trigger] future@[i] == spec_siphash_mix(
                            collatz_iter(true_state_at_t, key0, key1, (i + 1) as nat),
                            key0,
                            key1,
                        ),
                    attacker_state == collatz_iter(s, key0, key1, j as nat),
                    correct == 1 + agreements(s, true_state_at_t, key0, key1, 1, j as nat),
                decreases predict_n - j,
            {
                proof {
                    lemma_agreements_bound(s, true_state_at_t, key0, key1, 1, j as nat);
                }
                attacker_state = collatz_next(attacker_state, key0, key1);
                if siphash_mix(attacker_state, key0, key1) == future[j] {
                    correct += 1;
                }
                j += 1;
            }
            proof {
                lemma_agreements_bound(s, true_state_at_t, key0, key1, 1, predict_n as nat);
            }
            correct
        },
    }
}

/// The keyed Collatz transition in integer terms: the plain step gives
/// `s = n / 2` or `s = (3n + 1) mod 2^64`; when `s` is 1, 2 or 4 the new
/// state is `((key0 + key1 + s) mod 2^64) | 1`, otherwise it is `s`.
pub proof fn lemma_collatz_next_integer(state: u64, key0: u64, key1: u64)
    ensures
        ({
            let n = state as int;
            let s = if n % 2 == 0 {
                n / 2
            } else {
                (3 * n + 1) % 0x1_0000_0000_0000_0000
            };
            if s == 1 || s == 2 || s == 4 {
                spec_collatz_next(state, key0, key1) == (((key0 + key1 + s)
                    % 0x1_0000_0000_0000_0000) as u64) | 1
            } else {
                spec_collatz_next(state, key0, key1) as int == s
            }
        }),
{
}

/// The keys come from the whole seed: the first key is the seed XOR
/// `KEY0_MASK`; the second, XORed with `KEY1_MASK`, has the seed's high 32
/// bits as its low half and the seed's low 32 bits as its high half.
pub proof fn lemma_keys_from_seed(seed: u64)
    ensures
        derive_key0(seed) ^ KEY0_MASK == seed,
        (derive_key1(seed) ^ KEY1_MASK) % 0x1_0000_0000 == seed / 0x1_0000_0000,
        (derive_key1(seed) ^ KEY1_MASK) / 0x1_0000_0000 == seed % 0x1_0000_0000,
{
    let k0 = derive_key0(seed);
    let k1 = derive_key1(seed);
    assert(k1 == ((seed << 32u64) | (seed >> 32u64)) ^ KEY1_MASK);
    assert(k0 == seed ^ KEY0_MASK ==> k0 ^ KEY0_MASK == seed) by (bit_vector);
    assert(k1 == ((seed << 32u64) | (seed >> 32u64)) ^ KEY1_MASK ==> (k1 ^ KEY1_MASK)
        % 0x1_0000_0000 == seed / 0x1_0000_0000 && (k1 ^ KEY1_MASK) / 0x1_0000_0000 == seed
        % 0x1_0000_0000) by (bit_vector);
}

/// A Collatz generator starts at the seed when it is odd and at the seed
/// plus one when it is even.
pub proof fn lemma_collatz_start(seed: u64)
    ensures
        collatz_start(seed) == seed + if seed % 2 == 0 {
            1int
        } else {
            0int
        },
{
    assert(seed % 2 == 0 ==> seed | 1 == seed + 1) by (bit_vector);
}

/// A trajectory agrees with itself at every word: the attacker that follows
/// the generator's keyed transition from the generator's own state predicts
/// all of `from..to`.
pub proof fn lemma_agreements_with_itself(a: u64, key0: u64, key1: u64, from: nat, to: nat)
    requires
        from <= to,
    ensures
        agreements(a, a, key0, key1, from, to) == to - from,
    decreases to,
{
    if to > from {
        lemma_agreements_with_itself(a, key0, key1, from, (to - 1) as nat);
    }
}

/// When the brute-force search lands on the true state itself, every one of
/// the `predict_n` words is predicted.
pub proof fn lemma_search_hitting_true_state_predicts_all(
    seed: u64,
    observe_n: nat,
    predict_n: nat,
)
    requires
        predict_n >= 1,
        ({
            let key0 = derive_key0(seed);
            let key1 = derive_key1(seed);
            let t = collatz_iter(collatz_start(seed), key0, key1, observe_n);
            let target = spec_siphash_mix(collatz_iter(t, key0, key1, 1), key0, key1);
            first_hit(
                t.saturating_sub(SEARCH_RADIUS) as int,
                t.saturating_add(SEARCH_RADIUS) as int,
                target,
                key0,
                key1,
            ) == Some(t)
        }),
    ensures
        state_search_outcome(seed, observe_n, predict_n) == predict_n,
{
    let key0 = derive_key0(seed);
    let key1 = derive_key1(seed);
    let t = collatz_iter(collatz_start(seed), key0, key1, observe_n);
    lemma_agreements_with_itself(t, key0, key1, 1, predict_n);
}

} // verus!
