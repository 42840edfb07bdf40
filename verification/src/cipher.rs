//! The Lambda-Shield stream cipher.
//!
//! The cipher state is a 128-bit Collatz trajectory value `n`, four 64-bit
//! mixer words and a byte counter.  For every input byte the trajectory is
//! advanced eight steps, its low word and the counter are injected into the
//! last mixer word, one SipHash round is applied, and the low byte of the
//! XOR of the four words is the keystream byte.

use vstd::prelude::*;
use crate::bits::{rotl, rotate_left};

verus! {

/// Mixer initialisation constants, XORed with the seed words.
pub const INIT_V0: u64 = 0x736f6d6570736575;
pub const INIT_V1: u64 = 0x646f72616e646f6d;
pub const INIT_V2: u64 = 0x6c7967656e657261;
pub const INIT_V3: u64 = 0x7465646279746573;

/// The value the trajectory jumps to when it would fall to 0 or 1.
pub const COLLATZ_RESEED: u128 = 0xdeadbeef1337cafe;

/// Number of Collatz steps taken per keystream byte.
pub const STEPS_PER_BYTE: u32 = 8;

/// One SipHash round on the words `(v0, v1, v2, v3)`.
pub open spec fn spec_sip_round(v: (u64, u64, u64, u64)) -> (u64, u64, u64, u64) {
    let v0 = v.0.wrapping_add(v.1);
    let v2 = v.2.wrapping_add(v.3);
    let v1 = rotl(v.1, 13) ^ v0;
    let v3 = rotl(v.3, 16) ^ v2;
    let v0 = rotl(v0, 32);
    let v2 = v2.wrapping_add(v1);
    let v0 = v0.wrapping_add(v3);
    let v1 = rotl(v1, 17) ^ v2;
    let v3 = rotl(v3, 21) ^ v0;
    let v2 = rotl(v2, 32);
    (v0, v1, v2, v3)
}

/// One hardened Collatz step: halve an even value, map an odd one to
/// `3n + 1` (modulo 2^128); a result of 0 or 1 is replaced by
/// `COLLATZ_RESEED`, and a result above `u64::MAX` is folded back to
/// `r % u64::MAX + 7`.
pub open spec fn spec_collatz_step(n: u128) -> u128 {
    let m = if n % 2 == 0 {
        n / 2
    } else {
        n.wrapping_mul(3).wrapping_add(1)
    };
    let m = if m <= 1 {
        COLLATZ_RESEED
    } else {
        m
    };
    if m > u64::MAX as u128 {
        ((m % (u64::MAX as u128)) + 7) as u128
    } else {
        m
    }
}

/// `k` hardened Collatz steps from `n`.
pub open spec fn collatz_advance(n: u128, k: nat) -> u128
    decreases k,
{
    if k == 0 {
        n
    } else {
        spec_collatz_step(collatz_advance(n, (k - 1) as nat))
    }
}

/// The full state of the cipher between two bytes.
#[derive(Clone, Copy, PartialEq, Eq, Structural)]
pub struct CipherState {
    pub n: u128,
    pub v0: u64,
    pub v1: u64,
    pub v2: u64,
    pub v3: u64,
    pub counter: u64,
}

/// The state before the first byte: the trajectory starts at
/// `seed_hi * 2^64 + seed_lo` and the mixer words are the seed words
/// XORed with the initialisation constants.
pub open spec fn initial_state(seed_hi: u64, seed_lo: u64) -> CipherState {
    CipherState {
        n: ((seed_hi as u128) << 64u128) | (seed_lo as u128),
        v0: seed_hi ^ INIT_V0,
        v1: seed_lo ^ INIT_V1,
        v2: seed_hi ^ INIT_V2,
        v3: seed_lo ^ INIT_V3,
        counter: 0,
    }
}

/// The state after one more byte.
pub open spec fn next_state(s: CipherState) -> CipherState {
    let n = collatz_advance(s.n, STEPS_PER_BYTE as nat);
    let r = spec_sip_round((s.v0, s.v1, s.v2, s.v3 ^ ((n as u64) ^ s.counter)));
    CipherState { n, v0: r.0, v1: r.1, v2: r.2, v3: r.3, counter: s.counter.wrapping_add(1) }
}

/// The state after `i` bytes.
pub open spec fn state_at(seed_hi: u64, seed_lo: u64, i: nat) -> CipherState
    decreases i,
{
    if i == 0 {
        initial_state(seed_hi, seed_lo)
    } else {
        next_state(state_at(seed_hi, seed_lo, (i - 1) as nat))
    }
}

/// The byte a state hands out: the low byte of the XOR of its mixer words.
pub open spec fn output_byte(s: CipherState) -> u8 {
    (s.v0 ^ s.v1 ^ s.v2 ^ s.v3) as u8
}

/// The keystream byte at position `i`.
pub open spec fn keystream_byte(seed_hi: u64, seed_lo: u64, i: nat) -> u8 {
    output_byte(state_at(seed_hi, seed_lo, i + 1))
}

/// The first `len` keystream bytes.
pub open spec fn keystream(seed_hi: u64, seed_lo: u64, len: nat) -> Seq<u8> {
    Seq::new(len, |i: int| keystream_byte(seed_hi, seed_lo, i as nat))
}

/// Encryption (and decryption): each byte XORed with the keystream byte at
/// its position.
pub open spec fn encrypt(data: Seq<u8>, seed_hi: u64, seed_lo: u64) -> Seq<u8> {
    Seq::new(data.len(), |i: int| data[i] ^ keystream_byte(seed_hi, seed_lo, i as nat))
}

/// One SipHash round.
pub fn sip_round(v0: u64, v1: u64, v2: u64, v3: u64) -> (r: (u64, u64, u64, u64))
    ensures
        r == spec_sip_round((v0, v1, v2, v3)),
{
    let mut v0 = v0;
    let mut v1 = v1;
    let mut v2 = v2;
    let mut v3 = v3;
    v0 = v0.wrapping_add(v1);
    v2 = v2.wrapping_add(v3);
    v1 = rotate_left(v1, 13);
    v3 = rotate_left(v3, 16);
    v1 ^= v0;
    v3 ^= v2;
    v0 = rotate_left(v0, 32);
    v2 = v2.wrapping_add(v1);
    v0 = v0.wrapping_add(v3);
    v1 = rotate_left(v1, 17);
    v3 = rotate_left(v3, 21);
    v1 ^= v2;
    v3 ^= v0;
    v2 = rotate_left(v2, 32);
    (v0, v1, v2, v3)
}

/// The result of a hardened Collatz step never lies in the trivial cycle
/// (it is at least 2) and stays below `u64::MAX + 7`.
pub proof fn lemma_collatz_step_bounds(n: u128)
    ensures
        2 <= spec_collatz_step(n) <= u64::MAX as int + 6,
{
}

/// One hardened Collatz step.
pub fn collatz_step(n: u128) -> (r: u128)
    ensures
        r == spec_collatz_step(n),
        2 <= r <= u64::MAX as int + 6,
{
    let mut n = n;
    if n % 2 == 0 {
        n /= 2;
    } else {
        n = n.wrapping_mul(3).wrapping_add(1);
    }
    if n <= 1 {
        n = COLLATZ_RESEED;
    }
    if n > (u64::MAX as u128) {
        n = (n % (u64::MAX as u128)) + 7;
    }
    n
}

/// Encrypts (or, applied again with the same seeds, decrypts) `data`: byte
/// `i` of the result is `data[i]` XORed with keystream byte `i` of the seeds.
pub fn lambda_process(data: &[u8], seed_hi: u64, seed_lo: u64) -> (result: Vec<u8>)
    ensures
        result@ == encrypt(data@, seed_hi, seed_lo),
{
    let mut n: u128 = ((seed_hi as u128) << 64u128) | (seed_lo as u128);
    let mut v0: u64 = seed_hi ^ INIT_V0;
    let mut v1: u64 = seed_lo ^ INIT_V1;
    let mut v2: u64 = seed_hi ^ INIT_V2;
    let mut v3: u64 = seed_lo ^ INIT_V3;

    let mut result: Vec<u8> = Vec::with_capacity(data.len());
    let mut counter: u64 = 0;

    let mut idx: usize = 0;
    while idx < data.len()
        invariant
            idx <= data.len(),
            (CipherState { n, v0, v1, v2, v3, counter }) == state_at(seed_hi, seed_lo, idx as nat),
            result@.len() == idx,
            forall|j: int|
                0 <= j < idx ==> result@[j] == data@[j] ^ keystream_byte(seed_hi, seed_lo, j as nat),
        decreases data.len() - idx,
    {
        let byte = data[idx];
        let ghost n_before = n;
        let mut step: u32 = 0;
        while step < STEPS_PER_BYTE
            invariant
                step <= STEPS_PER_BYTE,
                n == collatz_advance(n_before, step as nat),
            decreases STEPS_PER_BYTE - step,
        {
            n = collatz_step(n);
            step += 1;
        }

        v3 ^= n as u64 ^ counter;
        let (r0, r1, r2, r3) = sip_round(v0, v1, v2, v3);
        v0 = r0;
        v1 = r1;
        v2 = r2;
        v3 = r3;

        let keystream_byte = (v0 ^ v1 ^ v2 ^ v3) as u8;
        result.push(byte ^ keystream_byte);
        counter = counter.wrapping_add(1);
        idx += 1;
    }
    proof {
        assert(result@ =~= encrypt(data@, seed_hi, seed_lo));
    }
    result
}

/// The first `len` keystream bytes of the seeds (the encryption of `len`
/// zero bytes).
pub fn lambda_keystream(len: usize, seed_hi: u64, seed_lo: u64) -> (result: Vec<u8>)
    ensures
        result@ == keystream(seed_hi, seed_lo, len as nat),
{
    let dummy = vec![0u8; len];
    let result = lambda_process(&dummy, seed_hi, seed_lo);
    proof {
        assert forall|i: int| 0 <= i < len implies result@[i] == keystream_byte(
            seed_hi,
            seed_lo,
            i as nat,
        ) by {
            let k = keystream_byte(seed_hi, seed_lo, i as nat);
            assert(dummy@[i] == 0u8);
            assert(0u8 ^ k == k) by (bit_vector);
        }
        assert(result@ =~= keystream(seed_hi, seed_lo, len as nat));
    }
    result
}

/// Processing twice with the same seeds gives the data back: decryption is
/// the same operation as encryption.
pub proof fn lemma_process_involution(data: Seq<u8>, seed_hi: u64, seed_lo: u64)
    ensures
        encrypt(encrypt(data, seed_hi, seed_lo), seed_hi, seed_lo) == data,
{
    let once = encrypt(data, seed_hi, seed_lo);
    let twice = encrypt(once, seed_hi, seed_lo);
    assert forall|i: int| 0 <= i < data.len() implies twice[i] == data[i] by {
        let k = keystream_byte(seed_hi, seed_lo, i as nat);
        let d = data[i];
        assert((d ^ k) ^ k == d) by (bit_vector);
    }
    assert(twice =~= data);
}

/// The keystream is the encryption of zero bytes, and encrypting data XORs
/// it with the keystream of its own length.
pub proof fn lemma_process_is_keystream_xor(data: Seq<u8>, seed_hi: u64, seed_lo: u64)
    ensures
        keystream(seed_hi, seed_lo, data.len()) == encrypt(
            Seq::new(data.len(), |i: int| 0u8),
            seed_hi,
            seed_lo,
        ),
        forall|i: int|
            0 <= i < data.len() ==> #[trigger] encrypt(data, seed_hi, seed_lo)[i] == data[i]
                ^ keystream(seed_hi, seed_lo, data.len())[i],
{
    let zeros = Seq::new(data.len(), |i: int| 0u8);
    let ks = keystream(seed_hi, seed_lo, data.len());
    let ez = encrypt(zeros, seed_hi, seed_lo);
    assert forall|i: int| 0 <= i < data.len() implies ks[i] == ez[i] by {
        let k = keystream_byte(seed_hi, seed_lo, i as nat);
        assert(0u8 ^ k == k) by (bit_vector);
    }
    assert(ks =~= ez);
}

/// A keystream is a prefix of every longer keystream of the same seeds:
/// the byte at a position does not depend on how many bytes are asked for.
pub proof fn lemma_keystream_prefix(seed_hi: u64, seed_lo: u64, short: nat, long: nat)
    requires
        short <= long,
    ensures
        keystream(seed_hi, seed_lo, long).take(short as int) == keystream(seed_hi, seed_lo, short),
{
    assert(keystream(seed_hi, seed_lo, long).take(short as int) =~= keystream(
        seed_hi,
        seed_lo,
        short,
    ));
}

/// Encrypting a prefix of the data gives the same prefix of the ciphertext:
/// each byte is encrypted independently of the bytes after it.
pub proof fn lemma_encrypt_prefix(data: Seq<u8>, seed_hi: u64, seed_lo: u64, len: int)
    requires
        0 <= len <= data.len(),
    ensures
        encrypt(data, seed_hi, seed_lo).take(len) == encrypt(data.take(len), seed_hi, seed_lo),
{
    assert(encrypt(data, seed_hi, seed_lo).take(len) =~= encrypt(data.take(len), seed_hi, seed_lo));
}

/// Two messages of one length encrypted under the same seeds: the XOR of
/// the ciphertexts is the XOR of the plaintexts, whatever the seeds.
pub proof fn lemma_seed_reuse_leaks_xor(a: Seq<u8>, b: Seq<u8>, seed_hi: u64, seed_lo: u64)
    requires
        a.len() == b.len(),
    ensures
        forall|i: int|
            0 <= i < a.len() ==> #[trigger] encrypt(a, seed_hi, seed_lo)[i] ^ encrypt(
                b,
                seed_hi,
                seed_lo,
            )[i] == a[i] ^ b[i],
{
    assert forall|i: int| 0 <= i < a.len() implies #[trigger] encrypt(a, seed_hi, seed_lo)[i]
        ^ encrypt(b, seed_hi, seed_lo)[i] == a[i] ^ b[i] by {
        let k = keystream_byte(seed_hi, seed_lo, i as nat);
        let x = a[i];
        let y = b[i];
        assert((x ^ k) ^ (y ^ k) == x ^ y) by (bit_vector);
    }
}

/// After the first byte the trajectory value never lies in the trivial
/// cycle (it is at least 2) and stays below `u64::MAX + 7`.
pub proof fn lemma_trajectory_bounds(seed_hi: u64, seed_lo: u64, i: nat)
    requires
        i >= 1,
    ensures
        2 <= state_at(seed_hi, seed_lo, i).n <= u64::MAX as int + 6,
{
    let prev = state_at(seed_hi, seed_lo, (i - 1) as nat).n;
    assert(collatz_advance(prev, 8) == spec_collatz_step(collatz_advance(prev, 7)));
    lemma_collatz_step_bounds(collatz_advance(prev, 7));
}

/// The counter injected before byte `i` is `i` itself (for the first 2^64
/// bytes).
pub proof fn lemma_counter_is_position(seed_hi: u64, seed_lo: u64, i: nat)
    requires
        i <= u64::MAX,
    ensures
        state_at(seed_hi, seed_lo, i).counter == i,
    decreases i,
{
    if i > 0 {
        lemma_counter_is_position(seed_hi, seed_lo, (i - 1) as nat);
    }
}

/// Before byte `i` the last mixer word is XORed with the low 64 bits of the
/// trajectory value (after its eight steps) and with the position `i`
/// itself, all 64 bits of it (for the first 2^64 bytes); the round then
/// gives the next mixer words.
pub proof fn lemma_position_injected(seed_hi: u64, seed_lo: u64, i: nat)
    requires
        i <= u64::MAX,
    ensures
        ({
            let s = state_at(seed_hi, seed_lo, i);
            let n = collatz_advance(s.n, 8);
            let injected = ((n % 0x1_0000_0000_0000_0000) as u64) ^ (i as u64);
            let r = spec_sip_round((s.v0, s.v1, s.v2, s.v3 ^ injected));
            let t = state_at(seed_hi, seed_lo, i + 1);
            &&& t.n == n
            &&& t.v0 == r.0
            &&& t.v1 == r.1
            &&& t.v2 == r.2
            &&& t.v3 == r.3
        }),
{
    lemma_counter_is_position(seed_hi, seed_lo, i);
    let s = state_at(seed_hi, seed_lo, i);
    let n = collatz_advance(s.n, 8);
    assert(n as u64 == (n % 0x1_0000_0000_0000_0000) as u64) by (bit_vector);
    assert(state_at(seed_hi, seed_lo, i + 1) == next_state(s));
}

/// The trajectory starts at `seed_hi * 2^64 + seed_lo`.
pub proof fn lemma_initial_trajectory(seed_hi: u64, seed_lo: u64)
    ensures
        initial_state(seed_hi, seed_lo).n == seed_hi * 0x1_0000_0000_0000_0000 + seed_lo,
{
    let hi = seed_hi as u128;
    let lo = seed_lo as u128;
    assert(hi < 0x1_0000_0000_0000_0000 && lo < 0x1_0000_0000_0000_0000 ==> (hi << 64u128) | lo
        == hi * 0x1_0000_0000_0000_0000 + lo) by (bit_vector);
}

/// A hardened Collatz step in integer terms: `n / 2` or `3n + 1` modulo
/// 2^128; 0 and 1 become 0xdeadbeef1337cafe; a value above 2^64 - 1 becomes
/// its remainder modulo 2^64 - 1, plus 7.
pub proof fn lemma_collatz_step_integer(n: u128)
    ensures
        ({
            let x = n as int;
            let m = if x % 2 == 0 {
                x / 2
            } else {
                (3 * x + 1) % (u128::MAX + 1)
            };
            let m = if m <= 1 {
                0xdeadbeef1337cafe
            } else {
                m
            };
            spec_collatz_step(n) as int == if m > 0xffff_ffff_ffff_ffff {
                m % 0xffff_ffff_ffff_ffff + 7
            } else {
                m
            }
        }),
{
}

/// The keystream byte at position `i` is the low eight bits of the XOR of
/// the four mixer words after byte `i`.
pub proof fn lemma_keystream_byte_low_bits(seed_hi: u64, seed_lo: u64, i: nat)
    ensures
        ({
            let t = state_at(seed_hi, seed_lo, i + 1);
            keystream_byte(seed_hi, seed_lo, i) as int == (t.v0 ^ t.v1 ^ t.v2 ^ t.v3) % 256
        }),
{
    let t = state_at(seed_hi, seed_lo, i + 1);
    let x = t.v0 ^ t.v1 ^ t.v2 ^ t.v3;
    assert((x as u8) as u64 == x % 256) by (bit_vector);
}

} // verus!
