//! The XXTEA variant that the Srun portal uses to encrypt the login information.
use vstd::prelude::*;
use vstd::wrapping::u32_specs::{wrapping_add, wrapping_sub};
use vstd::utf8::*;
use vstd::string::StringSliceAdditionalSpecFns;
use super::words::{
    byte_or_zero, l, le_word, lemma_pack_unpack, lemma_unpack_pack_with_len, pack_words, s, unpack_words,
    word_count,
};

verus! {

/// The key-schedule constant added to the running sum once per round.
pub const XXTEA_DELTA: u32 = 0x9e3779b9;

/// The longest plaintext, in bytes, that `xxtea_encode` takes: its word count must fit
/// in a non-negative `i32`.
pub const XXTEA_MAX_PLAINTEXT_LEN: u64 = 0x1_ffff_fffc;

/// The value that one step adds to a word, given its left neighbour `z`, its right
/// neighbour `y`, the running sum `d` and the key word `kw`.
pub open spec fn mix(z: u32, y: u32, d: u32, kw: u32) -> u32 {
    wrapping_add(
        wrapping_add((z >> 5u32) ^ (y << 2u32), ((y >> 3u32) ^ (z << 4u32)) ^ (d ^ y)),
        kw ^ z,
    )
}

/// Which of the four key words the step at position `p` uses under the running sum `d`.
pub open spec fn key_index(p: int, d: u32) -> int {
    (((p % 4) as u32) ^ ((d >> 2u32) & 3u32)) as int
}

/// One step: word `p` of `v` has the mix of its two cyclic neighbours added to it.
pub open spec fn step(v: Seq<u32>, p: int, d: u32, key: Seq<u8>) -> Seq<u32> {
    let z = if p == 0 {
        v[v.len() - 1]
    } else {
        v[p - 1]
    };
    let y = if p + 1 == v.len() {
        v[0]
    } else {
        v[p + 1]
    };
    v.update(p, wrapping_add(v[p], mix(z, y, d, le_word(key, key_index(p, d)))))
}

/// The first `count` steps of a cycle, in order from word 0.
pub open spec fn cycle_upto(v: Seq<u32>, count: nat, d: u32, key: Seq<u8>) -> Seq<u32>
    decreases count,
{
    if count == 0 {
        v
    } else {
        step(cycle_upto(v, (count - 1) as nat, d, key), count - 1, d, key)
    }
}

/// One cycle: a step at every word of `v`.
pub open spec fn cycle(v: Seq<u32>, d: u32, key: Seq<u8>) -> Seq<u32> {
    cycle_upto(v, v.len(), d, key)
}

/// `q` more cycles, each after adding the constant to the running sum `d`.
pub open spec fn rounds(v: Seq<u32>, q: nat, d: u32, key: Seq<u8>) -> Seq<u32>
    decreases q,
{
    if q == 0 {
        v
    } else {
        let d2 = wrapping_add(d, XXTEA_DELTA);
        rounds(cycle(v, d2, key), (q - 1) as nat, d2, key)
    }
}

/// The number of cycles for `n` words.
pub open spec fn round_count(n: nat) -> nat {
    6 + 52nat / n
}

/// The words `v` encrypted under the key bytes `key`.
pub open spec fn encrypt_words(v: Seq<u32>, key: Seq<u8>) -> Seq<u32> {
    rounds(v, round_count(v.len()), 0, key)
}

/// The ciphertext of `data` under `key`: the plaintext packed with its length word,
/// encrypted, and written out as bytes; nothing for an empty plaintext.
pub open spec fn xxtea_encrypt(data: Seq<u8>, key: Seq<u8>) -> Seq<u8> {
    if data.len() == 0 {
        Seq::empty()
    } else {
        unpack_words(encrypt_words(pack_words(data, true), key), false)
    }
}

/// The portal's decryption step at word `p` under the running sum `d`: the Srun mixing
/// value of its two cyclic neighbours and key word `(p mod 4) xor ((d >> 2) & 3)` is
/// subtracted from it. (Written out here on its own, so that it checks the encryption.)
pub open spec fn unstep(v: Seq<u32>, p: int, d: u32, key: Seq<u8>) -> Seq<u32> {
    let z = if p == 0 {
        v[v.len() - 1]
    } else {
        v[p - 1]
    };
    let y = if p + 1 == v.len() {
        v[0]
    } else {
        v[p + 1]
    };
    let kw = le_word(key, (((p % 4) as u32) ^ ((d >> 2u32) & 3u32)) as int);
    let m = wrapping_add(
        wrapping_add((z >> 5u32) ^ (y << 2u32), ((y >> 3u32) ^ (z << 4u32)) ^ (d ^ y)),
        kw ^ z,
    );
    v.update(p, wrapping_sub(v[p], m))
}

/// The decryption steps at words `count - 1` down to 0.
pub open spec fn uncycle_upto(v: Seq<u32>, count: nat, d: u32, key: Seq<u8>) -> Seq<u32>
    decreases count,
{
    if count == 0 {
        v
    } else {
        uncycle_upto(unstep(v, count - 1, d, key), (count - 1) as nat, d, key)
    }
}

/// `q` decryption rounds starting from the running sum `d`, each over every word from the
/// last down to the first, the sum dropping by 0x9e3779b9 (modulo 2^32) after each.
pub open spec fn unrounds(w: Seq<u32>, q: nat, d: u32, key: Seq<u8>) -> Seq<u32>
    decreases q,
{
    if q == 0 {
        w
    } else {
        unrounds(uncycle_upto(w, w.len(), d, key), (q - 1) as nat, wrapping_sub(d, 0x9e3779b9u32), key)
    }
}

/// The portal's decryption of the words `w` under `key`: 6 + 52/n rounds for n words,
/// the running sum starting at that count times 0x9e3779b9, modulo 2^32.
pub open spec fn decrypt_words(w: Seq<u32>, key: Seq<u8>) -> Seq<u32> {
    let q = 6 + 52nat / w.len();
    unrounds(w, q, ((q * 0x9e3779b9nat) % 0x1_0000_0000nat) as u32, key)
}

/// The plaintext of the ciphertext `c` under `key`: the words decrypted, and as many of
/// their bytes kept as the length word gives.
pub open spec fn xxtea_decrypt(c: Seq<u8>, key: Seq<u8>) -> Seq<u8> {
    unpack_words(decrypt_words(pack_words(c, false), key), true)
}

proof fn lemma_step_len(v: Seq<u32>, count: nat, d: u32, key: Seq<u8>)
    requires
        count <= v.len(),
    ensures
        cycle_upto(v, count, d, key).len() == v.len(),
    decreases count,
{
    if count > 0 {
        lemma_step_len(v, (count - 1) as nat, d, key);
    }
}

proof fn lemma_rounds_len(v: Seq<u32>, q: nat, d: u32, key: Seq<u8>)
    ensures
        rounds(v, q, d, key).len() == v.len(),
    decreases q,
{
    if q > 0 {
        let d2 = wrapping_add(d, XXTEA_DELTA);
        lemma_step_len(v, v.len(), d2, key);
        lemma_rounds_len(cycle(v, d2, key), (q - 1) as nat, d2, key);
    }
}

/// Encryption keeps the number of words.
pub proof fn lemma_encrypt_words_len(v: Seq<u32>, key: Seq<u8>)
    ensures
        encrypt_words(v, key).len() == v.len(),
{
    lemma_rounds_len(v, round_count(v.len()), 0, key);
}

proof fn lemma_unstep_step(v: Seq<u32>, p: int, d: u32, key: Seq<u8>)
    requires
        v.len() >= 2,
        0 <= p < v.len(),
    ensures
        unstep(step(v, p, d, key), p, d, key) == v,
{
    let w = step(v, p, d, key);
    assert(unstep(w, p, d, key) =~= v);
}

proof fn lemma_uncycle_cycle(v: Seq<u32>, count: nat, d: u32, key: Seq<u8>)
    requires
        v.len() >= 2,
        count <= v.len(),
    ensures
        uncycle_upto(cycle_upto(v, count, d, key), count, d, key) == v,
    decreases count,
{
    if count > 0 {
        let prev = cycle_upto(v, (count - 1) as nat, d, key);
        lemma_step_len(v, (count - 1) as nat, d, key);
        lemma_unstep_step(prev, count - 1, d, key);
        lemma_uncycle_cycle(v, (count - 1) as nat, d, key);
    }
}

/// The running sum after `q` more additions of the round constant to `d`.
pub open spec fn sum_after(d: u32, q: nat) -> u32
    decreases q,
{
    if q == 0 {
        d
    } else {
        wrapping_add(sum_after(d, (q - 1) as nat), XXTEA_DELTA)
    }
}

proof fn lemma_sum_after_shift(d: u32, q: nat)
    ensures
        sum_after(wrapping_add(d, XXTEA_DELTA), q) == sum_after(d, q + 1),
    decreases q,
{
    let d2 = wrapping_add(d, XXTEA_DELTA);
    assert(sum_after(d, 0) == d);
    assert(sum_after(d, 1) == d2);
    if q > 0 {
        lemma_sum_after_shift(d, (q - 1) as nat);
        assert(sum_after(d2, q) == wrapping_add(sum_after(d2, (q - 1) as nat), XXTEA_DELTA));
        assert(sum_after(d, q + 1) == wrapping_add(sum_after(d, q), XXTEA_DELTA));
    }
}

proof fn lemma_sum_after_closed(q: nat)
    ensures
        sum_after(0, q) == ((q * 0x9e3779b9nat) % 0x1_0000_0000nat) as u32,
    decreases q,
{
    if q > 0 {
        lemma_sum_after_closed((q - 1) as nat);
        let qm = (q - 1) as nat;
        let prev = (qm * 0x9e3779b9nat) % 0x1_0000_0000nat;
        vstd::arithmetic::div_mod::lemma_add_mod_noop(
            (qm * 0x9e3779b9nat) as int,
            0x9e3779b9int,
            0x1_0000_0000int,
        );
        assert(qm * 0x9e3779b9nat + 0x9e3779b9nat == q * 0x9e3779b9nat) by (nonlinear_arith)
            requires
                qm + 1 == q,
        ;
        vstd::arithmetic::div_mod::lemma_small_mod(0x9e3779b9nat, 0x1_0000_0000nat);
        if prev + 0x9e3779b9nat >= 0x1_0000_0000nat {
            vstd::arithmetic::div_mod::lemma_mod_add_multiples_vanish(
                (prev + 0x9e3779b9nat - 0x1_0000_0000nat) as int,
                0x1_0000_0000int,
            );
            vstd::arithmetic::div_mod::lemma_small_mod(
                (prev + 0x9e3779b9nat - 0x1_0000_0000nat) as nat,
                0x1_0000_0000nat,
            );
        } else {
            vstd::arithmetic::div_mod::lemma_small_mod(
                (prev + 0x9e3779b9nat) as nat,
                0x1_0000_0000nat,
            );
        }
    }
}

proof fn lemma_rounds_peel(v: Seq<u32>, q: nat, d: u32, key: Seq<u8>)
    ensures
        rounds(v, q + 1, d, key) == cycle(rounds(v, q, d, key), sum_after(d, q + 1), key),
    decreases q,
{
    let d2 = wrapping_add(d, XXTEA_DELTA);
    assert(sum_after(d, 0) == d);
    assert(sum_after(d, 1) == d2);
    if q > 0 {
        lemma_rounds_peel(cycle(v, d2, key), (q - 1) as nat, d2, key);
        lemma_sum_after_shift(d, q);
        assert(rounds(v, q, d, key) == rounds(cycle(v, d2, key), (q - 1) as nat, d2, key));
        assert(rounds(v, q + 1, d, key) == rounds(cycle(v, d2, key), q, d2, key));
    } else {
        assert(rounds(v, 1, d, key) == rounds(cycle(v, d2, key), 0, d2, key));
    }
}

proof fn lemma_unrounds_rounds(v: Seq<u32>, q: nat, key: Seq<u8>)
    requires
        v.len() >= 2,
    ensures
        unrounds(rounds(v, q, 0, key), q, sum_after(0, q), key) == v,
    decreases q,
{
    if q > 0 {
        let r = rounds(v, (q - 1) as nat, 0, key);
        let s = sum_after(0, q);
        lemma_rounds_peel(v, (q - 1) as nat, 0, key);
        lemma_rounds_len(v, (q - 1) as nat, 0, key);
        lemma_step_len(r, r.len(), s, key);
        lemma_uncycle_cycle(r, r.len(), s, key);
        assert(wrapping_sub(s, 0x9e3779b9u32) == sum_after(0, (q - 1) as nat));
        lemma_unrounds_rounds(v, (q - 1) as nat, key);
    }
}

/// The portal's decryption (6 + 52/n rounds for n words, the sum starting at that count
/// times 0x9e3779b9) gives back any at least two words encrypted under the same key.
pub proof fn lemma_decrypt_encrypt_words(v: Seq<u32>, key: Seq<u8>)
    requires
        v.len() >= 2,
    ensures
        decrypt_words(encrypt_words(v, key), key) == v,
{
    let q = round_count(v.len());
    lemma_encrypt_words_len(v, key);
    lemma_unrounds_rounds(v, q, key);
    lemma_sum_after_closed(q);
}

/// The ciphertext of a non-empty plaintext holds four bytes per word of the plaintext,
/// plus four for its length word; an empty plaintext has an empty ciphertext.
pub proof fn lemma_xxtea_encrypt_len(data: Seq<u8>, key: Seq<u8>)
    ensures
        xxtea_encrypt(data, key).len() == if data.len() == 0 {
            0
        } else {
            4 * (word_count(data.len()) + 1)
        },
{
    if data.len() > 0 {
        lemma_encrypt_words_len(pack_words(data, true), key);
    }
}

/// Decrypting a ciphertext under the key it was made with gives the plaintext back, for
/// every plaintext whose length fits in the length word.
pub proof fn lemma_decrypt_encrypt(data: Seq<u8>, key: Seq<u8>)
    requires
        0 < data.len() <= u32::MAX,
    ensures
        xxtea_decrypt(xxtea_encrypt(data, key), key) == data,
{
    let v = pack_words(data, true);
    let w = encrypt_words(v, key);
    lemma_pack_unpack(w);
    lemma_decrypt_encrypt_words(v, key);
    lemma_unpack_pack_with_len(data);
}

/// Under one key, two plaintexts whose lengths fit in the length word have the same
/// ciphertext only when they are equal.
pub proof fn lemma_xxtea_encrypt_injective(d1: Seq<u8>, d2: Seq<u8>, key: Seq<u8>)
    requires
        d1.len() <= u32::MAX,
        d2.len() <= u32::MAX,
        xxtea_encrypt(d1, key) == xxtea_encrypt(d2, key),
    ensures
        d1 == d2,
{
    lemma_xxtea_encrypt_len(d1, key);
    lemma_xxtea_encrypt_len(d2, key);
    if d1.len() > 0 && d2.len() > 0 {
        lemma_decrypt_encrypt(d1, key);
        lemma_decrypt_encrypt(d2, key);
    } else {
        assert(d1.len() == 0 && d2.len() == 0);
        assert(d1 =~= d2);
    }
}

proof fn lemma_key_index_below_four(p: int, d: u32)
    requires
        p >= 0,
    ensures
        0 <= key_index(p, d) < 4,
{
    let e = (d >> 2u32) & 3u32;
    assert(e < 4) by (bit_vector)
        requires
            e == (d >> 2u32) & 3u32,
    ;
    lemma_xor_below_four((p % 4) as u32, e);
}

proof fn lemma_cycle_key_prefix(v: Seq<u32>, count: nat, d: u32, k1: Seq<u8>, k2: Seq<u8>)
    requires
        count <= v.len(),
        forall|i: int| 0 <= i < 16 ==> byte_or_zero(k1, i) == byte_or_zero(k2, i),
    ensures
        cycle_upto(v, count, d, k1) == cycle_upto(v, count, d, k2),
    decreases count,
{
    if count > 0 {
        lemma_cycle_key_prefix(v, (count - 1) as nat, d, k1, k2);
        let j = key_index(count - 1, d);
        lemma_key_index_below_four(count - 1, d);
        assert(le_word(k1, j) == le_word(k2, j)) by {
            assert(byte_or_zero(k1, 4 * j) == byte_or_zero(k2, 4 * j));
            assert(byte_or_zero(k1, 4 * j + 1) == byte_or_zero(k2, 4 * j + 1));
            assert(byte_or_zero(k1, 4 * j + 2) == byte_or_zero(k2, 4 * j + 2));
            assert(byte_or_zero(k1, 4 * j + 3) == byte_or_zero(k2, 4 * j + 3));
        }
    }
}

proof fn lemma_rounds_key_prefix(v: Seq<u32>, q: nat, d: u32, k1: Seq<u8>, k2: Seq<u8>)
    requires
        forall|i: int| 0 <= i < 16 ==> byte_or_zero(k1, i) == byte_or_zero(k2, i),
    ensures
        rounds(v, q, d, k1) == rounds(v, q, d, k2),
    decreases q,
{
    if q > 0 {
        let d2 = wrapping_add(d, XXTEA_DELTA);
        lemma_cycle_key_prefix(v, v.len(), d2, k1, k2);
        lemma_rounds_key_prefix(cycle(v, d2, k1), (q - 1) as nat, d2, k1, k2);
    }
}

/// Only the first sixteen key bytes count: two keys that agree on them, reading bytes
/// past a key's end as zero, give every plaintext the same ciphertext.
pub proof fn lemma_xxtea_key_prefix(data: Seq<u8>, k1: Seq<u8>, k2: Seq<u8>)
    requires
        forall|i: int| 0 <= i < 16 ==> byte_or_zero(k1, i) == byte_or_zero(k2, i),
    ensures
        xxtea_encrypt(data, k1) == xxtea_encrypt(data, k2),
{
    let v = pack_words(data, true);
    lemma_rounds_key_prefix(v, round_count(v.len()), 0, k1, k2);
}

/// A string is empty exactly when its UTF-8 encoding is.
pub proof fn lemma_encode_utf8_empty(chars: Seq<char>)
    ensures
        (encode_utf8(chars).len() == 0) == (chars.len() == 0),
{
    if chars.len() > 0 {
        assert(encode_scalar(chars[0] as u32).len() >= 1);
    }
}

proof fn lemma_xor_below_four(a: u32, b: u32)
    requires
        a < 4,
        b < 4,
    ensures
        a ^ b < 4,
{
    assert(a < 4 && b < 4 ==> a ^ b < 4) by (bit_vector);
}

/// Encrypts `data` under `key` with the Srun XXTEA variant and returns the ciphertext
/// bytes; an empty `data` gives an empty result.
pub fn xxtea_encode(data: &str, key: &str) -> (res: Vec<u8>)
    requires
        data.spec_bytes().len() <= XXTEA_MAX_PLAINTEXT_LEN,
        data.spec_bytes().len() + 7 <= usize::MAX,
    ensures
        res@ == xxtea_encrypt(data.spec_bytes(), key.spec_bytes()),
        res@.len() == if data@.len() == 0 {
            0
        } else {
            4 * (word_count(data.spec_bytes().len()) + 1)
        },
{
    proof {
        lemma_encode_utf8_empty(data@);
        lemma_xxtea_encrypt_len(data.spec_bytes(), key.spec_bytes());
    }
    if data.is_empty() {
        return Vec::new();
    }
    let mut v = s(data.as_bytes(), true);
    let mut k = s(key.as_bytes(), false);
    let ghost kb = key.spec_bytes();
    while k.len() < 4
        invariant
            forall|i: int| 0 <= i < k@.len() ==> k@[i] == le_word(kb, i),
            4 * k@.len() >= kb.len(),
        decreases 4 - k.len(),
    {
        assert(le_word(kb, k@.len() as int) == 0);
        k.push(0);
    }
    let nn = v.len();
    let n = nn - 1;
    let mut z = v[n];
    let mut d: u32 = 0;
    let mut q: u32 = 6 + 52 / (nn as u32);
    let ghost v0 = v@;
    while q > 0
        invariant
            v@.len() == nn,
            2 <= nn <= 0x8000_0000,
            n == nn - 1,
            k@.len() >= 4,
            forall|i: int| 0 <= i < 4 ==> k@[i] == le_word(kb, i),
            z == v@[n as int],
            encrypt_words(v0, kb) == rounds(v@, q as nat, d, kb),
        decreases q,
    {
        d = d.wrapping_add(XXTEA_DELTA);
        let e = (d >> 2u32) & 3u32;
        let ghost vs = v@;
        let mut p: usize = 0;
        while p < nn
            invariant
                v@.len() == nn,
                vs.len() == nn,
                2 <= nn <= 0x8000_0000,
                n == nn - 1,
                p <= nn,
                e == (d >> 2u32) & 3u32,
                k@.len() >= 4,
                forall|i: int| 0 <= i < 4 ==> k@[i] == le_word(kb, i),
                v@ == cycle_upto(vs, p as nat, d, kb),
                z == if p == 0 {
                    v@[n as int]
                } else {
                    v@[p - 1]
                },
            decreases nn - p,
        {
            let y = if p + 1 == nn {
                v[0]
            } else {
                v[p + 1]
            };
            assert(e < 4) by (bit_vector)
                requires
                    e == (d >> 2u32) & 3u32,
            ;
            proof {
                lemma_xor_below_four((p % 4) as u32, e);
            }
            let ki = (((p % 4) as u32) ^ e) as usize;
            let m = ((z >> 5u32) ^ (y << 2u32)).wrapping_add(((y >> 3u32) ^ (z << 4u32)) ^ (d ^ y)).wrapping_add(k[ki] ^ z);
            let nv = v[p].wrapping_add(m);
            v.set(p, nv);
            z = nv;
            p += 1;
        }
        q -= 1;
    }
    l(&v, false)
}

} // verus!
