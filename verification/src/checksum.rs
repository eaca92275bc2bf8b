//! 8-bit CRC (polynomial 0x07, zero initial value) that gates frame
//! integrity, together with the proof that any change to a single byte of
//! the checked bytes changes the checksum.
use vstd::prelude::*;

verus! {

/// One shift-and-reduce round of the CRC register.
pub open spec fn crc8_round(acc: u8) -> u8 {
    if acc & 0x80 == 0x80 {
        (acc << 1) ^ 0x07
    } else {
        acc << 1
    }
}

/// `n` rounds of the CRC register.
pub open spec fn crc8_rounds(acc: u8, n: nat) -> u8
    decreases n,
{
    if n == 0 {
        acc
    } else {
        crc8_rounds(crc8_round(acc), (n - 1) as nat)
    }
}

/// Folding one byte into the CRC register: xor it in, then eight rounds.
pub open spec fn crc8_byte(acc: u8, b: u8) -> u8 {
    crc8_rounds(acc ^ b, 8)
}

/// CRC register after folding every byte of `s` into `acc`, left to right.
pub open spec fn crc8_acc(acc: u8, s: Seq<u8>) -> u8
    decreases s.len(),
{
    if s.len() == 0 {
        acc
    } else {
        crc8_acc(crc8_byte(acc, s[0]), s.skip(1))
    }
}

/// The checksum of a byte sequence.
pub open spec fn crc8_spec(s: Seq<u8>) -> u8 {
    crc8_acc(0, s)
}

/// Computes the checksum of `data`.
#[verifier::loop_isolation(false)]
pub fn crc8(data: &[u8]) -> (r: u8)
    ensures
        r == crc8_spec(data@),
{
    let mut acc: u8 = 0;
    let mut i: usize = 0;
    proof {
        assert(data@.skip(0) =~= data@);
    }
    while i < data.len()
        invariant
            i <= data@.len(),
            crc8_acc(acc, data@.skip(i as int)) == crc8_spec(data@),
        decreases data@.len() - i,
    {
        let ghost acc0 = acc;
        let b = data[i];
        let mut a: u8 = acc ^ b;
        let mut k: usize = 0;
        while k < 8
            invariant
                k <= 8,
                crc8_rounds(a, (8 - k) as nat) == crc8_byte(acc0, b),
            decreases 8 - k,
        {
            a = if a & 0x80 == 0x80 {
                (a << 1u8) ^ 0x07
            } else {
                a << 1u8
            };
            k = k + 1;
        }
        proof {
            assert(data@.skip(i as int).skip(1) =~= data@.skip(i + 1));
            assert(crc8_acc(acc0, data@.skip(i as int))
                == crc8_acc(crc8_byte(acc0, b), data@.skip(i + 1)));
        }
        acc = a;
        i = i + 1;
    }
    acc
}

/// True exactly when `expected` is the checksum of `data`.
pub fn crc8_check(data: &[u8], expected: u8) -> (r: bool)
    ensures
        r == (crc8_spec(data@) == expected),
{
    crc8(data) == expected
}

proof fn lemma_round_injective(a1: u8, a2: u8)
    requires
        crc8_round(a1) == crc8_round(a2),
    ensures
        a1 == a2,
{
    assert((if a1 & 0x80 == 0x80 { (a1 << 1) ^ 0x07 } else { a1 << 1 })
        == (if a2 & 0x80 == 0x80 { (a2 << 1) ^ 0x07 } else { a2 << 1 }) ==> a1 == a2)
        by (bit_vector);
}

proof fn lemma_rounds_injective(a1: u8, a2: u8, n: nat)
    requires
        crc8_rounds(a1, n) == crc8_rounds(a2, n),
    ensures
        a1 == a2,
    decreases n,
{
    if n > 0 {
        lemma_rounds_injective(crc8_round(a1), crc8_round(a2), (n - 1) as nat);
        lemma_round_injective(a1, a2);
    }
}

proof fn lemma_byte_injective(a1: u8, a2: u8, b: u8)
    requires
        crc8_byte(a1, b) == crc8_byte(a2, b),
    ensures
        a1 == a2,
{
    lemma_rounds_injective(a1 ^ b, a2 ^ b, 8);
    assert((a1 ^ b) == (a2 ^ b) ==> a1 == a2) by (bit_vector);
}

proof fn lemma_acc_injective(a1: u8, a2: u8, s: Seq<u8>)
    requires
        a1 != a2,
    ensures
        crc8_acc(a1, s) != crc8_acc(a2, s),
    decreases s.len(),
{
    if s.len() > 0 {
        if crc8_byte(a1, s[0]) == crc8_byte(a2, s[0]) {
            lemma_byte_injective(a1, a2, s[0]);
        }
        lemma_acc_injective(crc8_byte(a1, s[0]), crc8_byte(a2, s[0]), s.skip(1));
    }
}

proof fn lemma_acc_update(acc: u8, s: Seq<u8>, j: int, x: u8)
    requires
        0 <= j < s.len(),
        x != s[j],
    ensures
        crc8_acc(acc, s.update(j, x)) != crc8_acc(acc, s),
    decreases j,
{
    let t = s.update(j, x);
    if j == 0 {
        assert(t.skip(1) =~= s.skip(1));
        if crc8_byte(acc, x) == crc8_byte(acc, s[0]) {
            let s0 = s[0];
            lemma_rounds_injective(acc ^ x, acc ^ s0, 8);
            assert((acc ^ x) == (acc ^ s0) ==> x == s0) by (bit_vector);
        }
        lemma_acc_injective(crc8_byte(acc, x), crc8_byte(acc, s[0]), s.skip(1));
    } else {
        assert(t.skip(1) =~= s.skip(1).update(j - 1, x));
        lemma_acc_update(crc8_byte(acc, s[0]), s.skip(1), j - 1, x);
    }
}

/// Law: corrupting one byte of a checked sequence — in particular flipping
/// any single bit, i.e. xor-ing a nonzero mask into one byte — always
/// changes the checksum, so `crc8_check` against the original checksum
/// rejects the corrupted bytes.
pub proof fn lemma_crc8_bit_flip(s: Seq<u8>, j: int, mask: u8)
    requires
        0 <= j < s.len(),
        mask != 0,
    ensures
        crc8_spec(s.update(j, s[j] ^ mask)) != crc8_spec(s),
{
    let sj = s[j];
    let x = sj ^ mask;
    assert(mask != 0 ==> (sj ^ mask) != sj) by (bit_vector);
    lemma_acc_update(0, s, j, x);
}

} // verus!
