//! Unsigned 256-bit numbers: difficulties, nonces and mint counts as the token
//! contract counts them.
use vstd::arithmetic::power2::*;
use vstd::prelude::*;

use crate::bytes;

verus! {

/// 2 to the 64.
pub open spec fn word_base() -> nat {
    0x1_0000_0000_0000_0000nat
}

/// 2 to the 256: the number of values that a `U256` can have.
pub open spec fn u256_modulus() -> nat {
    0x1_0000_0000_0000_0000_0000_0000_0000_0000_0000_0000_0000_0000_0000_0000_0000_0000nat
}

/// A number below 2 to the 256. Its view is the number.
#[derive(Clone, Copy, Debug, PartialEq, Eq, Structural)]
pub struct U256 {
    w3: u64,
    w2: u64,
    w1: u64,
    w0: u64,
}

impl View for U256 {
    type V = nat;

    closed spec fn view(&self) -> nat {
        self.w0 as nat + word_base() * (self.w1 as nat + word_base() * (self.w2 as nat
            + word_base() * (self.w3 as nat)))
    }
}

impl U256 {
    /// Every `U256` is below 2 to the 256, and its value says everything.
    pub proof fn law_value(a: U256, b: U256)
        ensures
            a@ < u256_modulus(),
            a@ == b@ ==> a == b,
    {
    }

    pub fn from_u64(v: u64) -> (r: U256)
        ensures
            r@ == v,
    {
        U256 { w3: 0, w2: 0, w1: 0, w0: v }
    }

    /// The largest value.
    pub fn max() -> (r: U256)
        ensures
            r@ == u256_modulus() - 1,
    {
        U256 { w3: u64::MAX, w2: u64::MAX, w1: u64::MAX, w0: u64::MAX }
    }

    /// Reads 32 bytes, most significant first.
    pub fn from_be_bytes(b: &[u8; 32]) -> (r: U256)
        ensures
            r@ == bytes::be_value(b@),
    {
        let r = U256 {
            w3: bytes::read_be_u64(b, 0),
            w2: bytes::read_be_u64(b, 8),
            w1: bytes::read_be_u64(b, 16),
            w0: bytes::read_be_u64(b, 24),
        };
        proof {
            let (s3, s2, s1, s0) = (
                b@.subrange(0, 8),
                b@.subrange(8, 16),
                b@.subrange(16, 24),
                b@.subrange(24, 32),
            );
            assert(b@ =~= s3 + s2 + s1 + s0);
            bytes::lemma_pow256_8();
            bytes::lemma_be_value_concat(s3, s2);
            bytes::lemma_be_value_concat(s3 + s2, s1);
            bytes::lemma_be_value_concat(s3 + s2 + s1, s0);
        }
        r
    }

    /// The 32 bytes, most significant first.
    pub fn to_be_bytes(&self) -> (r: [u8; 32])
        ensures
            r@ == bytes::be_bytes(self@, 32),
    {
        let mut r: [u8; 32] = [0u8; 32];
        bytes::write_be_u64(&mut r, 0, self.w3);
        bytes::write_be_u64(&mut r, 8, self.w2);
        bytes::write_be_u64(&mut r, 16, self.w1);
        bytes::write_be_u64(&mut r, 24, self.w0);
        proof {
            self.lemma_words_are_bytes();
            assert(r@ =~= bytes::be_bytes(self.w3 as nat, 8) + bytes::be_bytes(
                self.w2 as nat,
                8,
            ) + bytes::be_bytes(self.w1 as nat, 8) + bytes::be_bytes(
                self.w0 as nat,
                8,
            ));
        }
        r
    }

    proof fn lemma_words_are_bytes(&self)
        ensures
            bytes::be_bytes(self@, 32) == bytes::be_bytes(self.w3 as nat, 8)
                + bytes::be_bytes(self.w2 as nat, 8) + bytes::be_bytes(
                self.w1 as nat,
                8,
            ) + bytes::be_bytes(self.w0 as nat, 8),
            bytes::be_bytes(self.w3 as nat, 8).len() == 8,
            bytes::be_bytes(self.w2 as nat, 8).len() == 8,
            bytes::be_bytes(self.w1 as nat, 8).len() == 8,
            bytes::be_bytes(self.w0 as nat, 8).len() == 8,
    {
        let (a, b, c, d) = (self.w3 as nat, self.w2 as nat, self.w1 as nat, self.w0 as nat);
        bytes::lemma_pow256_8();
        bytes::lemma_be_bytes_len(a, 8);
        bytes::lemma_be_bytes_len(b, 8);
        bytes::lemma_be_bytes_len(c, 8);
        bytes::lemma_be_bytes_len(d, 8);
        let ab = a * bytes::pow256(8) + b;
        let abc = ab * bytes::pow256(8) + c;
        bytes::lemma_be_bytes_split(a, b, 8, 8);
        bytes::lemma_be_bytes_split(ab, c, 16, 8);
        bytes::lemma_be_bytes_split(abc, d, 24, 8);
        assert(self@ == abc * bytes::pow256(8) + d);
    }

    /// The four 64-bit words, most significant first.
    pub fn to_be_words(&self) -> (r: [u64; 4])
        ensures
            self@ == r@[3] as nat + word_base() * (r@[2] as nat + word_base() * (r@[1] as nat
                + word_base() * (r@[0] as nat))),
    {
        [self.w3, self.w2, self.w1, self.w0]
    }

    /// The lowest 64 bits.
    pub fn low_u64(&self) -> (r: u64)
        ensures
            r == self@ % word_base(),
    {
        self.w0
    }

    /// Whether this value is below `other`.
    pub fn less_than(&self, other: &U256) -> (r: bool)
        ensures
            r == (self@ < other@),
    {
        if self.w3 != other.w3 {
            self.w3 < other.w3
        } else if self.w2 != other.w2 {
            self.w2 < other.w2
        } else if self.w1 != other.w1 {
            self.w1 < other.w1
        } else {
            self.w0 < other.w0
        }
    }

    /// The sum, reduced to 256 bits.
    pub fn wrapping_add(&self, other: &U256) -> (r: U256)
        ensures
            r@ == (self@ + other@) % u256_modulus(),
    {
        let base: u128 = 0x1_0000_0000_0000_0000;
        let s0: u128 = self.w0 as u128 + other.w0 as u128;
        let s1: u128 = self.w1 as u128 + other.w1 as u128 + s0 / base;
        let s2: u128 = self.w2 as u128 + other.w2 as u128 + s1 / base;
        let s3: u128 = self.w3 as u128 + other.w3 as u128 + s2 / base;
        let r = U256 {
            w3: (s3 % base) as u64,
            w2: (s2 % base) as u64,
            w1: (s1 % base) as u64,
            w0: (s0 % base) as u64,
        };
        proof {
            let carry = (s3 / base) as nat;
            assert(self@ + other@ == r@ + carry * u256_modulus());
            assert(r@ < u256_modulus());
            assert(carry == 0 || carry == 1);
        }
        r
    }

    /// The quotient by `d`, rounded down.
    pub fn div_u64(&self, d: u64) -> (r: U256)
        requires
            d > 0,
        ensures
            r@ == self@ / (d as nat),
    {
        let (q3, r3) = div_word(0, self.w3, d);
        let (q2, r2) = div_word(r3, self.w2, d);
        let (q1, r1) = div_word(r2, self.w1, d);
        let (q0, r0) = div_word(r1, self.w0, d);
        let r = U256 { w3: q3, w2: q2, w1: q1, w0: q0 };
        proof {
            let (a, b, c, e) = (q3 as int, q2 as int, q1 as int, q0 as int);
            let k = d as int;
            let base = word_base() as int;
            assert((e + base * (c + base * (b + base * a))) * k == e * k + base * (c * k + base * (b
                * k + base * (a * k)))) by (nonlinear_arith);
            assert(self@ == r@ * d + r0);
            vstd::arithmetic::div_mod::lemma_fundamental_div_mod_converse(
                self@ as int,
                k,
                r@ as int,
                r0 as int,
            );
        }
        r
    }
}

/// One step of a long division: the digit and the remainder when `w` follows
/// the remainder `carry`.
fn div_word(carry: u64, w: u64, d: u64) -> (r: (u64, u64))
    requires
        carry < d,
    ensures
        r.1 < d,
        r.0 * d + r.1 == carry * word_base() + w,
{
    let n: u128 = carry as u128 * 0x1_0000_0000_0000_0000 + w as u128;
    let q: u128 = n / (d as u128);
    let m: u128 = n % (d as u128);
    proof {
        vstd::arithmetic::div_mod::lemma_fundamental_div_mod(n as int, d as int);
        assert(n < d * word_base());
        assert(q < word_base()) by (nonlinear_arith)
            requires
                n == d * q + m,
                n < d * word_base(),
                m >= 0,
                d > 0,
        ;
        assert(q * d == d * q) by (nonlinear_arith);
    }
    (q as u64, m as u64)
}

/// A word has 64 bits and a `U256` has 256.
pub proof fn law_widths()
    ensures
        word_base() == pow2(64),
        u256_modulus() == pow2(256),
{
    lemma2_to64();
    lemma_pow2_adds(64, 64);
    lemma_pow2_adds(128, 128);
    let half = 0x1_0000_0000_0000_0000_0000_0000_0000_0000nat;
    assert(pow2(128) == half) by (nonlinear_arith)
        requires
            pow2(64) == 0x1_0000_0000_0000_0000,
            pow2(128) == pow2(64) * pow2(64),
            half == 0x1_0000_0000_0000_0000_0000_0000_0000_0000nat,
    ;
    assert(half * half == u256_modulus());
}

} // verus!
