//! The puzzle: which nonces solve a challenge at a difficulty, and the words
//! in which a challenge and a difficulty are handed to a GPU kernel.
use vstd::prelude::*;

use crate::bytes;
use crate::uint::U256;
use vstd::arithmetic::power;
use vstd::arithmetic::power2;

verus! {

/// The Keccak-256 digest of `data`.
pub uninterp spec fn keccak256_digest(data: Seq<u8>) -> Seq<u8>;

/// Calls `alloy::primitives::keccak256`. Claimed of it: the digest is a
/// function of the bytes alone. What that function is stays unsaid; it is
/// known here under the name `keccak256_digest`.
#[verifier::external_body]
fn keccak256(data: &[u8]) -> (digest: [u8; 32])
    ensures
        digest@ == keccak256_digest(data@),
{
    alloy::primitives::keccak256(data).0
}

/// `abi.encode(bytes32 challenge, uint256 nonce)`: the challenge, then the
/// nonce in 32 bytes, most significant first.
pub open spec fn preimage(challenge: Seq<u8>, nonce: nat) -> Seq<u8> {
    challenge + bytes::be_bytes(nonce, 32)
}

/// The digest that a nonce has under a challenge.
pub open spec fn nonce_digest(challenge: Seq<u8>, nonce: nat) -> Seq<u8> {
    keccak256_digest(preimage(challenge, nonce))
}

/// Whether `nonce` solves `challenge`: its digest, as a number, lies below the
/// difficulty.
pub open spec fn solves(challenge: Seq<u8>, nonce: nat, difficulty: nat) -> bool {
    bytes::be_value(nonce_digest(challenge, nonce)) < difficulty
}

/// The 64 bytes that are hashed for `nonce`.
pub fn encode_preimage(challenge: &[u8; 32], nonce: &U256) -> (buf: [u8; 64])
    ensures
        buf@ == preimage(challenge@, nonce@),
        buf@.subrange(0, 32) == challenge@,
        bytes::be_value(buf@.subrange(32, 64)) == nonce@,
{
    let mut buf: [u8; 64] = [0u8; 64];
    let tail: [u8; 32] = nonce.to_be_bytes();
    let mut i: usize = 0;
    while i < 32
        invariant
            i <= 32,
            buf@.len() == 64,
            buf@.subrange(0, i as int) == challenge@.subrange(0, i as int),
            buf@.subrange(32, 32 + i) == tail@.subrange(0, i as int),
        decreases 32 - i,
    {
        let ghost before = buf@;
        buf[i] = challenge[i];
        buf[32 + i] = tail[i];
        assert(buf@.subrange(0, i + 1) =~= before.subrange(0, i as int).push(challenge@[i as int]));
        assert(challenge@.subrange(0, i + 1) =~= challenge@.subrange(0, i as int).push(
            challenge@[i as int],
        ));
        assert(buf@.subrange(32, 32 + i + 1) =~= before.subrange(32, 32 + i).push(
            tail@[i as int],
        ));
        assert(tail@.subrange(0, i + 1) =~= tail@.subrange(0, i as int).push(tail@[i as int]));
        i += 1;
    }
    assert(buf@ =~= buf@.subrange(0, 32) + buf@.subrange(32, 64));
    assert(challenge@.subrange(0, 32) =~= challenge@);
    assert(tail@.subrange(0, 32) =~= tail@);
    proof {
        crate::uint::law_widths();
        U256::law_value(*nonce, *nonce);
        law_preimage(challenge@, nonce@);
    }
    buf
}

/// The digest of `abi.encode(bytes32 challenge, uint256 nonce)`.
pub fn cpu_hash(challenge: &[u8; 32], nonce: &U256) -> (digest: [u8; 32])
    ensures
        digest@ == nonce_digest(challenge@, nonce@),
{
    let buf: [u8; 64] = encode_preimage(challenge, nonce);
    keccak256(&buf)
}

/// Whether a digest, as a number, lies below the difficulty.
pub fn digest_below(digest: &[u8; 32], difficulty: &U256) -> (r: bool)
    ensures
        r == (bytes::be_value(digest@) < difficulty@),
{
    U256::from_be_bytes(digest).less_than(difficulty)
}

/// Whether `nonce` solves `challenge` at `difficulty`.
pub fn check_proof(challenge: &[u8; 32], nonce: &U256, difficulty: &U256) -> (r: bool)
    ensures
        r == solves(challenge@, nonce@, difficulty@),
{
    digest_below(&cpu_hash(challenge, nonce), difficulty)
}

/// A nonce that solves a puzzle, together with the puzzle. A value of this type
/// is only ever made of a nonce that has been checked.
#[derive(Clone, Copy, Debug, PartialEq, Eq)]
pub struct Solved {
    challenge: [u8; 32],
    nonce: U256,
    difficulty: U256,
}

/// The contents of a `Solved`.
pub struct SolvedView {
    pub challenge: Seq<u8>,
    pub nonce: nat,
    pub difficulty: nat,
}

impl View for Solved {
    type V = SolvedView;

    closed spec fn view(&self) -> SolvedView {
        SolvedView {
            challenge: self.challenge@,
            nonce: self.nonce@,
            difficulty: self.difficulty@,
        }
    }
}

impl Solved {
    /// Whether the nonce does solve the puzzle.
    #[verifier::type_invariant]
    pub open spec fn holds(self) -> bool {
        solves(self@.challenge, self@.nonce, self@.difficulty)
    }

    /// A puzzle and a nonce that is known to solve it.
    pub(crate) fn new(challenge: &[u8; 32], nonce: &U256, difficulty: &U256) -> (r: Solved)
        requires
            solves(challenge@, nonce@, difficulty@),
        ensures
            r@ == (SolvedView { challenge: challenge@, nonce: nonce@, difficulty: difficulty@ }),
    {
        Solved { challenge: *challenge, nonce: *nonce, difficulty: *difficulty }
    }

    /// Checks whether `nonce` solves `challenge` at `difficulty`.
    pub fn check(challenge: &[u8; 32], nonce: &U256, difficulty: &U256) -> (r: Option<Solved>)
        ensures
            r is Some <==> solves(challenge@, nonce@, difficulty@),
            r matches Some(solved) ==> solved@ == (SolvedView {
                challenge: challenge@,
                nonce: nonce@,
                difficulty: difficulty@,
            }),
    {
        if check_proof(challenge, nonce, difficulty) {
            Some(Solved::new(challenge, nonce, difficulty))
        } else {
            None
        }
    }

    pub fn nonce(&self) -> (nonce: U256)
        ensures
            nonce@ == self@.nonce,
            self.holds(),
    {
        proof {
            use_type_invariant(self);
        }
        self.nonce
    }

    /// Whether the puzzle is this one.
    pub fn is_for(&self, challenge: &[u8; 32], difficulty: &U256) -> (r: bool)
        ensures
            r == (self@.challenge == challenge@ && self@.difficulty == difficulty@),
    {
        bytes::same_bytes(&self.challenge, challenge) && !self.difficulty.less_than(difficulty)
            && !difficulty.less_than(&self.difficulty)
    }
}

/// The 32-byte challenge as four words, each read least significant byte first.
pub fn split_challenge_le(challenge: &[u8; 32]) -> (words: [u64; 4])
    ensures
        are_challenge_words(words@, challenge@),
{
    [
        bytes::read_le_u64(challenge, 0),
        bytes::read_le_u64(challenge, 8),
        bytes::read_le_u64(challenge, 16),
        bytes::read_le_u64(challenge, 24),
    ]
}

/// The difficulty as four words, the most significant word first.
pub fn split_difficulty_be(d: &U256) -> (words: [u64; 4])
    ensures
        be_words_value(words@) == d@,
{
    d.to_be_words()
}

/// The number that four words stand for, the most significant word first.
pub open spec fn be_words_value(words: Seq<u64>) -> nat
    recommends
        words.len() == 4,
{
    let base = crate::uint::word_base();
    words[3] as nat + base * (words[2] as nat + base * (words[1] as nat + base * (words[0] as nat)))
}

/// Whether `words` are the little-endian words of `challenge`.
pub open spec fn are_challenge_words(words: Seq<u64>, challenge: Seq<u8>) -> bool {
    &&& words.len() == 4
    &&& forall|i: int|
        0 <= i < 4 ==> #[trigger] words[i] as nat == bytes::le_value(
            challenge.subrange(8 * i, 8 * i + 8),
        )
}

/// The words of a challenge hold all of it: only one challenge has them.
pub proof fn law_challenge_words_injective(words: Seq<u64>, a: Seq<u8>, b: Seq<u8>)
    requires
        a.len() == 32,
        b.len() == 32,
        are_challenge_words(words, a),
        are_challenge_words(words, b),
    ensures
        a == b,
{
    assert forall|i: int| 0 <= i < 4 implies #[trigger] a.subrange(8 * i, 8 * i + 8) == b.subrange(
        8 * i,
        8 * i + 8,
    ) by {
        assert(words[i] as nat == bytes::le_value(a.subrange(8 * i, 8 * i + 8)));
        assert(words[i] as nat == bytes::le_value(b.subrange(8 * i, 8 * i + 8)));
        bytes::law_le_value_injective(
            a.subrange(8 * i, 8 * i + 8),
            b.subrange(8 * i, 8 * i + 8),
        );
    }
    assert forall|j: int| 0 <= j < 32 implies a[j] == b[j] by {
        let i = j / 8;
        assert(a.subrange(8 * i, 8 * i + 8) == b.subrange(8 * i, 8 * i + 8));
        assert(a[j] == a.subrange(8 * i, 8 * i + 8)[j - 8 * i]);
        assert(b[j] == b.subrange(8 * i, 8 * i + 8)[j - 8 * i]);
    }
    assert(a =~= b);
}

/// Comparing two numbers word by word, the most significant word first,
/// compares the numbers.
pub proof fn law_be_words_order(a: Seq<u64>, b: Seq<u64>)
    requires
        a.len() == 4,
        b.len() == 4,
    ensures
        be_words_value(a) < be_words_value(b) <==> {
            ||| a[0] < b[0]
            ||| a[0] == b[0] && a[1] < b[1]
            ||| a[0] == b[0] && a[1] == b[1] && a[2] < b[2]
            ||| a[0] == b[0] && a[1] == b[1] && a[2] == b[2] && a[3] < b[3]
        },
        be_words_value(a) == be_words_value(b) <==> a == b,
{
    if be_words_value(a) == be_words_value(b) {
        assert(a =~= b);
    }
}

/// Different nonces are hashed from different bytes, and so are different
/// challenges.
pub proof fn law_preimage_injective(c1: Seq<u8>, n1: nat, c2: Seq<u8>, n2: nat)
    requires
        c1.len() == 32,
        c2.len() == 32,
        n1 < crate::uint::u256_modulus(),
        n2 < crate::uint::u256_modulus(),
        preimage(c1, n1) == preimage(c2, n2),
    ensures
        c1 == c2,
        n1 == n2,
{
    assert(bytes::pow256(32) == crate::uint::u256_modulus()) by {
        reveal_with_fuel(bytes::pow256, 33);
    }
    bytes::law_be_value_of_be_bytes(n1, 32);
    bytes::law_be_value_of_be_bytes(n2, 32);
    assert(c1 =~= preimage(c1, n1).subrange(0, 32));
    assert(c2 =~= preimage(c2, n2).subrange(0, 32));
    assert(bytes::be_bytes(n1, 32) =~= preimage(c1, n1).subrange(32, 64));
    assert(bytes::be_bytes(n2, 32) =~= preimage(c2, n2).subrange(32, 64));
}

/// A nonce that solves a challenge also solves it at every higher difficulty
/// value, and none solves it at difficulty zero.
pub proof fn law_solves_monotone(challenge: Seq<u8>, nonce: nat, low: nat, high: nat)
    requires
        low <= high,
    ensures
        solves(challenge, nonce, low) ==> solves(challenge, nonce, high),
        !solves(challenge, nonce, 0),
{
}

/// What is hashed for a nonce is 64 bytes: the first 32 are the challenge, and
/// the last 32, read most significant first, are worth the nonce.
pub proof fn law_preimage(challenge: Seq<u8>, nonce: nat)
    requires
        challenge.len() == 32,
        nonce < power2::pow2(256),
    ensures
        preimage(challenge, nonce).len() == 64,
        preimage(challenge, nonce).subrange(0, 32) == challenge,
        bytes::be_value(preimage(challenge, nonce).subrange(32, 64)) == nonce,
{
    crate::uint::law_widths();
    assert(bytes::pow256(32) == crate::uint::u256_modulus()) by {
        reveal_with_fuel(bytes::pow256, 33);
    }
    bytes::law_be_value_of_be_bytes(nonce, 32);
    assert(preimage(challenge, nonce).subrange(0, 32) =~= challenge);
    assert(preimage(challenge, nonce).subrange(32, 64) =~= bytes::be_bytes(nonce, 32));
}

/// Whatever 64 bytes hold a challenge and then a nonce, most significant byte
/// first: their Keccak digest is the digest of the nonce, and the nonce solves
/// the challenge exactly where that digest, read most significant byte first,
/// is worth less than the difficulty.
pub proof fn law_digest_of_encoding(challenge: Seq<u8>, nonce: nat, buf: Seq<u8>, difficulty: nat)
    requires
        buf.len() == 64,
        buf.subrange(0, 32) == challenge,
        bytes::be_value(buf.subrange(32, 64)) == nonce,
    ensures
        nonce_digest(challenge, nonce) == keccak256_digest(buf),
        solves(challenge, nonce, difficulty) <==> bytes::be_value(keccak256_digest(buf))
            < difficulty,
{
    bytes::law_be_bytes_of_be_value(buf.subrange(32, 64));
    assert(preimage(challenge, nonce) =~= buf);
}

/// Four words are worth what they add up to, the first one 192 bits up, the
/// next ones 128 and 64 bits up, and the last one as it is.
pub proof fn law_be_words_value(words: Seq<u64>)
    requires
        words.len() == 4,
    ensures
        be_words_value(words) == words[0] * power2::pow2(192) + words[1] * power2::pow2(128)
            + words[2] * power2::pow2(64) + words[3],
{
    power2::lemma2_to64();
    power2::lemma_pow2_adds(64, 64);
    power2::lemma_pow2_adds(128, 64);
    let (a, b, c, d) = (words[0] as int, words[1] as int, words[2] as int, words[3] as int);
    let base = crate::uint::word_base() as int;
    assert(d + base * (c + base * (b + base * a)) == a * (base * base * base) + b * (base * base)
        + c * base + d) by (nonlinear_arith);
    assert(base * base == power2::pow2(128)) by (nonlinear_arith)
        requires
            base == power2::pow2(64),
            power2::pow2(128) == power2::pow2(64) * power2::pow2(64),
    ;
    assert(base * base * base == power2::pow2(192)) by (nonlinear_arith)
        requires
            base == power2::pow2(64),
            base * base == power2::pow2(128),
            power2::pow2(192) == power2::pow2(128) * power2::pow2(64),
    ;
}

/// Byte number `j` of word number `i`, counted from the lowest, is byte
/// `8 * i + j` of the challenge.
pub proof fn law_challenge_words(words: Seq<u64>, challenge: Seq<u8>, i: nat, j: nat)
    requires
        challenge.len() == 32,
        are_challenge_words(words, challenge),
        i < 4,
        j < 8,
    ensures
        words.len() == 4,
        challenge[(8 * i + j) as int] == (words[i as int] as int / power::pow(256, j)) % 256,
{
    let part = challenge.subrange(8 * i as int, 8 * i as int + 8);
    assert(words[i as int] as nat == bytes::le_value(part));
    bytes::law_le_value_digit(part, j);
    assert(part[j as int] == challenge[(8 * i + j) as int]);
}

} // verus!
