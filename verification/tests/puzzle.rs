use alloy::primitives::{keccak256, B256, U256 as AlloyU256};
use hash_miner::bytes::{read_be_u64, read_le_u64, write_be_u64};
use hash_miner::chain::{epoch_of, reward_for_total_mints};
use hash_miner::pow::{
    check_proof, cpu_hash, digest_below, encode_preimage, split_challenge_le, split_difficulty_be,
};
use hash_miner::uint::U256;

fn unhex(s: &str) -> [u8; 32] {
    let mut out = [0u8; 32];
    for i in 0..32 {
        out[i] = u8::from_str_radix(&s[2 * i..2 * i + 2], 16).unwrap();
    }
    out
}

fn counting() -> [u8; 32] {
    let mut b = [0u8; 32];
    for i in 0..32 {
        b[i] = i as u8 + 1;
    }
    b
}

fn same(a: &U256, b: &AlloyU256) -> bool {
    a.to_be_bytes() == b.to_be_bytes::<32>()
}

#[test]
fn words_are_read_in_both_orders() {
    let b = counting();
    assert_eq!(read_be_u64(&b, 0), 0x0102030405060708);
    assert_eq!(read_le_u64(&b, 0), 0x0807060504030201);
    assert_eq!(read_be_u64(&b, 24), 0x191a1b1c1d1e1f20);
    assert_eq!(read_le_u64(&b, 24), 0x201f1e1d1c1b1a19);
    assert_eq!(read_be_u64(&b, 3), 0x0405060708090a0b);
}

#[test]
fn a_word_is_written_in_place() {
    let mut buf = [9u8; 12];
    write_be_u64(&mut buf, 2, 0x0102030405060708);
    assert_eq!(buf, [9, 9, 1, 2, 3, 4, 5, 6, 7, 8, 9, 9]);
}

#[test]
fn u256_bytes_go_back_and_forth() {
    let b = counting();
    assert_eq!(U256::from_be_bytes(&b).to_be_bytes(), b);
    let mut one = [0u8; 32];
    one[31] = 1;
    assert_eq!(U256::from_be_bytes(&one), U256::from_u64(1));
    assert_eq!(U256::max().to_be_bytes(), [0xff; 32]);
    assert_eq!(U256::max().low_u64(), u64::MAX);
}

#[test]
fn u256_words_are_most_significant_first() {
    let b = counting();
    assert_eq!(
        U256::from_be_bytes(&b).to_be_words(),
        [0x0102030405060708, 0x090a0b0c0d0e0f10, 0x1112131415161718, 0x191a1b1c1d1e1f20]
    );
}

#[test]
fn u256_order_looks_at_every_word() {
    for i in 0..32 {
        let mut small = [7u8; 32];
        let mut large = [7u8; 32];
        small[i] = 6;
        large[i] = 8;
        let (a, b) = (U256::from_be_bytes(&small), U256::from_be_bytes(&large));
        assert!(a.less_than(&b));
        assert!(!b.less_than(&a));
        assert!(!a.less_than(&a));
    }
}

#[test]
fn u256_sum_carries_and_wraps() {
    assert_eq!(U256::max().wrapping_add(&U256::from_u64(1)), U256::from_u64(0));
    assert_eq!(U256::max().wrapping_add(&U256::from_u64(5)), U256::from_u64(4));
    let carried = U256::from_u64(u64::MAX).wrapping_add(&U256::from_u64(1));
    assert_eq!(carried.to_be_words(), [0, 0, 1, 0]);
    let (x, y) = (counting(), [0xf3u8; 32]);
    let sum = U256::from_be_bytes(&x).wrapping_add(&U256::from_be_bytes(&y));
    assert!(same(&sum, &(AlloyU256::from_be_bytes::<32>(x) + AlloyU256::from_be_bytes::<32>(y))));
}

#[test]
fn u256_quotient_is_exact() {
    let x = counting();
    for d in [1u64, 2, 3, 100_000, 0xffff_ffff, u64::MAX] {
        let q = U256::from_be_bytes(&x).div_u64(d);
        assert!(same(&q, &(AlloyU256::from_be_bytes::<32>(x) / AlloyU256::from(d))));
        let q = U256::max().div_u64(d);
        assert!(same(&q, &(AlloyU256::MAX / AlloyU256::from(d))));
    }
    assert_eq!(U256::from_u64(299_999).div_u64(100_000), U256::from_u64(2));
}

#[test]
fn preimage_is_the_challenge_and_then_the_nonce() {
    let c = counting();
    let buf = encode_preimage(&c, &U256::from_u64(0x0a0b));
    assert_eq!(buf[..32], c);
    assert_eq!(buf[32..62], [0u8; 30]);
    assert_eq!(buf[62..], [0x0a, 0x0b]);
}

#[test]
fn digest_of_zeros_is_the_known_one() {
    let digest = cpu_hash(&[0u8; 32], &U256::from_u64(0));
    assert_eq!(
        digest,
        unhex("ad3228b676f7d3cd4284a5443f17f1962b36e491b30a40b2405849e597ba5fb5")
    );
}

#[test]
fn digest_is_that_of_the_encoded_arguments() {
    let c = counting();
    let mut buf = [0u8; 64];
    buf[..32].copy_from_slice(&c);
    buf[32..].copy_from_slice(&AlloyU256::from(123_456_789u64).to_be_bytes::<32>());
    assert_eq!(cpu_hash(&c, &U256::from_u64(123_456_789)), keccak256(buf).0);
}

#[test]
fn a_digest_is_compared_as_a_number() {
    let mut digest = [0u8; 32];
    digest[31] = 5;
    assert!(digest_below(&digest, &U256::from_u64(6)));
    assert!(!digest_below(&digest, &U256::from_u64(5)));
    assert!(!digest_below(&[0xff; 32], &U256::max()));
    assert!(!digest_below(&[0u8; 32], &U256::from_u64(0)));
}

#[test]
fn a_proof_is_checked_against_the_difficulty() {
    let c = [0u8; 32];
    let digest = cpu_hash(&c, &U256::from_u64(0));
    let exact = U256::from_be_bytes(&digest);
    assert!(!check_proof(&c, &U256::from_u64(0), &exact));
    assert!(check_proof(&c, &U256::from_u64(0), &exact.wrapping_add(&U256::from_u64(1))));
    assert!(check_proof(&c, &U256::from_u64(0), &U256::max()));
    assert!(!check_proof(&c, &U256::from_u64(0), &U256::from_u64(0)));
}

#[test]
fn challenge_words_are_little_endian() {
    let c = B256::from(*b"abcdefghijklmnopqrstuvwxyz012345");
    let words = split_challenge_le(&c.0);
    assert_eq!(words[0], u64::from_le_bytes(*b"abcdefgh"));
    assert_eq!(words[1], u64::from_le_bytes(*b"ijklmnop"));
    assert_eq!(words[2], u64::from_le_bytes(*b"qrstuvwx"));
    assert_eq!(words[3], u64::from_le_bytes(*b"yz012345"));
}

#[test]
fn challenges_with_the_same_words_are_the_same() {
    let a = counting();
    for i in 0..32 {
        let mut b = a;
        b[i] ^= 0x80;
        assert_ne!(split_challenge_le(&a), split_challenge_le(&b));
    }
}

#[test]
fn difficulty_words_are_big_endian() {
    let d = U256::from_be_bytes(&counting());
    assert_eq!(
        split_difficulty_be(&d),
        [0x0102030405060708, 0x090a0b0c0d0e0f10, 0x1112131415161718, 0x191a1b1c1d1e1f20]
    );
    assert_eq!(split_difficulty_be(&U256::from_u64(7)), [0, 0, 0, 7]);
    assert_eq!(split_difficulty_be(&U256::max()), [u64::MAX; 4]);
    assert!(split_difficulty_be(&U256::from_u64(7)) < split_difficulty_be(&U256::max()));
}

#[test]
fn a_block_belongs_to_its_epoch() {
    assert_eq!(epoch_of(0), 0);
    assert_eq!(epoch_of(99), 0);
    assert_eq!(epoch_of(100), 1);
    assert_eq!(epoch_of(25_069_901), 250_699);
}

#[test]
fn the_reward_halves_from_era_to_era() {
    let expected = [100u128, 50, 25, 12, 6, 3, 1, 0, 0];
    for (era, reward) in expected.iter().enumerate() {
        let first = era as u64 * 100_000;
        assert_eq!(reward_for_total_mints(&U256::from_u64(first)), *reward);
        assert_eq!(reward_for_total_mints(&U256::from_u64(first + 99_999)), *reward);
    }
    assert_eq!(reward_for_total_mints(&U256::from_u64(63 * 100_000)), 0);
    assert_eq!(reward_for_total_mints(&U256::from_u64(64 * 100_000)), 0);
    assert_eq!(reward_for_total_mints(&U256::max()), 0);
}

#[test]
fn different_puzzles_are_hashed_from_different_bytes() {
    let c = counting();
    let mut d = c;
    d[31] ^= 1;
    let (n, m) = (U256::from_u64(1), U256::from_u64(256));
    assert_ne!(encode_preimage(&c, &n), encode_preimage(&d, &n));
    assert_ne!(encode_preimage(&c, &n), encode_preimage(&c, &m));
}
