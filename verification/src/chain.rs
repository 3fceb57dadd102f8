//! The rules of the token contract that a miner counts by: epochs and rewards.
use vstd::prelude::*;

use crate::uint::U256;
use vstd::arithmetic::power2;

verus! {

/// Blocks in an epoch.
pub const EPOCH_BLOCKS: u64 = 100;

/// Mints in an era.
pub const ERA_MINTS: u64 = 100_000;

/// The epoch that a block belongs to.
pub fn epoch_of(block: u64) -> (epoch: u64)
    ensures
        epoch == block / EPOCH_BLOCKS,
{
    block / EPOCH_BLOCKS
}

/// The reward of a mint in an era: 100, halved once for each era before it and
/// rounded down.
pub open spec fn era_reward(era: nat) -> nat {
    100nat / power2::pow2(era)
}

/// The reward of the next mint after `total_mints`.
pub fn reward_for_total_mints(total_mints: &U256) -> (reward: u128)
    ensures
        reward == era_reward(total_mints@ / (ERA_MINTS as nat)),
{
    let era: U256 = total_mints.div_u64(ERA_MINTS);
    let ghost e = era@;
    if era.less_than(&U256::from_u64(64)) {
        let shift: u128 = era.low_u64() as u128;
        proof {
            vstd::bits::lemma_u128_shr_is_div(100, shift);
        }
        100u128 >> shift
    } else {
        proof {
            power2::lemma_pow2_strictly_increases(7, e);
            power2::lemma2_to64();
            assert(100nat / power2::pow2(e) == 0) by (nonlinear_arith)
                requires
                    power2::pow2(e) > 100,
            ;
        }
        0
    }
}

/// The reward halves, rounded down, from one era to the next, and never rises
/// with the number of mints.
pub proof fn law_reward_halves(total: nat, more: nat)
    requires
        total <= more,
    ensures
        era_reward((total + ERA_MINTS) as nat / (ERA_MINTS as nat)) == era_reward(
            total / (ERA_MINTS as nat),
        ) / 2,
        era_reward(more / (ERA_MINTS as nat)) <= era_reward(total / (ERA_MINTS as nat)),
{
    let era = total / (ERA_MINTS as nat);
    let later = more / (ERA_MINTS as nat);
    assert((total + ERA_MINTS) as nat / (ERA_MINTS as nat) == era + 1);
    lemma_next_era(era);
    assert(era <= later);
    lemma_reward_falls(era, later);
}

/// From the eighth era on there is no reward.
pub proof fn law_reward_ends(era: nat)
    ensures
        era_reward(era) == 0 <==> era >= 7,
{
    power2::lemma2_to64();
    if era >= 7 {
        lemma_reward_falls(7, era);
    } else {
        lemma_reward_falls(era, 6);
    }
}

proof fn lemma_next_era(era: nat)
    ensures
        era_reward(era + 1) == era_reward(era) / 2,
{
    power2::lemma_pow2_pos(era);
    power2::lemma_pow2_unfold(era + 1);
    vstd::arithmetic::div_mod::lemma_div_denominator(100, power2::pow2(era) as int, 2);
}

proof fn lemma_reward_falls(era: nat, later: nat)
    requires
        era <= later,
    ensures
        era_reward(later) <= era_reward(era),
    decreases later,
{
    if era < later {
        lemma_reward_falls(era, (later - 1) as nat);
        lemma_next_era((later - 1) as nat);
    }
}

/// An epoch lasts 100 blocks: the first one holds the blocks below 100, and 100
/// blocks after any block the epoch is the next one.
pub proof fn law_epoch_lasts_100_blocks(block: nat)
    ensures
        block / (EPOCH_BLOCKS as nat) == 0 <==> block < 100,
        (block + 100) / (EPOCH_BLOCKS as nat) == block / (EPOCH_BLOCKS as nat) + 1,
{
}

/// The reward is 100 divided by 2 as often as 100000 mints have gone by, rounded
/// down: this and no other number lies that close below the exact quotient.
pub proof fn law_reward_is_100_halved(total: nat)
    ensures
        ({
            let halvings = power2::pow2(total / 100_000);
            let reward = era_reward(total / (ERA_MINTS as nat));
            reward * halvings <= 100 < (reward + 1) * halvings
        }),
{
    let p = power2::pow2(total / 100_000) as int;
    let r = era_reward(total / (ERA_MINTS as nat)) as int;
    power2::lemma_pow2_pos(total / 100_000);
    vstd::arithmetic::div_mod::lemma_fundamental_div_mod(100, p);
    assert(r * p <= 100 < (r + 1) * p) by (nonlinear_arith)
        requires
            100 == p * r + 100int % p,
            0 <= 100int % p < p,
    ;
}

} // verus!
