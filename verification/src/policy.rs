//! Economic policy: the halving reward schedule and the windowed difficulty
//! retarget, as pure functions of height and chain history.

use vstd::prelude::*;
use vstd::arithmetic::power2::pow2;
use vstd::arithmetic::power2::lemma_pow2_adds;
use vstd::arithmetic::power2::lemma_pow2_pos;
use vstd::arithmetic::power2::lemma_pow2_strictly_increases;
use vstd::arithmetic::power2::lemma2_to64;
use vstd::arithmetic::power2::lemma2_to64_rest;
use vstd::arithmetic::div_mod::lemma_basic_div;
use vstd::arithmetic::div_mod::lemma_div_denominator;
use vstd::arithmetic::div_mod::lemma_div_is_ordered;
use vstd::arithmetic::div_mod::lemma_div_is_ordered_by_denominator;
use vstd::arithmetic::div_mod::lemma_fundamental_div_mod;
use vstd::arithmetic::div_mod::lemma_fundamental_div_mod_converse;
use vstd::arithmetic::div_mod::lemma_mod_bound;
use vstd::arithmetic::mul::lemma_mul_inequality;
use vstd::arithmetic::mul::lemma_mul_is_commutative;
use vstd::bits::lemma_u64_pow2_no_overflow;
use vstd::bits::lemma_u64_shl_is_mul;
use crate::DIFFICULTY_ADJUSTMENT_INTERVAL;
use crate::DIFFICULTY_DEFAULT;
use crate::MAX_ADJUSTMENT_FACTOR;
use crate::REWARD_DEFAULT;
use crate::REWARD_HALVING_INTERVAL;
use crate::TARGET_TIMESPAN;
use crate::block::Block;
use crate::chain::Chain;
use crate::chain::spec_find_block;

verus! {

/// The block reward owed at a height: the base reward halved once per elapsed
/// halving interval, and zero outright after 64 halvings.
pub open spec fn spec_reward(height: u64) -> u64 {
    let halvings = height as nat / (REWARD_HALVING_INTERVAL as nat);
    if halvings >= 64 {
        0u64
    } else {
        (REWARD_DEFAULT as nat / pow2(halvings)) as u64
    }
}

/// Compute the block reward for a height.
pub fn calculate_block_reward(block_height: u64) -> (r: u64)
    ensures
        r == spec_reward(block_height),
{
    let halvings = block_height / REWARD_HALVING_INTERVAL;
    if halvings >= 64 {
        return 0;
    }
    proof {
        lemma_u64_pow2_no_overflow(halvings as nat);
        lemma_u64_shl_is_mul(1u64, halvings);
        lemma_pow2_pos(halvings as nat);
    }
    let divisor: u64 = 1u64 << halvings;
    REWARD_DEFAULT / divisor
}

/// Law: the reward is exactly zero once 64 halving intervals have elapsed.
pub proof fn lemma_reward_zero_after_64_halvings(height: u64)
    requires
        height as nat / (REWARD_HALVING_INTERVAL as nat) >= 64,
    ensures
        spec_reward(height) == 0,
{
}

/// Law: one halving interval later, the reward is exactly halved (integer
/// division).
pub proof fn lemma_reward_halves(height: u64)
    requires
        height + REWARD_HALVING_INTERVAL <= u64::MAX,
    ensures
        spec_reward((height + REWARD_HALVING_INTERVAL) as u64) == spec_reward(height) / 2,
{
    let hv = REWARD_HALVING_INTERVAL as int;
    let k = height as int / hv;
    lemma_fundamental_div_mod(height as int, hv);
    let r = height as int % hv;
    lemma_mod_bound(height as int, hv);
    assert(height as int + hv == (k + 1) * hv + r) by (nonlinear_arith)
        requires
            height as int == hv * k + r,
    ;
    lemma_fundamental_div_mod_converse((height + REWARD_HALVING_INTERVAL) as int, hv, k + 1, r);
    assert((height + REWARD_HALVING_INTERVAL) as u64 as nat / (REWARD_HALVING_INTERVAL as nat) == k
        + 1);
    if k + 1 < 64 {
        lemma_pow2_adds(k as nat, 1);
        assert(pow2(1) == 2) by {
            lemma2_to64();
        }
        lemma_pow2_pos(k as nat);
        lemma_div_denominator(REWARD_DEFAULT as int, pow2(k as nat) as int, 2);
    } else if k + 1 == 64 {
        assert(REWARD_DEFAULT < pow2(63)) by {
            lemma2_to64_rest();
        }
        lemma_basic_div(REWARD_DEFAULT as int, pow2(63) as int);
    }
}

/// Law: the reward never increases with height.
pub proof fn lemma_reward_nonincreasing(h1: u64, h2: u64)
    requires
        h1 <= h2,
    ensures
        spec_reward(h2) <= spec_reward(h1),
{
    let hv = REWARD_HALVING_INTERVAL as int;
    let k1 = h1 as int / hv;
    let k2 = h2 as int / hv;
    lemma_div_is_ordered(h1 as int, h2 as int, hv);
    assert(k1 <= k2);
    if k2 < 64 {
        lemma_pow2_pos(k1 as nat);
        lemma_pow2_pos(k2 as nat);
        if k1 < k2 {
            lemma_pow2_strictly_increases(k1 as nat, k2 as nat);
        }
        lemma_div_is_ordered_by_denominator(
            REWARD_DEFAULT as int,
            pow2(k1 as nat) as int,
            pow2(k2 as nat) as int,
        );
    }
}

/// The chain data the difficulty computation reads must exist and stay within
/// machine bounds: the previous block, within an interval; at a retarget
/// boundary also the window's start block, an end timestamp not earlier than
/// the start timestamp, and an end difficulty small enough that scaling it by
/// the target timespan cannot overflow.
pub open spec fn difficulty_inputs_ok(blocks: Seq<Block>, height: u64) -> bool {
    if height < DIFFICULTY_ADJUSTMENT_INTERVAL {
        true
    } else if height % DIFFICULTY_ADJUSTMENT_INTERVAL != 0 {
        spec_find_block(blocks, (height - 1) as u64) is Some
    } else {
        let start_index = if height == DIFFICULTY_ADJUSTMENT_INTERVAL {
            1u64
        } else {
            (height - DIFFICULTY_ADJUSTMENT_INTERVAL) as u64
        };
        &&& spec_find_block(blocks, start_index) is Some
        &&& spec_find_block(blocks, (height - 1) as u64) is Some
        &&& spec_find_block(blocks, start_index).unwrap().header.timestamp <= spec_find_block(
            blocks,
            (height - 1) as u64,
        ).unwrap().header.timestamp
        &&& spec_find_block(blocks, (height - 1) as u64).unwrap().header.difficulty_target
            <= u64::MAX / TARGET_TIMESPAN
    }
}

/// The difficulty owed at a height: the bootstrap default below one adjustment
/// interval; the previous block's target within an interval; at a retarget
/// boundary, the previous target scaled by the target timespan against the
/// measured timespan of the closing window, with the measured timespan clamped
/// to within a factor of MAX_ADJUSTMENT_FACTOR of the target and the result
/// clamped to within the same factor of the previous target.
pub open spec fn spec_difficulty(blocks: Seq<Block>, height: u64) -> u64 {
    if height < DIFFICULTY_ADJUSTMENT_INTERVAL {
        DIFFICULTY_DEFAULT
    } else if height % DIFFICULTY_ADJUSTMENT_INTERVAL != 0 {
        spec_find_block(blocks, (height - 1) as u64).unwrap().header.difficulty_target
    } else {
        let start_index = if height == DIFFICULTY_ADJUSTMENT_INTERVAL {
            1u64
        } else {
            (height - DIFFICULTY_ADJUSTMENT_INTERVAL) as u64
        };
        let start_block = spec_find_block(blocks, start_index).unwrap();
        let end_block = spec_find_block(blocks, (height - 1) as u64).unwrap();
        let raw = end_block.header.timestamp - start_block.header.timestamp;
        let lo = TARGET_TIMESPAN as int / MAX_ADJUSTMENT_FACTOR as int;
        let hi = TARGET_TIMESPAN as int * MAX_ADJUSTMENT_FACTOR as int;
        let clamped_low = if raw < lo {
            lo
        } else {
            raw
        };
        let actual = if clamped_low > hi {
            hi
        } else {
            clamped_low
        };
        let prev = end_block.header.difficulty_target as int;
        let scaled = prev * TARGET_TIMESPAN as int / actual;
        let floor = prev / MAX_ADJUSTMENT_FACTOR as int;
        let ceiling = prev * MAX_ADJUSTMENT_FACTOR as int;
        let raised = if scaled < floor {
            floor
        } else {
            scaled
        };
        (if raised > ceiling {
            ceiling
        } else {
            raised
        }) as u64
    }
}

/// Compute the difficulty required of the block at `block_height`, from the
/// chain's history.
pub fn calculate_block_difficulty(chain: &Chain, block_height: u64) -> (r: u64)
    requires
        difficulty_inputs_ok(chain.blocks@, block_height),
    ensures
        r == spec_difficulty(chain.blocks@, block_height),
{
    if block_height < DIFFICULTY_ADJUSTMENT_INTERVAL {
        return DIFFICULTY_DEFAULT;
    }
    if block_height % DIFFICULTY_ADJUSTMENT_INTERVAL != 0 {
        let last_block = chain.get_block_by_height(block_height - 1).unwrap();
        return last_block.header.difficulty_target;
    }
    let mut start_block_index = block_height - DIFFICULTY_ADJUSTMENT_INTERVAL;
    if start_block_index == 0 {
        start_block_index = 1;
    }
    let start_block = chain.get_block_by_height(start_block_index).unwrap();
    let end_block = chain.get_block_by_height(block_height - 1).unwrap();
    let mut actual_timespan = end_block.header.timestamp - start_block.header.timestamp;
    if actual_timespan < TARGET_TIMESPAN / MAX_ADJUSTMENT_FACTOR {
        actual_timespan = TARGET_TIMESPAN / MAX_ADJUSTMENT_FACTOR;
    }
    if actual_timespan > TARGET_TIMESPAN * MAX_ADJUSTMENT_FACTOR {
        actual_timespan = TARGET_TIMESPAN * MAX_ADJUSTMENT_FACTOR;
    }
    proof {
        let d = end_block.header.difficulty_target as int;
        let tt = TARGET_TIMESPAN as int;
        lemma_fundamental_div_mod(u64::MAX as int, tt);
        lemma_mod_bound(u64::MAX as int, tt);
        lemma_mul_is_commutative(tt, u64::MAX as int / tt);
        assert((u64::MAX as int / tt) * tt <= u64::MAX as int);
        lemma_mul_inequality(d, u64::MAX as int / tt, tt);
        assert(d * tt <= u64::MAX as int);
        assert(u64::MAX / TARGET_TIMESPAN <= u64::MAX / MAX_ADJUSTMENT_FACTOR) by {
            lemma_div_is_ordered_by_denominator(
                u64::MAX as int,
                MAX_ADJUSTMENT_FACTOR as int,
                TARGET_TIMESPAN as int,
            );
        }
    }
    let mut new_difficulty = end_block.header.difficulty_target * TARGET_TIMESPAN / actual_timespan;
    if new_difficulty < end_block.header.difficulty_target / MAX_ADJUSTMENT_FACTOR {
        new_difficulty = end_block.header.difficulty_target / MAX_ADJUSTMENT_FACTOR;
    }
    if new_difficulty > end_block.header.difficulty_target * MAX_ADJUSTMENT_FACTOR {
        new_difficulty = end_block.header.difficulty_target * MAX_ADJUSTMENT_FACTOR;
    }
    new_difficulty
}

/// Law: below one adjustment interval the difficulty is the bootstrap default,
/// whatever the chain holds.
pub proof fn lemma_difficulty_bootstrap(blocks: Seq<Block>, height: u64)
    requires
        height < DIFFICULTY_ADJUSTMENT_INTERVAL,
    ensures
        spec_difficulty(blocks, height) == DIFFICULTY_DEFAULT,
{
}

/// Law: between two heights of the same adjustment interval, neither at a
/// retarget boundary, the difficulty is constant — for a chain whose blocks
/// sit at their heights and record the policy difficulty for their height.
pub proof fn lemma_difficulty_constant_within_interval(blocks: Seq<Block>, h1: u64, h2: u64)
    requires
        forall|i: int| 0 <= i < blocks.len() ==> #[trigger] blocks[i].id == i,
        forall|i: int|
            1 <= i < blocks.len() ==> #[trigger] blocks[i].header.difficulty_target
                == spec_difficulty(blocks, i as u64),
        DIFFICULTY_ADJUSTMENT_INTERVAL <= h1 <= h2,
        h2 <= blocks.len(),
        h1 / DIFFICULTY_ADJUSTMENT_INTERVAL == h2 / DIFFICULTY_ADJUSTMENT_INTERVAL,
        h1 % DIFFICULTY_ADJUSTMENT_INTERVAL != 0,
    ensures
        spec_difficulty(blocks, h2) == spec_difficulty(blocks, h1),
    decreases h2 - h1,
{
    let a = DIFFICULTY_ADJUSTMENT_INTERVAL as int;
    if h2 > h1 {
        lemma_fundamental_div_mod(h1 as int, a);
        lemma_fundamental_div_mod(h2 as int, a);
        lemma_mod_bound(h1 as int, a);
        lemma_mod_bound(h2 as int, a);
        assert(h2 % DIFFICULTY_ADJUSTMENT_INTERVAL != 0);
        let q = h2 as int / a;
        lemma_mul_is_commutative(a, q);
        lemma_fundamental_div_mod_converse(h2 as int - 1, a, q, h2 as int % a - 1);
        assert((h2 - 1) as u64 / DIFFICULTY_ADJUSTMENT_INTERVAL == h1
            / DIFFICULTY_ADJUSTMENT_INTERVAL);
        assert(blocks.len() <= u64::MAX + 1) by {
            if blocks.len() > u64::MAX + 1 {
                assert(blocks[u64::MAX as int + 1].id == u64::MAX as int + 1);
            }
        }
        crate::chain::lemma_find_block_offset(blocks, 0, (h2 - 1) as u64);
        assert(spec_find_block(blocks, (h2 - 1) as u64) == Option::Some(blocks[h2 - 1]));
        assert(blocks[h2 - 1].header.difficulty_target == spec_difficulty(blocks, (h2 - 1) as u64));
        lemma_difficulty_constant_within_interval(blocks, h1, (h2 - 1) as u64);
    }
}

} // verus!
