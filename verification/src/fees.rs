//! Fee schedule, stake split, pari-mutuel payout shares and claim rewards.

use vstd::prelude::*;

verus! {

/// Basis-point denominator.
pub const BPS_DENOM: i128 = 10_000;

/// Total fee taken on every stake: 2%.
pub const TOTAL_FEE_BPS: i128 = 200;

/// Platform part of the fee when a referrer is credited: 1.5%.
/// The rest of the total fee (0.5%) goes to the referrer.
pub const PLATFORM_FEE_BPS: i128 = 150;

/// Smallest accepted stake: 1 XLM in stroops.
pub const MIN_BET: i128 = 10_000_000;

/// How many stakes one account may place on one market.
pub const MAX_BETS_PER_USER: u32 = 20;

/// How many markets may be created within one rate-limit window.
pub const MAX_MARKETS_PER_WINDOW: u64 = 10;

/// Length of the market-creation rate-limit window, in seconds.
pub const RATE_WINDOW_SECS: u64 = 3_600;

/// Reward tokens minted to a winner when it claims.
pub const WIN_TOKENS: i128 = 100_000_000;

/// Reward tokens minted to a loser when it claims.
pub const LOSE_TOKENS: i128 = 20_000_000;

/// Leaderboard points for a win.
pub const WIN_POINTS: u32 = 30;

/// Leaderboard points for a loss.
pub const LOSE_POINTS: u32 = 10;

/// `amount * bps / BPS_DENOM`, rounded down.
pub open spec fn bps_part(amount: int, bps: int) -> int {
    amount * bps / (BPS_DENOM as int)
}

/// The whole fee taken from a stake.
pub open spec fn total_fee(gross: int) -> int {
    bps_part(gross, TOTAL_FEE_BPS as int)
}

/// The part of the fee that goes to a referrer, when one is credited.
pub open spec fn referral_cut(gross: int) -> int {
    total_fee(gross) - bps_part(gross, PLATFORM_FEE_BPS as int)
}

/// The stake that enters the pool.
pub open spec fn net_stake(gross: int) -> int {
    gross - total_fee(gross)
}

/// The referral fee actually paid out for a stake.
pub open spec fn referral_fee(gross: int, credited: bool) -> int {
    if credited {
        referral_cut(gross)
    } else {
        0
    }
}

/// The fee that stays with the platform for a stake.
pub open spec fn platform_fee(gross: int, credited: bool) -> int {
    total_fee(gross) - referral_fee(gross, credited)
}

/// How a stake is divided: what enters the pool, what the platform keeps,
/// and what is paid to a referrer.
#[derive(Clone, Copy, Debug, PartialEq, Eq)]
pub struct FeeSplit {
    pub net: i128,
    pub platform_fee: i128,
    pub referral_fee: i128,
}

proof fn lemma_bps_part_split(amount: int, bps: int, q: int, r: int)
    requires
        amount >= 0,
        0 <= bps <= BPS_DENOM,
        q == amount / (BPS_DENOM as int),
        r == amount % (BPS_DENOM as int),
    ensures
        bps_part(amount, bps) == q * bps + r * bps / (BPS_DENOM as int),
        0 <= r < BPS_DENOM,
        0 <= q * bps <= amount,
{
    let d = BPS_DENOM as int;
    assert(amount == q * d + r && 0 <= r < d) by (nonlinear_arith)
        requires
            q == amount / d,
            r == amount % d,
            d == 10_000,
    ;
    assert(amount * bps == (q * bps) * d + r * bps) by (nonlinear_arith)
        requires
            amount == q * d + r,
    ;
    assert((q * bps * d + r * bps) / d == q * bps + (r * bps) / d) by (nonlinear_arith)
        requires
            d == 10_000,
            r * bps >= 0,
    ;
    assert(0 <= q * bps <= amount) by (nonlinear_arith)
        requires
            amount == q * d + r,
            0 <= r,
            q >= 0,
            0 <= bps <= d,
            d == 10_000,
    ;
}

/// `amount * bps / BPS_DENOM` without an intermediate product that could
/// overflow.
pub fn bps_of(amount: i128, bps: i128) -> (part: i128)
    requires
        amount >= 0,
        0 <= bps <= BPS_DENOM,
    ensures
        part == bps_part(amount as int, bps as int),
        0 <= part <= amount,
{
    let q = amount / BPS_DENOM;
    let r = amount % BPS_DENOM;
    proof {
        lemma_bps_part_split(amount as int, bps as int, q as int, r as int);
        assert(0 <= r * bps <= 10_000 * 10_000) by (nonlinear_arith)
            requires
                0 <= r < 10_000,
                0 <= bps <= 10_000,
        ;
        assert(0 <= (r * bps) / 10_000 <= r) by (nonlinear_arith)
            requires
                0 <= r < 10_000,
                0 <= bps <= 10_000,
        ;
        assert(q * bps + r <= amount) by (nonlinear_arith)
            requires
                amount == q * 10_000 + r,
                0 <= bps <= 10_000,
                q >= 0,
                r >= 0,
        ;
    }
    q * bps + (r * bps) / BPS_DENOM
}

proof fn lemma_bps_monotone(amount: int, lo: int, hi: int)
    requires
        amount >= 0,
        0 <= lo <= hi,
    ensures
        bps_part(amount, lo) <= bps_part(amount, hi),
{
    assert(amount * lo <= amount * hi) by (nonlinear_arith)
        requires
            amount >= 0,
            lo <= hi,
    ;
    assert(amount * lo / 10_000 <= amount * hi / 10_000) by (nonlinear_arith)
        requires
            amount * lo <= amount * hi,
    ;
}

/// The fee facts every caller relies on: the parts are non-negative and add
/// up to the stake.
pub proof fn lemma_fee_parts(gross: int, credited: bool)
    requires
        gross >= 0,
    ensures
        0 <= referral_fee(gross, credited) <= total_fee(gross),
        0 <= platform_fee(gross, credited) <= total_fee(gross),
        0 <= total_fee(gross) <= gross,
        net_stake(gross) + platform_fee(gross, credited) + referral_fee(gross, credited) == gross,
        gross >= MIN_BET ==> net_stake(gross) > 0,
{
    lemma_bps_monotone(gross, PLATFORM_FEE_BPS as int, TOTAL_FEE_BPS as int);
    lemma_bps_monotone(gross, 0, PLATFORM_FEE_BPS as int);
    assert(gross * 0 == 0);
    assert(total_fee(gross) <= gross) by (nonlinear_arith)
        requires
            gross >= 0,
            total_fee(gross) == gross * 200 / 10_000,
    ;
    assert(gross >= 10_000_000 ==> gross - gross * 200 / 10_000 > 0) by (nonlinear_arith)
        requires
            gross >= 0,
    ;
}

/// Splits a stake into pool, platform fee and referral fee. `credited` is the
/// referral registry's answer: whether a referrer of the bettor was paid.
pub fn split_stake(gross: i128, credited: bool) -> (split: FeeSplit)
    requires
        gross >= 0,
    ensures
        split.net == net_stake(gross as int),
        split.platform_fee == platform_fee(gross as int, credited),
        split.referral_fee == referral_fee(gross as int, credited),
        split.net + split.platform_fee + split.referral_fee == gross,
{
    proof {
        lemma_fee_parts(gross as int, credited);
    }
    let fee = bps_of(gross, TOTAL_FEE_BPS);
    let referral = if credited {
        let platform = bps_of(gross, PLATFORM_FEE_BPS);
        fee - platform
    } else {
        0
    };
    FeeSplit { net: gross - fee, platform_fee: fee - referral, referral_fee: referral }
}

/// The referral fee that the registry is asked to pay out for a stake.
pub fn referral_request(gross: i128) -> (fee: i128)
    requires
        gross >= 0,
    ensures
        fee == referral_cut(gross as int),
        0 <= fee,
{
    proof {
        lemma_fee_parts(gross as int, true);
    }
    let fee = bps_of(gross, TOTAL_FEE_BPS);
    let platform = bps_of(gross, PLATFORM_FEE_BPS);
    fee - platform
}

/// A winner's share of the pool: `net * pool / winning_total`, rounded down.
pub open spec fn payout_share(net: int, pool: int, winning_total: int) -> int {
    net * pool / winning_total
}

/// Reward tokens and points for a claim.
pub open spec fn reward_tokens(won: bool) -> i128 {
    if won {
        WIN_TOKENS
    } else {
        LOSE_TOKENS
    }
}

pub open spec fn reward_points(won: bool) -> u32 {
    if won {
        WIN_POINTS
    } else {
        LOSE_POINTS
    }
}

/// The reward tier for a claim: tokens minted and leaderboard points.
pub fn claim_rewards(won: bool) -> (r: (i128, u32))
    ensures
        r.0 == reward_tokens(won),
        r.1 == reward_points(won),
{
    if won {
        (WIN_TOKENS, WIN_POINTS)
    } else {
        (LOSE_TOKENS, LOSE_POINTS)
    }
}

} // verus!
