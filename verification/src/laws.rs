//! What holds of the market across operations and states.

use vstd::prelude::*;
use crate::fees::{
    LOSE_POINTS, LOSE_TOKENS, MAX_BETS_PER_USER, MAX_MARKETS_PER_WINDOW, MIN_BET, RATE_WINDOW_SECS,
    WIN_POINTS, WIN_TOKENS, lemma_fee_parts, net_stake, payout_share, platform_fee, referral_fee,
    total_fee,
};
use crate::lemmas::lemma_dust_bounds;
use crate::model::{MarketState, fee_total, payout_total, side_count};
use crate::types::{Bet, MarketError, MarketView, PendingBet};

verus! {

/// Every stake is split without loss: what enters the pool, the platform's
/// fee and the referral fee add up to the stake; the two fees together are
/// the 2% fee, and the referral fee is paid only when a referrer is credited.
pub proof fn law_stake_split_conserves(gross: int, credited: bool)
    requires
        gross >= 0,
    ensures
        net_stake(gross) + platform_fee(gross, credited) + referral_fee(gross, credited) == gross,
        platform_fee(gross, credited) + referral_fee(gross, credited) == total_fee(gross),
        !credited ==> referral_fee(gross, credited) == 0,
        0 <= referral_fee(gross, credited) <= platform_fee(gross, credited) + referral_fee(gross, credited),
{
    lemma_fee_parts(gross, credited);
}

/// The accumulated fees are always exactly the sum of the markets' fee
/// shares, and never negative.
pub proof fn law_accumulator_is_sum_of_market_fees(s: MarketState)
    requires
        s.inv(),
    ensures
        s.accumulated_fees == fee_total(s.markets),
        s.accumulated_fees >= 0,
{
}

/// Each market's pool is exactly the stakes of its positions, and a
/// cancelled market owes back exactly the refundable part of each position.
pub proof fn law_market_totals_match_positions(s: MarketState, id: u64)
    requires
        s.inv(),
        s.has_market(id),
    ensures
        s.market(id).inv(),
        s.market(id).bet_count == s.market(id).bets.len(),
        s.market(id).refundable == crate::model::refundable_total(s.market(id).bets),
        s.market(id).total_yes == crate::model::side_total(s.market(id).bets, true),
        s.market(id).total_no == crate::model::side_total(s.market(id).bets, false),
{
    assert(s.markets[id - 1].inv());
}

/// Resolution never pays out more than the pool. What is left over goes to
/// the fees: with winners, less than one unit per winning position (so less
/// than the winning total); with no stake on the outcome, the whole pool.
pub proof fn law_settlement_within_pool(s: MarketState, id: u64, outcome: bool)
    requires
        s.inv(),
        s.has_market(id),
    ensures
        0 <= payout_total(s.market(id).settled_bets(outcome)) <= s.market(id).pool(),
        payout_total(s.market(id).settled_bets(outcome)) + s.market(id).dust(outcome) == s.market(
            id,
        ).pool(),
        s.market(id).winning_total(outcome) > 0 ==> 0 <= s.market(id).dust(outcome) < side_count(
            s.market(id).bets,
            outcome,
        ) <= s.market(id).winning_total(outcome),
        s.market(id).winning_total(outcome) == 0 ==> s.market(id).dust(outcome) == s.market(id).pool(),
{
    assert(s.markets[id - 1].inv());
    lemma_dust_bounds(s.market(id), outcome);
}

/// A position that holds the whole winning side is paid the whole pool.
pub proof fn law_sole_winner_takes_pool(m: MarketView, outcome: bool, b: Bet)
    requires
        b.is_yes == outcome,
        b.amount == m.winning_total(outcome),
        m.winning_total(outcome) > 0,
        m.pool() >= 0,
    ensures
        crate::model::payout_of(b, outcome, m.pool(), m.winning_total(outcome)) == m.pool(),
{
    let w = m.winning_total(outcome);
    let p = m.pool();
    assert(w * p / w == p) by (nonlinear_arith)
        requires
            w > 0,
    ;
    assert(payout_share(b.amount as int, p, w) == p);
}

/// Cancelling a market takes exactly its own fee share out of the
/// accumulated fees and leaves every other market as it was.
pub proof fn law_cancel_is_isolated(s: MarketState, caller: u64, id: u64, other: u64)
    requires
        s.inv(),
        s.cancel_error(caller, id) is None,
        s.has_market(other),
        other != id,
    ensures
        s.after_cancel(id).accumulated_fees == s.accumulated_fees - s.market(id).fees,
        s.after_cancel(id).market(other) == s.market(other),
        s.after_cancel(id).market(id).fees == 0,
        s.after_cancel(id).market(id).refundable == s.market(id).refundable,
{
}

/// A position is refunded once: the refund is what it staked minus the
/// referral fees already paid out, and asking again is refused.
pub proof fn law_refund_once(s: MarketState, user: u64, id: u64)
    requires
        s.inv(),
        s.refund_error(user, id) is None,
    ensures
        s.refund_amount(user, id) == s.market(id).bet_of(user).amount + s.market(id).bet_of(user).fee_held,
        0 <= s.refund_amount(user, id) <= s.market(id).refundable,
        s.after_refund(user, id).refund_error(user, id) == Some(MarketError::NoBetFound),
        s.after_refund(user, id).market(id).refundable == s.market(id).refundable - s.refund_amount(
            user,
            id,
        ),
{
    let m = s.market(id);
    assert(s.markets[id - 1].inv());
    let i = m.bet_idx(user);
    assert(0 <= i < m.bets.len() && m.bets[i].user == user);
    crate::lemmas::lemma_stake_bounded(m, i);
    assert(crate::model::bet_ok(m.bets[i], m.cancelled));
    let n = s.after_refund(user, id).market(id);
    assert(n.bets[i].user == user);
    crate::lemmas::lemma_bet_index(n, i, user);
}

/// A claim pays exactly the share fixed at resolution: a winner's stake
/// times the pool over the winning total (rounded down, never more than the
/// pool), a loser nothing; the reward tier follows the same win or loss.
pub proof fn law_claim_pays_fixed_share(s: MarketState, user: u64, id: u64)
    requires
        s.inv(),
        s.claim_error(user, id) is None,
    ensures
        s.claim_outcome(user, id).payout == crate::model::payout_of(
            s.market(id).bet_of(user),
            s.market(id).outcome,
            s.market(id).pool(),
            s.market(id).winning_total(s.market(id).outcome),
        ),
        s.claim_outcome(user, id).won == (s.market(id).bet_of(user).is_yes == s.market(id).outcome),
        0 <= s.claim_outcome(user, id).payout <= s.market(id).pool(),
{
    let m = s.market(id);
    assert(s.markets[id - 1].inv());
    let i = m.bet_idx(user);
    assert(0 <= i < m.bets.len() && m.bets[i].user == user);
    let b = m.bets[i];
    assert(b.payout == crate::model::payout_of(b, m.outcome, m.pool(), m.winning_total(m.outcome)));
    if b.is_yes == m.outcome && m.winning_total(m.outcome) > 0 {
        crate::lemmas::lemma_stake_bounded(m, i);
        crate::lemmas::lemma_share_bounded(b.amount as int, m.pool(), m.winning_total(m.outcome));
    }
}

/// A position is claimed once: asking again is refused.
pub proof fn law_claim_once(s: MarketState, user: u64, id: u64)
    requires
        s.inv(),
        s.claim_error(user, id) is None,
    ensures
        s.after_claim(user, id).claim_error(user, id) == Some(MarketError::AlreadyClaimed),
{
    let m = s.market(id);
    assert(s.markets[id - 1].inv());
    let i = m.bet_idx(user);
    assert(0 <= i < m.bets.len() && m.bets[i].user == user);
    let n = s.after_claim(user, id).market(id);
    assert(n.users_distinct());
    assert(n.bets[i].user == user);
    crate::lemmas::lemma_bet_index(n, i, user);
}

/// While a stake is being booked, every other stake is refused as
/// re-entrant.
pub proof fn law_reentrant_stake_refused(
    s: MarketState,
    user: u64,
    id: u64,
    is_yes: bool,
    gross: i128,
    now: u64,
)
    requires
        s.pending is Some,
    ensures
        s.bet_error(user, id, is_yes, gross, now) == Some(MarketError::ReentrancyDetected),
{
}

/// Restaking on the same side adds to the position: its pool stake grows
/// by the new net stake, its recorded gross by the whole new stake, and the
/// number of bettors is unchanged.
pub proof fn law_restake_accumulates(s: MarketState, p: PendingBet, credited: bool)
    requires
        s.inv(),
        s.pending_ok(p),
        s.market(p.market_id).has_bet(p.user),
    ensures
        s.apply_stake(p, credited).market(p.market_id).bet_count == s.market(p.market_id).bet_count,
        s.apply_stake(p, credited).market(p.market_id).bet_of(p.user).amount == s.market(
            p.market_id,
        ).bet_of(p.user).amount + net_stake(p.gross as int),
        s.apply_stake(p, credited).market(p.market_id).bet_of(p.user).gross == s.market(
            p.market_id,
        ).bet_of(p.user).gross + p.gross,
{
    let m = s.market(p.market_id);
    assert(s.markets[p.market_id - 1].inv());
    let i = m.bet_idx(p.user);
    assert(0 <= i < m.bets.len() && m.bets[i].user == p.user);
    crate::lemmas::lemma_stake_bounded(m, i);
    lemma_fee_parts(p.gross as int, credited);
    let n = s.apply_stake(p, credited).market(p.market_id);
    assert(n.bets == m.bets.update(i, m.staked_bet(p.user, p.is_yes, p.gross, credited)));
    assert(n.users_distinct());
    crate::lemmas::lemma_bet_index(n, i, p.user);
}

/// At most `MAX_MARKETS_PER_WINDOW` markets are created per rate-limit
/// window: within the machine limits (the end time fits in a `u64`, fewer
/// than `u64::MAX` markets), an administrator's creation is refused with
/// `RateLimitExceeded` exactly when that many were created in the current
/// window, and the first creation after the window ends opens a new one.
pub proof fn law_creation_rate_limited(s: MarketState, caller: u64, duration: u64, now: u64)
    requires
        s.inv(),
        s.admin_error(caller) is None,
        now + duration <= u64::MAX,
        s.markets.len() < u64::MAX,
    ensures
        s.create_error(caller, duration, now) == Some(MarketError::RateLimitExceeded) <==> s.created_in_window(
            now,
        ) >= MAX_MARKETS_PER_WINDOW,
        s.create_error(caller, duration, now) is None <==> s.created_in_window(now)
            < MAX_MARKETS_PER_WINDOW,
        s.window_expired(now) ==> s.created_in_window(now) == 0,
        s.window_expired(now) && s.create_error(caller, duration, now) is None ==> s.after_create(
            caller,
            Seq::empty(),
            Seq::empty(),
            crate::types::Category::Other,
            duration,
            now,
        ).window_count == 1,
{
}

/// Markets are numbered in creation order: an accepted creation adds one
/// market whose identifier is the new market count, leaving every earlier
/// market as it was.
pub proof fn law_creation_numbers_markets(
    s: MarketState,
    caller: u64,
    title: Seq<char>,
    image_url: Seq<char>,
    category: crate::types::Category,
    duration: u64,
    now: u64,
)
    requires
        s.inv(),
        s.create_error(caller, duration, now) is None,
    ensures
        ({
            let n = s.after_create(caller, title, image_url, category, duration, now);
            &&& n.markets.len() == s.markets.len() + 1
            &&& n.has_market((s.markets.len() + 1) as u64)
            &&& n.market((s.markets.len() + 1) as u64).id == s.markets.len() + 1
            &&& n.market((s.markets.len() + 1) as u64).end_time == now + duration
            &&& forall|id: u64| s.has_market(id) ==> n.market(id) == s.market(id)
        }),
{
}

/// Every market is solvent: what the contract holds for it (stakes
/// received, less referral fees, withdrawn fees, claimed payouts and
/// refunds) is never negative and covers what it may still have to pay.
/// An open market holds its pool and its fee share, and a cancellation would
/// refund no more than that, and no more than the pool once part of the fee
/// share has been withdrawn. A resolved market holds exactly its unclaimed
/// payouts and its fee share; a cancelled one its outstanding refunds and its
/// fee share.
pub proof fn law_market_solvent(s: MarketState, id: u64)
    requires
        s.inv(),
        s.has_market(id),
    ensures
        ({
            let m = s.market(id);
            &&& m.balance >= 0
            &&& m.fees >= 0
            &&& (!m.resolved && !m.cancelled) ==> m.balance == m.pool() + m.fees && m.refundable
                == m.balance && m.fees == crate::model::held_fee_total(m.bets)
            &&& m.resolved ==> m.balance == crate::model::unclaimed_total(m.bets) + m.fees
            &&& m.cancelled ==> m.balance == m.refundable && m.fees == 0
        }),
{
    assert(s.markets[id - 1].inv());
}

/// Money moves through a market only by the operations' flows, each taken
/// from what the market holds: a stake adds the stake less its referral fee;
/// a claim, a refund and a withdrawal each take out at most what the market
/// holds; resolution and cancellation move nothing. With every balance
/// non-negative (`law_market_solvent`), a market never pays out more than it
/// took in.
pub proof fn law_flows_bounded_by_balance(s: MarketState, id: u64, user: u64, p: PendingBet, credited: bool, outcome: bool)
    requires
        s.inv(),
        s.has_market(id),
    ensures
        s.pending_ok(p) && p.market_id == id ==> s.apply_stake(p, credited).market(id).balance
            == s.market(id).balance + p.gross - referral_fee(p.gross as int, credited),
        s.claim_error(user, id) is None ==> 0 <= s.claim_outcome(user, id).payout
            <= s.market(id).balance && s.after_claim(user, id).market(id).balance == s.market(id).balance
            - s.claim_outcome(user, id).payout,
        s.refund_error(user, id) is None ==> 0 <= s.refund_amount(user, id) <= s.market(id).balance
            && s.after_refund(user, id).market(id).balance == s.market(id).balance - s.refund_amount(
            user,
            id,
        ),
        0 <= s.market(id).fees <= s.market(id).balance,
        s.after_withdraw().market(id).balance == s.market(id).balance - s.market(id).fees,
        s.after_resolve(id, outcome).market(id).balance == s.market(id).balance,
        s.after_cancel(id).market(id).balance == s.market(id).balance,
{
    let m = s.market(id);
    assert(s.markets[id - 1].inv());
    crate::lemmas::lemma_fees_withdrawn_inv(m);
    if s.claim_error(user, id) is None {
        let i = m.bet_idx(user);
        assert(0 <= i < m.bets.len() && m.bets[i].user == user);
        let u = m.bets.map_values(|b: Bet| crate::model::unclaimed_of(b));
        assert forall|j: int| 0 <= j < u.len() implies u[j] >= 0 by {
            assert(crate::model::bet_ok(m.bets[j], m.cancelled));
        }
        crate::sums::lemma_sum_bounds_element(u, i);
    }
    if s.refund_error(user, id) is None {
        let i = m.bet_idx(user);
        assert(0 <= i < m.bets.len() && m.bets[i].user == user);
        crate::lemmas::lemma_stake_bounded(m, i);
    }
    if s.pending_ok(p) && p.market_id == id {
        lemma_fee_parts(p.gross as int, credited);
    }
}

/// A claim hands out the reward tier of its position's result: a position
/// on the resolved outcome is a win, paid its fixed share with the winner's
/// tokens and points; any other is a loss, paid nothing with the loser's
/// tokens and points.
pub proof fn law_claim_reward_tier(s: MarketState, user: u64, id: u64)
    requires
        s.inv(),
        s.claim_error(user, id) is None,
    ensures
        ({
            let m = s.market(id);
            let b = m.bet_of(user);
            let o = s.claim_outcome(user, id);
            &&& b.is_yes == m.outcome ==> o.won && o.payout == b.payout && o.reward_tokens == WIN_TOKENS
                && o.reward_points == WIN_POINTS
            &&& b.is_yes != m.outcome ==> !o.won && o.payout == 0 && o.reward_tokens == LOSE_TOKENS
                && o.reward_points == LOSE_POINTS
        }),
{
    let m = s.market(id);
    assert(s.markets[id - 1].inv());
    let i = m.bet_idx(user);
    assert(0 <= i < m.bets.len() && m.bets[i].user == user);
}

/// Every position of a resolved market can be claimed once: with no stake
/// pending, a claim by an account with an unclaimed position succeeds.
pub proof fn law_claim_available(s: MarketState, user: u64, id: u64)
    requires
        s.inv(),
        s.pending is None,
        s.admin is Some,
        s.has_market(id),
        s.market(id).resolved,
        s.market(id).has_bet(user),
        !s.market(id).bet_of(user).claimed,
    ensures
        s.claim_error(user, id) is None,
{
    assert(s.markets[id - 1].inv());
}

/// The rate-limit window is fixed when it opens: a creation within
/// `RATE_WINDOW_SECS` of the window's start counts in that window and leaves
/// its start where it was; the first creation after that opens a new window
/// at its own time. A creation is refused for the rate limit only when
/// `MAX_MARKETS_PER_WINDOW` markets were already created in a window that
/// began less than `RATE_WINDOW_SECS` before now.
pub proof fn law_creation_window(
    s: MarketState,
    caller: u64,
    title: Seq<char>,
    image_url: Seq<char>,
    category: crate::types::Category,
    duration: u64,
    now: u64,
)
    requires
        s.inv(),
    ensures
        s.create_error(caller, duration, now) == Some(MarketError::RateLimitExceeded) ==> now
            < s.window_start + RATE_WINDOW_SECS && s.window_count >= MAX_MARKETS_PER_WINDOW,
        s.create_error(caller, duration, now) is None && now < s.window_start + RATE_WINDOW_SECS
            ==> s.after_create(caller, title, image_url, category, duration, now).window_start
            == s.window_start && s.after_create(caller, title, image_url, category, duration, now).window_count
            == s.window_count + 1,
        s.create_error(caller, duration, now) is None && now >= s.window_start + RATE_WINDOW_SECS
            ==> s.after_create(caller, title, image_url, category, duration, now).window_start == now
            && s.after_create(caller, title, image_url, category, duration, now).window_count == 1,
{
}

/// Resolution of an expired open market, by the administrator or a
/// resolver, succeeds whenever every winning stake times the pool fits in an
/// `i128` and the market's and the contract's fee counters can take the whole
/// pool.
pub proof fn law_resolution_succeeds(s: MarketState, caller: u64, id: u64, outcome: bool, now: u64)
    requires
        s.inv(),
        s.pending is None,
        s.admin is Some,
        s.admin == Some(caller) || s.resolvers.contains(caller),
        s.has_market(id),
        !s.market(id).cancelled,
        !s.market(id).resolved,
        now >= s.market(id).end_time,
        forall|i: int|
            0 <= i < s.market(id).bets.len() && (#[trigger] s.market(id).bets[i]).is_yes == outcome
                ==> s.market(id).bets[i].amount * (s.market(id).total_yes + s.market(id).total_no)
                <= i128::MAX,
        s.market(id).fees + s.market(id).total_yes + s.market(id).total_no <= i128::MAX,
        s.accumulated_fees + s.market(id).total_yes + s.market(id).total_no <= i128::MAX,
    ensures
        s.resolve_error(caller, id, outcome, now) is None,
{
    assert(s.markets[id - 1].inv());
    lemma_dust_bounds(s.market(id), outcome);
}

/// A stake is refused only for its own cause: as too small only below
/// `MIN_BET`; as expired only at or after the market's end; for the
/// opposite side only when the account already backs the other side; as
/// one too many only when the account's own position already holds
/// `MAX_BETS_PER_USER` stakes; for overflow only when a counter could not
/// take the stake.
pub proof fn law_stake_refusal_causes(s: MarketState, user: u64, id: u64, is_yes: bool, gross: i128, now: u64)
    requires
        s.inv(),
    ensures
        s.bet_error(user, id, is_yes, gross, now) == Some(MarketError::BetTooSmall) ==> gross < MIN_BET,
        s.bet_error(user, id, is_yes, gross, now) == Some(MarketError::MarketExpired) ==> s.has_market(id)
            && now >= s.market(id).end_time,
        s.bet_error(user, id, is_yes, gross, now) == Some(MarketError::OppositeSide) ==> s.has_market(id)
            && s.market(id).has_bet(user) && s.market(id).bet_of(user).is_yes != is_yes,
        s.bet_error(user, id, is_yes, gross, now) == Some(MarketError::TooManyBets) ==> s.has_market(id)
            && s.market(id).has_bet(user) && s.market(id).bet_of(user).placements >= MAX_BETS_PER_USER,
        s.bet_error(user, id, is_yes, gross, now) == Some(MarketError::ArithmeticOverflow) ==> s.has_market(id)
            && ({
            let m = s.market(id);
            ||| m.total_yes + m.total_no + gross > i128::MAX
            ||| m.refundable + gross > i128::MAX
            ||| m.fees + gross > i128::MAX
            ||| m.balance + gross > i128::MAX
            ||| s.accumulated_fees + gross > i128::MAX
            ||| m.has_bet(user) && m.bet_of(user).gross + gross > i128::MAX
            ||| !m.has_bet(user) && m.bet_count == u32::MAX
        }),
{
}

/// An account's first stake on an open market, at least `MIN_BET`, before
/// the market's end, is accepted whenever the counters can take it, however
/// many accounts already staked.
pub proof fn law_first_stake_accepted(s: MarketState, user: u64, id: u64, is_yes: bool, gross: i128, now: u64)
    requires
        s.inv(),
        s.pending is None,
        s.admin is Some,
        gross >= MIN_BET,
        s.has_market(id),
        !s.market(id).cancelled,
        !s.market(id).resolved,
        now < s.market(id).end_time,
        !s.market(id).has_bet(user),
        s.market(id).bet_count < u32::MAX,
        s.market(id).total_yes + s.market(id).total_no + gross <= i128::MAX,
        s.market(id).refundable + gross <= i128::MAX,
        s.market(id).fees + gross <= i128::MAX,
        s.market(id).balance + gross <= i128::MAX,
        s.accumulated_fees + gross <= i128::MAX,
    ensures
        s.bet_error(user, id, is_yes, gross, now) is None,
{
}

/// Every unrefunded position of a cancelled market can be refunded, and the
/// refund is at least its net stake: its net stake plus the platform fees it
/// paid that were not withdrawn.
pub proof fn law_refund_available(s: MarketState, user: u64, id: u64)
    requires
        s.inv(),
        s.pending is None,
        s.admin is Some,
        s.has_market(id),
        s.market(id).cancelled,
        s.market(id).has_bet(user),
        s.market(id).bet_of(user).gross != 0,
    ensures
        s.refund_error(user, id) is None,
        s.refund_amount(user, id) == s.market(id).bet_of(user).amount + s.market(id).bet_of(user).fee_held,
        s.refund_amount(user, id) >= s.market(id).bet_of(user).amount >= 1,
{
    let m = s.market(id);
    assert(s.markets[id - 1].inv());
    let i = m.bet_idx(user);
    assert(0 <= i < m.bets.len() && m.bets[i].user == user);
    assert(crate::model::bet_ok(m.bets[i], m.cancelled));
}

} // verus!
