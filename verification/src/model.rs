//! The mathematical model of a prediction market: its state, the condition
//! under which each operation is refused, and the state each operation leads
//! to. The executable operations are proved against these definitions.

use vstd::prelude::*;
use crate::sums::sum;
use crate::fees::{
    MAX_BETS_PER_USER, MAX_MARKETS_PER_WINDOW, MIN_BET, RATE_WINDOW_SECS, net_stake, payout_share,
    platform_fee, referral_cut, referral_fee, reward_points, reward_tokens,
};
use crate::types::{Bet, Category, ClaimOutcome, Config, MarketError, MarketView, PendingBet};

verus! {

// ── Sums over positions and markets ─────────────────────────────────────────

/// A position's contribution to one side of the pool.
pub open spec fn stake_on(b: Bet, yes: bool) -> int {
    if b.is_yes == yes {
        b.amount as int
    } else {
        0
    }
}

/// The net stake on one side.
pub open spec fn side_total(bets: Seq<Bet>, yes: bool) -> int {
    sum(bets.map_values(|b: Bet| stake_on(b, yes)))
}

/// What a position gets back if its market is cancelled: its net stake and
/// the platform fees it paid that are still held, so everything it put in
/// except referral fees already paid out and platform fees already
/// withdrawn. Nothing once it was refunded.
pub open spec fn refund_due(b: Bet) -> int {
    if b.gross == 0 {
        0
    } else {
        b.amount + b.fee_held
    }
}

pub open spec fn refundable_total(bets: Seq<Bet>) -> int {
    sum(bets.map_values(|b: Bet| refund_due(b)))
}

/// The platform fees of the positions that are still held.
pub open spec fn held_fee_total(bets: Seq<Bet>) -> int {
    sum(bets.map_values(|b: Bet| b.fee_held as int))
}

/// What a position is still to be paid at a claim.
pub open spec fn unclaimed_of(b: Bet) -> int {
    if b.claimed {
        0
    } else {
        b.payout as int
    }
}

pub open spec fn unclaimed_total(bets: Seq<Bet>) -> int {
    sum(bets.map_values(|b: Bet| unclaimed_of(b)))
}

pub open spec fn payout_total(bets: Seq<Bet>) -> int {
    sum(bets.map_values(|b: Bet| b.payout as int))
}

/// The number of positions on one side.
pub open spec fn side_count(bets: Seq<Bet>, yes: bool) -> int {
    sum(bets.map_values(|b: Bet| if b.is_yes == yes { 1int } else { 0int }))
}

pub open spec fn fee_total(markets: Seq<MarketView>) -> int {
    sum(markets.map_values(|m: MarketView| m.fees as int))
}

/// A position's share of the pool once the market resolved to `outcome`:
/// winners get `amount * pool / winning_total`, rounded down; losers nothing.
pub open spec fn payout_of(b: Bet, outcome: bool, pool: int, winning_total: int) -> int {
    if b.is_yes == outcome && winning_total > 0 {
        payout_share(b.amount as int, pool, winning_total)
    } else {
        0
    }
}

/// The positions once their held platform fees were withdrawn.
pub open spec fn release_held_fees(bets: Seq<Bet>) -> Seq<Bet> {
    bets.map_values(|b: Bet| Bet { fee_held: 0, ..b })
}

/// The positions with each payout fixed.
pub open spec fn settle(bets: Seq<Bet>, outcome: bool, pool: int, winning_total: int) -> Seq<Bet> {
    bets.map_values(
        |b: Bet| Bet { payout: payout_of(b, outcome, pool, winning_total) as i128, ..b },
    )
}

pub open spec fn bet_ok(b: Bet, cancelled: bool) -> bool {
    &&& b.amount >= 1
    &&& 0 <= b.referral_paid <= b.gross
    &&& 1 <= b.placements <= MAX_BETS_PER_USER
    &&& b.payout >= 0
    &&& b.fee_held >= 0
    &&& (b.gross == 0 ==> b.fee_held == 0)
    &&& (!cancelled ==> b.gross > 0)
}

impl MarketView {
    pub open spec fn pool(self) -> int {
        self.total_yes + self.total_no
    }

    pub open spec fn winning_total(self, outcome: bool) -> int {
        if outcome {
            self.total_yes as int
        } else {
            self.total_no as int
        }
    }

    pub open spec fn has_bet(self, user: u64) -> bool {
        exists|i: int| 0 <= i < self.bets.len() && #[trigger] self.bets[i].user == user
    }

    pub open spec fn bet_idx(self, user: u64) -> int {
        choose|i: int| 0 <= i < self.bets.len() && #[trigger] self.bets[i].user == user
    }

    pub open spec fn bet_of(self, user: u64) -> Bet {
        self.bets[self.bet_idx(user)]
    }

    pub open spec fn users_distinct(self) -> bool {
        forall|i: int, j: int|
            0 <= i < self.bets.len() && 0 <= j < self.bets.len() && i != j
                ==> #[trigger] self.bets[i].user != #[trigger] self.bets[j].user
    }

    /// The market's own invariant.
    pub open spec fn inv(self) -> bool {
        &&& self.bet_count == self.bets.len()
        &&& self.users_distinct()
        &&& forall|i: int| 0 <= i < self.bets.len() ==> bet_ok(#[trigger] self.bets[i], self.cancelled)
        &&& self.total_yes == side_total(self.bets, true)
        &&& self.total_no == side_total(self.bets, false)
        &&& self.total_yes >= 0
        &&& self.total_no >= 0
        &&& self.pool() <= i128::MAX
        &&& self.fees >= 0
        &&& self.refundable >= 0
        &&& self.refundable == refundable_total(self.bets)
        &&& !(self.resolved && self.cancelled)
        &&& self.balance >= 0
        &&& (!self.resolved && !self.cancelled) ==> self.balance == self.pool() + self.fees
            && self.refundable == self.pool() + self.fees && self.fees == held_fee_total(self.bets)
        &&& self.resolved ==> self.balance == unclaimed_total(self.bets) + self.fees
        &&& self.cancelled ==> self.balance == self.refundable && self.fees == 0
        &&& !self.resolved ==> forall|i: int|
            0 <= i < self.bets.len() ==> (#[trigger] self.bets[i]).payout == 0 && !self.bets[i].claimed
        &&& self.resolved ==> forall|i: int|
            0 <= i < self.bets.len() ==> (#[trigger] self.bets[i]).payout == payout_of(
                self.bets[i],
                self.outcome,
                self.pool(),
                self.winning_total(self.outcome),
            )
    }

    /// Why a stake on this (open) market would be refused, apart from the
    /// market's state and the clock.
    pub open spec fn stake_error(self, user: u64, is_yes: bool, gross: i128) -> Option<MarketError> {
        if self.has_bet(user) && self.bet_of(user).is_yes != is_yes {
            Some(MarketError::OppositeSide)
        } else if self.has_bet(user) && self.bet_of(user).placements >= MAX_BETS_PER_USER {
            Some(MarketError::TooManyBets)
        } else if !self.stake_fits(user, gross) {
            Some(MarketError::ArithmeticOverflow)
        } else {
            None
        }
    }

    /// Every counter a stake adds to stays in range.
    pub open spec fn stake_fits(self, user: u64, gross: i128) -> bool {
        &&& self.pool() + gross <= i128::MAX
        &&& self.refundable + gross <= i128::MAX
        &&& self.balance + gross <= i128::MAX
        &&& self.fees + gross <= i128::MAX
        &&& self.has_bet(user) ==> self.bet_of(user).gross + gross <= i128::MAX
        &&& !self.has_bet(user) ==> self.bet_count < u32::MAX
    }

    /// The position of `user` after a stake of `gross`.
    pub open spec fn staked_bet(self, user: u64, is_yes: bool, gross: i128, credited: bool) -> Bet {
        let net = net_stake(gross as int);
        let referral = referral_fee(gross as int, credited);
        if self.has_bet(user) {
            let b = self.bet_of(user);
            Bet {
                amount: (b.amount + net) as i128,
                gross: (b.gross + gross) as i128,
                referral_paid: (b.referral_paid + referral) as i128,
                fee_held: (b.fee_held + platform_fee(gross as int, credited)) as i128,
                placements: (b.placements + 1) as u32,
                ..b
            }
        } else {
            Bet {
                user,
                is_yes,
                amount: net as i128,
                gross,
                referral_paid: referral as i128,
                fee_held: platform_fee(gross as int, credited) as i128,
                placements: 1,
                claimed: false,
                payout: 0,
            }
        }
    }

    /// The market after a stake of `gross` by `user`.
    pub open spec fn with_stake(self, user: u64, is_yes: bool, gross: i128, credited: bool) -> MarketView {
        let net = net_stake(gross as int);
        let b = self.staked_bet(user, is_yes, gross, credited);
        MarketView {
            total_yes: if is_yes { (self.total_yes + net) as i128 } else { self.total_yes },
            total_no: if is_yes { self.total_no } else { (self.total_no + net) as i128 },
            fees: (self.fees + platform_fee(gross as int, credited)) as i128,
            refundable: (self.refundable + gross - referral_fee(gross as int, credited)) as i128,
            balance: (self.balance + gross - referral_fee(gross as int, credited)) as i128,
            bet_count: if self.has_bet(user) { self.bet_count } else { (self.bet_count + 1) as u32 },
            bets: if self.has_bet(user) {
                self.bets.update(self.bet_idx(user), b)
            } else {
                self.bets.push(b)
            },
            ..self
        }
    }

    /// The positions with their payouts fixed for `outcome`.
    pub open spec fn settled_bets(self, outcome: bool) -> Seq<Bet> {
        settle(self.bets, outcome, self.pool(), self.winning_total(outcome))
    }

    /// What resolution leaves over after all payouts: rounding dust, or the
    /// whole pool when nobody backed the outcome. It goes to the fees.
    pub open spec fn dust(self, outcome: bool) -> int {
        self.pool() - payout_total(self.settled_bets(outcome))
    }

    /// Every payout product and the fee counters stay in range at settlement.
    pub open spec fn settlement_fits(self, outcome: bool) -> bool {
        &&& forall|i: int|
            0 <= i < self.bets.len() && (#[trigger] self.bets[i]).is_yes == outcome
                ==> self.bets[i].amount * self.pool() <= i128::MAX
        &&& self.fees + self.dust(outcome) <= i128::MAX
    }

    /// The market once its fee share was withdrawn. In an open market, the
    /// withdrawn platform fees no longer count towards any refund.
    pub open spec fn fees_withdrawn(self) -> MarketView {
        if !self.resolved && !self.cancelled {
            MarketView {
                fees: 0,
                balance: (self.balance - self.fees) as i128,
                refundable: (self.refundable - self.fees) as i128,
                bets: release_held_fees(self.bets),
                ..self
            }
        } else {
            MarketView { fees: 0, balance: (self.balance - self.fees) as i128, ..self }
        }
    }

    pub open spec fn settled(self, outcome: bool) -> MarketView {
        MarketView {
            resolved: true,
            outcome,
            bets: self.settled_bets(outcome),
            fees: (self.fees + self.dust(outcome)) as i128,
            ..self
        }
    }
}

/// The mathematical value of the whole contract state.
#[verifier::ext_equal]
pub struct MarketState {
    pub admin: Option<u64>,
    pub config: Config,
    pub markets: Seq<MarketView>,
    pub resolvers: Seq<u64>,
    pub fee_recipients: Seq<u64>,
    pub accumulated_fees: i128,
    pub window_start: u64,
    pub window_count: u64,
    pub pending: Option<PendingBet>,
}

impl MarketState {
    pub open spec fn has_market(self, id: u64) -> bool {
        1 <= id <= self.markets.len()
    }

    pub open spec fn market(self, id: u64) -> MarketView {
        self.markets[id - 1]
    }

    /// Refusals common to every state-changing operation: the lock held by a
    /// pending stake, and an uninitialized contract.
    pub open spec fn guard(self) -> Option<MarketError> {
        if self.pending is Some {
            Some(MarketError::ReentrancyDetected)
        } else if self.admin is None {
            Some(MarketError::NotInitialized)
        } else {
            None
        }
    }

    pub open spec fn is_admin(self, who: u64) -> bool {
        self.admin == Some(who)
    }

    pub open spec fn may_resolve(self, who: u64) -> bool {
        self.is_admin(who) || self.resolvers.contains(who)
    }

    pub open spec fn may_withdraw(self, who: u64) -> bool {
        self.is_admin(who) || self.fee_recipients.contains(who)
    }

    /// Why a stake with every market check passed would still be refused.
    pub open spec fn stake_error_in(self, id: u64, user: u64, is_yes: bool, gross: i128) -> Option<
        MarketError,
    > {
        if self.market(id).stake_error(user, is_yes, gross) is Some {
            self.market(id).stake_error(user, is_yes, gross)
        } else if self.accumulated_fees + gross > i128::MAX {
            Some(MarketError::ArithmeticOverflow)
        } else {
            None
        }
    }

    pub open spec fn pending_ok(self, p: PendingBet) -> bool {
        &&& self.admin is Some
        &&& self.has_market(p.market_id)
        &&& !self.market(p.market_id).cancelled
        &&& !self.market(p.market_id).resolved
        &&& p.gross >= MIN_BET
        &&& p.referral_fee == referral_cut(p.gross as int)
        &&& self.stake_error_in(p.market_id, p.user, p.is_yes, p.gross) is None
    }

    /// The contract's invariant.
    pub open spec fn inv(self) -> bool {
        &&& forall|i: int|
            0 <= i < self.markets.len() ==> (#[trigger] self.markets[i]).id == i + 1
                && self.markets[i].inv()
        &&& self.accumulated_fees == fee_total(self.markets)
        &&& self.accumulated_fees >= 0
        &&& self.window_count <= MAX_MARKETS_PER_WINDOW
        &&& self.pending matches Some(p) ==> self.pending_ok(p)
    }

    // ── initialize / configuration ──────────────────────────────────────────

    pub open spec fn admin_error(self, caller: u64) -> Option<MarketError> {
        if self.guard() is Some {
            self.guard()
        } else if !self.is_admin(caller) {
            Some(MarketError::Unauthorized)
        } else {
            None
        }
    }

    // ── markets ─────────────────────────────────────────────────────────────

    /// Whether `now` starts a new rate-limit window.
    pub open spec fn window_expired(self, now: u64) -> bool {
        now >= self.window_start + RATE_WINDOW_SECS
    }

    pub open spec fn created_in_window(self, now: u64) -> u64 {
        if self.window_expired(now) {
            0
        } else {
            self.window_count
        }
    }

    pub open spec fn create_error(self, caller: u64, duration: u64, now: u64) -> Option<MarketError> {
        if self.admin_error(caller) is Some {
            self.admin_error(caller)
        } else if self.created_in_window(now) >= MAX_MARKETS_PER_WINDOW {
            Some(MarketError::RateLimitExceeded)
        } else if now + duration > u64::MAX || self.markets.len() >= u64::MAX {
            Some(MarketError::ArithmeticOverflow)
        } else {
            None
        }
    }

    pub open spec fn new_market(
        self,
        caller: u64,
        title: Seq<char>,
        image_url: Seq<char>,
        category: Category,
        duration: u64,
        now: u64,
    ) -> MarketView {
        MarketView {
            id: (self.markets.len() + 1) as u64,
            creator: caller,
            title,
            image_url,
            category,
            end_time: (now + duration) as u64,
            total_yes: 0,
            total_no: 0,
            resolved: false,
            outcome: false,
            cancelled: false,
            bet_count: 0,
            fees: 0,
            refundable: 0,
            balance: 0,
            bets: Seq::empty(),
        }
    }

    pub open spec fn after_create(
        self,
        caller: u64,
        title: Seq<char>,
        image_url: Seq<char>,
        category: Category,
        duration: u64,
        now: u64,
    ) -> MarketState {
        MarketState {
            markets: self.markets.push(self.new_market(caller, title, image_url, category, duration, now)),
            window_start: if self.window_expired(now) { now } else { self.window_start },
            window_count: (self.created_in_window(now) + 1) as u64,
            ..self
        }
    }

    // ── staking ─────────────────────────────────────────────────────────────

    pub open spec fn bet_error(self, user: u64, id: u64, is_yes: bool, gross: i128, now: u64) -> Option<
        MarketError,
    > {
        if self.guard() is Some {
            self.guard()
        } else if gross < MIN_BET {
            Some(MarketError::BetTooSmall)
        } else if !self.has_market(id) {
            Some(MarketError::MarketNotFound)
        } else if self.market(id).cancelled {
            Some(MarketError::MarketCancelled)
        } else if self.market(id).resolved {
            Some(MarketError::MarketAlreadyResolved)
        } else if now >= self.market(id).end_time {
            Some(MarketError::MarketExpired)
        } else {
            self.stake_error_in(id, user, is_yes, gross)
        }
    }

    pub open spec fn pending_for(user: u64, id: u64, is_yes: bool, gross: i128) -> PendingBet {
        PendingBet {
            market_id: id,
            user,
            is_yes,
            gross,
            referral_fee: referral_cut(gross as int) as i128,
        }
    }

    /// The state after a stake is booked, with the lock released.
    pub open spec fn apply_stake(self, p: PendingBet, credited: bool) -> MarketState {
        MarketState {
            markets: self.markets.update(
                p.market_id - 1,
                self.market(p.market_id).with_stake(p.user, p.is_yes, p.gross, credited),
            ),
            accumulated_fees: (self.accumulated_fees + platform_fee(p.gross as int, credited)) as i128,
            pending: None,
            ..self
        }
    }

    // ── resolution ──────────────────────────────────────────────────────────

    pub open spec fn resolve_error(self, caller: u64, id: u64, outcome: bool, now: u64) -> Option<
        MarketError,
    > {
        if self.guard() is Some {
            self.guard()
        } else if !self.may_resolve(caller) {
            Some(MarketError::NotResolver)
        } else if !self.has_market(id) {
            Some(MarketError::MarketNotFound)
        } else if self.market(id).cancelled {
            Some(MarketError::MarketCancelled)
        } else if self.market(id).resolved {
            Some(MarketError::MarketAlreadyResolved)
        } else if now < self.market(id).end_time {
            Some(MarketError::MarketNotExpired)
        } else if !self.market(id).settlement_fits(outcome) || self.accumulated_fees + self.market(
            id,
        ).dust(outcome) > i128::MAX {
            Some(MarketError::ArithmeticOverflow)
        } else {
            None
        }
    }

    pub open spec fn after_resolve(self, id: u64, outcome: bool) -> MarketState {
        MarketState {
            markets: self.markets.update(id - 1, self.market(id).settled(outcome)),
            accumulated_fees: (self.accumulated_fees + self.market(id).dust(outcome)) as i128,
            ..self
        }
    }

    // ── claims ──────────────────────────────────────────────────────────────

    pub open spec fn claim_error(self, user: u64, id: u64) -> Option<MarketError> {
        if self.guard() is Some {
            self.guard()
        } else if !self.has_market(id) {
            Some(MarketError::MarketNotFound)
        } else if self.market(id).cancelled {
            Some(MarketError::MarketCancelled)
        } else if !self.market(id).resolved {
            Some(MarketError::MarketNotResolved)
        } else if !self.market(id).has_bet(user) {
            Some(MarketError::NoBetFound)
        } else if self.market(id).bet_of(user).claimed {
            Some(MarketError::AlreadyClaimed)
        } else {
            None
        }
    }

    pub open spec fn claim_outcome(self, user: u64, id: u64) -> ClaimOutcome {
        let m = self.market(id);
        let b = m.bet_of(user);
        let won = b.is_yes == m.outcome;
        ClaimOutcome {
            payout: b.payout,
            won,
            reward_tokens: reward_tokens(won),
            reward_points: reward_points(won),
        }
    }

    pub open spec fn after_claim(self, user: u64, id: u64) -> MarketState {
        let m = self.market(id);
        MarketState {
            markets: self.markets.update(
                id - 1,
                MarketView {
                    bets: m.bets.update(m.bet_idx(user), Bet { claimed: true, ..m.bet_of(user) }),
                    balance: (m.balance - m.bet_of(user).payout) as i128,
                    ..m
                },
            ),
            ..self
        }
    }

    // ── cancellation ────────────────────────────────────────────────────────

    pub open spec fn cancel_error(self, caller: u64, id: u64) -> Option<MarketError> {
        if self.admin_error(caller) is Some {
            self.admin_error(caller)
        } else if !self.has_market(id) {
            Some(MarketError::MarketNotFound)
        } else if self.market(id).resolved {
            Some(MarketError::MarketAlreadyResolved)
        } else if self.market(id).cancelled {
            Some(MarketError::MarketCancelled)
        } else {
            None
        }
    }

    /// Cancelling takes exactly the market's remaining fee share out of the
    /// accumulated fees: it is handed back through the refunds.
    pub open spec fn after_cancel(self, id: u64) -> MarketState {
        let m = self.market(id);
        MarketState {
            markets: self.markets.update(id - 1, MarketView { cancelled: true, fees: 0, ..m }),
            accumulated_fees: (self.accumulated_fees - m.fees) as i128,
            ..self
        }
    }

    pub open spec fn refund_error(self, user: u64, id: u64) -> Option<MarketError> {
        if self.guard() is Some {
            self.guard()
        } else if !self.has_market(id) {
            Some(MarketError::MarketNotFound)
        } else if !self.market(id).cancelled {
            Some(MarketError::MarketNotCancelled)
        } else if !self.market(id).has_bet(user) || self.market(id).bet_of(user).gross == 0 {
            Some(MarketError::NoBetFound)
        } else {
            None
        }
    }

    pub open spec fn refund_amount(self, user: u64, id: u64) -> int {
        refund_due(self.market(id).bet_of(user))
    }

    pub open spec fn after_refund(self, user: u64, id: u64) -> MarketState {
        let m = self.market(id);
        let b = m.bet_of(user);
        MarketState {
            markets: self.markets.update(
                id - 1,
                MarketView {
                    bets: m.bets.update(m.bet_idx(user), Bet { gross: 0, referral_paid: 0, fee_held: 0, ..b }),
                    refundable: (m.refundable - self.refund_amount(user, id)) as i128,
                    balance: (m.balance - self.refund_amount(user, id)) as i128,
                    ..m
                },
            ),
            ..self
        }
    }

    // ── fees ────────────────────────────────────────────────────────────────

    pub open spec fn withdraw_error(self, caller: u64) -> Option<MarketError> {
        if self.guard() is Some {
            self.guard()
        } else if !self.may_withdraw(caller) {
            Some(MarketError::NotFeeRecipient)
        } else if self.accumulated_fees == 0 {
            Some(MarketError::NoFeesToWithdraw)
        } else {
            None
        }
    }

    pub open spec fn after_withdraw(self) -> MarketState {
        MarketState {
            markets: self.markets.map_values(|m: MarketView| m.fees_withdrawn()),
            accumulated_fees: 0,
            ..self
        }
    }
}

} // verus!
