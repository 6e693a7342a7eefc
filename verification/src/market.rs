//! The prediction market contract state and its operations.

use vstd::prelude::*;
use crate::fees::{
    MAX_BETS_PER_USER, MAX_MARKETS_PER_WINDOW, MIN_BET, RATE_WINDOW_SECS, FeeSplit, claim_rewards,
    referral_request, split_stake, lemma_fee_parts, net_stake, platform_fee, referral_fee,
};
use crate::lemmas::{
    lemma_fee_total_push, lemma_fee_total_update, lemma_bet_index, lemma_stake_bounded,
    lemma_with_stake_inv, lemma_prefix_paid_bounded, lemma_settled_inv, lemma_share_bounded,
    lemma_fee_total_nonneg, lemma_update_keeps_sums, lemma_side_total_update,
    lemma_refundable_total_update, lemma_unclaimed_total_update, lemma_fees_withdrawn_inv,
    lemma_markets_update_inv, lemma_update_keeps_users,
};
use crate::model::{
    MarketState, bet_ok, payout_of, payout_total, refund_due, settle, stake_on, unclaimed_of,
};
use crate::sums::{lemma_sum_nonneg, lemma_sum_zeros};
use crate::types::{
    Bet, CancelState, Category, ClaimOutcome, Config, Market, MarketError, MarketView, PendingBet,
};

verus! {

/// The whole contract state.
pub struct PredictionMarket {
    admin: Option<u64>,
    config: Config,
    markets: Vec<Market>,
    resolvers: Vec<u64>,
    fee_recipients: Vec<u64>,
    accumulated_fees: i128,
    window_start: u64,
    window_count: u64,
    pending: Option<PendingBet>,
}

impl View for PredictionMarket {
    type V = MarketState;

    closed spec fn view(&self) -> MarketState {
        MarketState {
            admin: self.admin,
            config: self.config,
            markets: self.markets@.map_values(|m: Market| m@),
            resolvers: self.resolvers@,
            fee_recipients: self.fee_recipients@,
            accumulated_fees: self.accumulated_fees,
            window_start: self.window_start,
            window_count: self.window_count,
            pending: self.pending,
        }
    }
}

fn contains(v: &Vec<u64>, x: u64) -> (r: bool)
    ensures
        r == v@.contains(x),
{
    let mut i: usize = 0;
    while i < v.len()
        invariant
            i <= v.len(),
            forall|j: int| 0 <= j < i ==> v@[j] != x,
        decreases v.len() - i,
    {
        if v[i] == x {
            assert(v@[i as int] == x);
            return true;
        }
        i = i + 1;
    }
    false
}

/// Finds the position of `user` among `bets`.
fn find_bet(bets: &Vec<Bet>, user: u64) -> (r: Option<usize>)
    ensures
        r matches Some(i) ==> i < bets@.len() && bets@[i as int].user == user,
        r is None ==> forall|j: int| 0 <= j < bets@.len() ==> bets@[j].user != user,
{
    let mut i: usize = 0;
    while i < bets.len()
        invariant
            i <= bets.len(),
            forall|j: int| 0 <= j < i ==> bets@[j].user != user,
        decreases bets.len() - i,
    {
        if bets[i].user == user {
            return Some(i);
        }
        i = i + 1;
    }
    None
}

/// The positions with their held platform fees released.
fn release_held_fees(bets: &Vec<Bet>) -> (r: Vec<Bet>)
    ensures
        r@ == crate::model::release_held_fees(bets@),
{
    let mut r: Vec<Bet> = Vec::new();
    let mut i: usize = 0;
    while i < bets.len()
        invariant
            i <= bets.len(),
            r@ =~= crate::model::release_held_fees(bets@.take(i as int)),
        decreases bets.len() - i,
    {
        r.push(Bet { fee_held: 0, ..bets[i] });
        i = i + 1;
        proof {
            assert(bets@.take(i as int) =~= bets@.take(i - 1).push(bets@[i - 1]));
        }
    }
    proof {
        assert(bets@.take(i as int) =~= bets@);
    }
    r
}

/// Fixes every position's payout for `outcome`. Returns the settled
/// positions and the total paid out, or `None` when a payout product does not
/// fit in an `i128`.
fn settle_payouts(m: &Market, outcome: bool) -> (r: Option<(Vec<Bet>, i128)>)
    requires
        m@.inv(),
    ensures
        match r {
            Some((v, paid)) => v@ == m@.settled_bets(outcome) && paid == payout_total(v@) && 0 <= paid
                <= m@.pool() && forall|j: int|
                0 <= j < m@.bets.len() && (#[trigger] m@.bets[j]).is_yes == outcome
                    ==> m@.bets[j].amount * m@.pool() <= i128::MAX,
            None => !(forall|j: int|
                0 <= j < m@.bets.len() && (#[trigger] m@.bets[j]).is_yes == outcome
                    ==> m@.bets[j].amount * m@.pool() <= i128::MAX),
        },
{
    let ghost mv = m@;
    let pool = m.total_yes + m.total_no;
    let win = if outcome {
        m.total_yes
    } else {
        m.total_no
    };
    let ghost w = win as int;
    let mut settled: Vec<Bet> = Vec::new();
    let mut paid: i128 = 0;
    let mut i: usize = 0;
    proof {
        assert(mv.bets.take(0) =~= Seq::<Bet>::empty());
        assert(settle(mv.bets.take(0), outcome, pool as int, w) =~= Seq::<Bet>::empty());
        assert(settled@.map_values(|b: Bet| b.payout as int) =~= Seq::<int>::empty());
    }
    while i < m.bets.len()
        invariant
            m@ == mv,
            mv.inv(),
            pool == mv.pool(),
            win == mv.winning_total(outcome),
            w == win as int,
            i <= m.bets.len(),
            settled@ == settle(mv.bets.take(i as int), outcome, pool as int, w),
            paid == payout_total(settled@),
            0 <= paid <= pool,
            forall|j: int|
                0 <= j < i && (#[trigger] mv.bets[j]).is_yes == outcome ==> mv.bets[j].amount * pool
                    <= i128::MAX,
        decreases m.bets.len() - i,
    {
        let b = m.bets[i];
        proof {
            assert(m.bets@ == mv.bets);
            assert(b == mv.bets[i as int]);
        }
        let payout: i128 = if b.is_yes == outcome {
            match b.amount.checked_mul(pool) {
                Some(prod) => {
                    if win > 0 {
                        proof {
                            lemma_stake_bounded(mv, i as int);
                            assert(bet_ok(mv.bets[i as int], mv.cancelled));
                            lemma_share_bounded(b.amount as int, pool as int, w);
                        }
                        prod / win
                    } else {
                        0
                    }
                },
                None => {
                    proof {
                        assert(bet_ok(mv.bets[i as int], mv.cancelled));
                        assert(b.amount * pool >= 0) by (nonlinear_arith)
                            requires
                                b.amount >= 1,
                                pool >= 0,
                        ;
                        assert(mv.bets[i as int].is_yes == outcome && mv.bets[i as int].amount * pool
                            > i128::MAX);
                    }
                    return None;
                },
            }
        } else {
            0
        };
        proof {
            assert(payout == payout_of(b, outcome, pool as int, w));
            lemma_prefix_paid_bounded(mv, outcome, i + 1);
            assert(mv.bets.take(i + 1) =~= mv.bets.take(i as int).push(b));
            assert(settle(mv.bets.take(i + 1), outcome, pool as int, w) =~= settled@.push(
                Bet { payout, ..b },
            ));
            let pays = settled@.push(Bet { payout, ..b }).map_values(|b: Bet| b.payout as int);
            assert(pays.drop_last() =~= settled@.map_values(|b: Bet| b.payout as int));
        }
        settled.push(Bet { payout, ..b });
        paid = paid + payout;
        i = i + 1;
    }
    proof {
        assert(mv.bets.take(i as int) =~= mv.bets);
    }
    Some((settled, paid))
}

impl PredictionMarket {
    /// The contract is well formed.
    pub open spec fn wf(&self) -> bool {
        self@.inv()
    }

    /// A contract that has not been initialized yet.
    pub fn new() -> (s: Self)
        ensures
            s.wf(),
            s@ == (MarketState {
                admin: None,
                config: Config { token: 0, referral: 0, leaderboard: 0, xlm_sac: 0 },
                markets: Seq::empty(),
                resolvers: Seq::empty(),
                fee_recipients: Seq::empty(),
                accumulated_fees: 0,
                window_start: 0,
                window_count: 0,
                pending: None,
            }),
    {
        let s = PredictionMarket {
            admin: None,
            config: Config { token: 0, referral: 0, leaderboard: 0, xlm_sac: 0 },
            markets: Vec::new(),
            resolvers: Vec::new(),
            fee_recipients: Vec::new(),
            accumulated_fees: 0,
            window_start: 0,
            window_count: 0,
            pending: None,
        };
        proof {
            assert(s@.markets =~= Seq::<MarketView>::empty());
            lemma_sum_zeros(s@.markets.map_values(|m: MarketView| m.fees as int));
        }
        s
    }

    fn guard(&self) -> (r: Option<MarketError>)
        ensures
            r == self@.guard(),
    {
        if self.pending.is_some() {
            Some(MarketError::ReentrancyDetected)
        } else if self.admin.is_none() {
            Some(MarketError::NotInitialized)
        } else {
            None
        }
    }

    fn is_admin(&self, who: u64) -> (r: bool)
        ensures
            r == self@.is_admin(who),
    {
        match self.admin {
            Some(a) => a == who,
            None => false,
        }
    }

    fn admin_check(&self, caller: u64) -> (r: Option<MarketError>)
        ensures
            r == self@.admin_error(caller),
    {
        let g = self.guard();
        if g.is_some() {
            g
        } else if !self.is_admin(caller) {
            Some(MarketError::Unauthorized)
        } else {
            None
        }
    }

    /// Sets the administrator and the addresses of the contracts the market
    /// works with. Refused once the contract is initialized.
    pub fn initialize(&mut self, admin: u64, config: Config) -> (r: Result<(), MarketError>)
        requires
            old(self).wf(),
        ensures
            final(self).wf(),
            match r {
                Ok(()) => old(self)@.admin is None && final(self)@ == (MarketState {
                    admin: Some(admin),
                    config,
                    ..old(self)@
                }),
                Err(e) => old(self)@.admin is Some && e == MarketError::AlreadyInitialized
                    && final(self)@ == old(self)@,
            },
    {
        if self.admin.is_some() {
            return Err(MarketError::AlreadyInitialized);
        }
        self.admin = Some(admin);
        self.config = config;
        Ok(())
    }

    /// The addresses of the contracts the market works with.
    pub fn get_config(&self) -> (r: Result<Config, MarketError>)
        ensures
            match r {
                Ok(c) => self@.admin is Some && c == self@.config,
                Err(e) => self@.admin is None && e == MarketError::NotInitialized,
            },
    {
        if self.admin.is_none() {
            Err(MarketError::NotInitialized)
        } else {
            Ok(self.config)
        }
    }

    /// Replaces the addresses of the contracts the market works with.
    pub fn set_config(&mut self, caller: u64, config: Config) -> (r: Result<(), MarketError>)
        requires
            old(self).wf(),
        ensures
            final(self).wf(),
            match r {
                Ok(()) => old(self)@.admin_error(caller) is None && final(self)@ == (MarketState {
                    config,
                    ..old(self)@
                }),
                Err(e) => old(self)@.admin_error(caller) == Some(e) && final(self)@ == old(self)@,
            },
    {
        if let Some(e) = self.admin_check(caller) {
            return Err(e);
        }
        self.config = config;
        Ok(())
    }

    /// Lets `resolver` resolve markets.
    pub fn add_resolver(&mut self, caller: u64, resolver: u64) -> (r: Result<(), MarketError>)
        requires
            old(self).wf(),
        ensures
            final(self).wf(),
            match r {
                Ok(()) => old(self)@.admin_error(caller) is None && final(self)@ == (MarketState {
                    resolvers: if old(self)@.resolvers.contains(resolver) {
                        old(self)@.resolvers
                    } else {
                        old(self)@.resolvers.push(resolver)
                    },
                    ..old(self)@
                }),
                Err(e) => old(self)@.admin_error(caller) == Some(e) && final(self)@ == old(self)@,
            },
    {
        if let Some(e) = self.admin_check(caller) {
            return Err(e);
        }
        if !contains(&self.resolvers, resolver) {
            self.resolvers.push(resolver);
        }
        Ok(())
    }

    /// Whether `who` may resolve markets besides the administrator.
    pub fn is_resolver(&self, who: u64) -> (r: bool)
        ensures
            r == self@.resolvers.contains(who),
    {
        contains(&self.resolvers, who)
    }

    /// Lets `recipient` withdraw the accumulated fees.
    pub fn add_fee_recipient(&mut self, caller: u64, recipient: u64) -> (r: Result<(), MarketError>)
        requires
            old(self).wf(),
        ensures
            final(self).wf(),
            match r {
                Ok(()) => old(self)@.admin_error(caller) is None && final(self)@ == (MarketState {
                    fee_recipients: if old(self)@.fee_recipients.contains(recipient) {
                        old(self)@.fee_recipients
                    } else {
                        old(self)@.fee_recipients.push(recipient)
                    },
                    ..old(self)@
                }),
                Err(e) => old(self)@.admin_error(caller) == Some(e) && final(self)@ == old(self)@,
            },
    {
        if let Some(e) = self.admin_check(caller) {
            return Err(e);
        }
        if !contains(&self.fee_recipients, recipient) {
            self.fee_recipients.push(recipient);
        }
        Ok(())
    }

    /// Whether `who` may withdraw fees besides the administrator.
    pub fn is_fee_recipient(&self, who: u64) -> (r: bool)
        ensures
            r == self@.fee_recipients.contains(who),
    {
        contains(&self.fee_recipients, who)
    }

    /// The fees the market holds for the platform.
    pub fn get_accumulated_fees(&self) -> (r: i128)
        ensures
            r == self@.accumulated_fees,
    {
        self.accumulated_fees
    }

    /// How many markets were created.
    pub fn get_market_count(&self) -> (r: u64)
        requires
            self.wf(),
        ensures
            r == self@.markets.len(),
    {
        proof {
            if self@.markets.len() > 0 {
                let k = self@.markets.len() - 1;
                assert(self@.markets[k].id == k + 1);
            }
        }
        self.markets.len() as u64
    }

    /// Whether a stake waits for the referral registry's answer.
    pub fn is_bet_pending(&self) -> (r: bool)
        ensures
            r == self@.pending is Some,
    {
        self.pending.is_some()
    }

    /// The market with identifier `id`.
    pub fn get_market(&self, id: u64) -> (r: Result<&Market, MarketError>)
        ensures
            match r {
                Ok(m) => self@.has_market(id) && m@ == self@.market(id),
                Err(e) => !self@.has_market(id) && e == MarketError::MarketNotFound,
            },
    {
        if id == 0 || id > self.markets.len() as u64 {
            return Err(MarketError::MarketNotFound);
        }
        Ok(&self.markets[(id - 1) as usize])
    }

    /// Locates the market `id` and the position of `user` in it.
    fn locate(&self, id: u64, user: u64) -> (r: Option<(usize, usize)>)
        requires
            self.wf(),
        ensures
            match r {
                Some((mi, bi)) => self@.has_market(id) && mi == id - 1 && self@.market(id).has_bet(user)
                    && bi == self@.market(id).bet_idx(user) && bi < self@.market(id).bets.len(),
                None => !self@.has_market(id) || !self@.market(id).has_bet(user),
            },
    {
        if id == 0 || id > self.markets.len() as u64 {
            return None;
        }
        let mi = (id - 1) as usize;
        let found = find_bet(&self.markets[mi].bets, user);
        match found {
            Some(bi) => {
                proof {
                    assert(self@.markets[mi as int] == self.markets@[mi as int]@);
                    lemma_bet_index(self@.market(id), bi as int, user);
                }
                Some((mi, bi))
            },
            None => {
                proof {
                    let m = self@.market(id);
                    assert(m == self.markets@[mi as int]@);
                    assert forall|j: int| 0 <= j < m.bets.len() implies m.bets[j].user != user by {}
                }
                None
            },
        }
    }

    /// The position of `user` in market `id`.
    pub fn get_bet(&self, id: u64, user: u64) -> (r: Result<Bet, MarketError>)
        requires
            self.wf(),
        ensures
            match r {
                Ok(b) => self@.has_market(id) && self@.market(id).has_bet(user) && b == self@.market(
                    id,
                ).bet_of(user),
                Err(e) => (!self@.has_market(id) && e == MarketError::MarketNotFound) || (
                self@.has_market(id) && !self@.market(id).has_bet(user) && e
                    == MarketError::NoBetFound),
            },
    {
        if id == 0 || id > self.markets.len() as u64 {
            return Err(MarketError::MarketNotFound);
        }
        match self.locate(id, user) {
            Some((mi, bi)) => Ok(self.markets[mi].bets[bi]),
            None => Err(MarketError::NoBetFound),
        }
    }

    /// Everything `user` has put into market `id` and not had refunded (0
    /// when there is no such position).
    pub fn get_bet_gross(&self, id: u64, user: u64) -> (r: i128)
        requires
            self.wf(),
        ensures
            r == if self@.has_market(id) && self@.market(id).has_bet(user) {
                self@.market(id).bet_of(user).gross
            } else {
                0
            },
    {
        match self.locate(id, user) {
            Some((mi, bi)) => self.markets[mi].bets[bi].gross,
            None => 0,
        }
    }

    /// The pool share fixed for `user` when market `id` resolved (0 for
    /// losers, unresolved markets and unknown positions).
    pub fn get_payout(&self, id: u64, user: u64) -> (r: i128)
        requires
            self.wf(),
        ensures
            r == if self@.has_market(id) && self@.market(id).has_bet(user) {
                self@.market(id).bet_of(user).payout
            } else {
                0
            },
    {
        match self.locate(id, user) {
            Some((mi, bi)) => self.markets[mi].bets[bi].payout,
            None => 0,
        }
    }

    /// What `user` would get back from market `id` if it is (or were)
    /// cancelled.
    pub fn get_refundable(&self, id: u64, user: u64) -> (r: i128)
        requires
            self.wf(),
        ensures
            r == if self@.has_market(id) && self@.market(id).has_bet(user) {
                refund_due(self@.market(id).bet_of(user))
            } else {
                0
            },
    {
        match self.locate(id, user) {
            Some((mi, bi)) => {
                let m = &self.markets[mi];
                let b = m.bets[bi];
                proof {
                    assert(self@.market(id) == m@);
                    assert(self@.market(id).inv());
                    assert(bet_ok(self@.market(id).bets[bi as int], self@.market(id).cancelled));
                    lemma_stake_bounded(self@.market(id), bi as int);
                }
                if b.gross == 0 {
                    0
                } else {
                    b.amount + b.fee_held
                }
            },
            None => 0,
        }
    }

    /// The refund state of market `id`, present once it is cancelled.
    pub fn get_cancel_state(&self, id: u64) -> (r: Option<CancelState>)
        requires
            self.wf(),
        ensures
            r == if self@.has_market(id) && self@.market(id).cancelled {
                Some(CancelState { refundable_remaining: self@.market(id).refundable })
            } else {
                None::<CancelState>
            },
    {
        if id == 0 || id > self.markets.len() as u64 {
            return None;
        }
        let m = &self.markets[(id - 1) as usize];
        if m.cancelled {
            Some(CancelState { refundable_remaining: m.refundable })
        } else {
            None
        }
    }

    /// The accounts that staked on market `id`, in the order they first did.
    pub fn get_market_bettors(&self, id: u64) -> (r: Result<Vec<u64>, MarketError>)
        requires
            self.wf(),
        ensures
            match r {
                Ok(v) => self@.has_market(id) && v@ == self@.market(id).bets.map_values(|b: Bet| b.user),
                Err(e) => !self@.has_market(id) && e == MarketError::MarketNotFound,
            },
    {
        if id == 0 || id > self.markets.len() as u64 {
            return Err(MarketError::MarketNotFound);
        }
        let bets = &self.markets[(id - 1) as usize].bets;
        let mut v: Vec<u64> = Vec::new();
        let mut i: usize = 0;
        while i < bets.len()
            invariant
                i <= bets.len(),
                v@ =~= bets@.take(i as int).map_values(|b: Bet| b.user),
            decreases bets.len() - i,
        {
            v.push(bets[i].user);
            i = i + 1;
            proof {
                assert(bets@.take(i as int).map_values(|b: Bet| b.user) =~= bets@.take(i - 1).map_values(
                    |b: Bet| b.user,
                ).push(bets@[i - 1].user));
            }
        }
        proof {
            assert(bets@.take(i as int) =~= bets@);
            assert(self@.market(id) == self.markets@[id - 1]@);
        }
        Ok(v)
    }

    /// Creates a market that takes stakes for `duration` seconds from `now`.
    /// Only the administrator may create markets, at most
    /// `MAX_MARKETS_PER_WINDOW` per rate-limit window. Returns the new
    /// market's identifier: the number of markets created so far.
    pub fn create_market(
        &mut self,
        caller: u64,
        title: String,
        image_url: String,
        category: Category,
        duration: u64,
        now: u64,
    ) -> (r: Result<u64, MarketError>)
        requires
            old(self).wf(),
        ensures
            final(self).wf(),
            match r {
                Ok(id) => old(self)@.create_error(caller, duration, now) is None && id == old(self)@.markets.len() + 1 && final(self)@ == old(self)@.after_create(
                    caller,
                    title@,
                    image_url@,
                    category,
                    duration,
                    now,
                ),
                Err(e) => old(self)@.create_error(caller, duration, now) == Some(e) && final(self)@
                    == old(self)@,
            },
    {
        if let Some(e) = self.admin_check(caller) {
            return Err(e);
        }
        let expired = now >= self.window_start && now - self.window_start >= RATE_WINDOW_SECS;
        let count = if expired {
            0
        } else {
            self.window_count
        };
        if count >= MAX_MARKETS_PER_WINDOW {
            return Err(MarketError::RateLimitExceeded);
        }
        if duration > u64::MAX - now || self.markets.len() as u64 >= u64::MAX {
            return Err(MarketError::ArithmeticOverflow);
        }
        let id = self.markets.len() as u64 + 1;
        let ghost old_state = self@;
        let ghost new_view = old_state.new_market(caller, title@, image_url@, category, duration, now);
        let m = Market {
            id,
            creator: caller,
            title,
            image_url,
            category,
            end_time: now + duration,
            total_yes: 0,
            total_no: 0,
            resolved: false,
            outcome: false,
            cancelled: false,
            bet_count: 0,
            fees: 0,
            refundable: 0,
            balance: 0,
            bets: Vec::new(),
        };
        assert(m@ =~= new_view);
        self.markets.push(m);
        if expired {
            self.window_start = now;
        }
        self.window_count = count + 1;
        proof {
            assert(self@.markets =~= old_state.markets.push(new_view));
            lemma_fee_total_push(old_state.markets, new_view);
            assert(new_view.bets.map_values(|b: Bet| stake_on(b, true)) =~= Seq::<int>::empty());
            assert(new_view.bets.map_values(|b: Bet| stake_on(b, false)) =~= Seq::<int>::empty());
            assert(new_view.bets.map_values(|b: Bet| refund_due(b)) =~= Seq::<int>::empty());
            assert(new_view.bets.map_values(|b: Bet| b.fee_held as int) =~= Seq::<int>::empty());
            assert(new_view.inv());
            assert(self@ =~= old_state.after_create(caller, title@, image_url@, category, duration, now));
        }
        Ok(id)
    }

    /// Checks a stake of `gross` by `user` on `is_yes` in market `id` at time
    /// `now` and, if it is admissible, locks the market until the referral
    /// registry has answered (`finish_bet`) or the host gave up
    /// (`abort_bet`). The returned request names the referral fee the
    /// registry is asked to pay out.
    pub fn begin_bet(&mut self, user: u64, id: u64, is_yes: bool, gross: i128, now: u64) -> (r: Result<
        PendingBet,
        MarketError,
    >)
        requires
            old(self).wf(),
        ensures
            final(self).wf(),
            match r {
                Ok(p) => old(self)@.bet_error(user, id, is_yes, gross, now) is None && p
                    == MarketState::pending_for(user, id, is_yes, gross) && final(self)@ == (
                MarketState { pending: Some(p), ..old(self)@ }),
                Err(e) => old(self)@.bet_error(user, id, is_yes, gross, now) == Some(e) && final(self)@ == old(self)@,
            },
    {
        if let Some(e) = self.guard() {
            return Err(e);
        }
        if gross < MIN_BET {
            return Err(MarketError::BetTooSmall);
        }
        if id == 0 || id > self.markets.len() as u64 {
            return Err(MarketError::MarketNotFound);
        }
        let mi = (id - 1) as usize;
        let ghost mv = self@.market(id);
        proof {
            assert(mv == self.markets@[mi as int]@);
            assert(mv.inv());
        }
        let m = &self.markets[mi];
        if m.cancelled {
            return Err(MarketError::MarketCancelled);
        }
        if m.resolved {
            return Err(MarketError::MarketAlreadyResolved);
        }
        if now >= m.end_time {
            return Err(MarketError::MarketExpired);
        }
        let found = find_bet(&m.bets, user);
        match found {
            Some(bi) => {
                proof {
                    lemma_bet_index(mv, bi as int, user);
                    assert(bet_ok(mv.bets[bi as int], mv.cancelled));
                }
                let b = m.bets[bi];
                if b.is_yes != is_yes {
                    return Err(MarketError::OppositeSide);
                }
                if b.placements >= MAX_BETS_PER_USER {
                    return Err(MarketError::TooManyBets);
                }
                if gross > i128::MAX - b.gross {
                    return Err(MarketError::ArithmeticOverflow);
                }
            },
            None => {
                proof {
                    assert forall|j: int| 0 <= j < mv.bets.len() implies mv.bets[j].user != user by {}
                }
                if m.bet_count == u32::MAX {
                    return Err(MarketError::ArithmeticOverflow);
                }
            },
        }
        if gross > i128::MAX - (m.total_yes + m.total_no) || gross > i128::MAX - m.refundable || gross
            > i128::MAX - m.fees || gross > i128::MAX - m.balance {
            return Err(MarketError::ArithmeticOverflow);
        }
        if gross > i128::MAX - self.accumulated_fees {
            return Err(MarketError::ArithmeticOverflow);
        }
        let p = PendingBet {
            market_id: id,
            user,
            is_yes,
            gross,
            referral_fee: referral_request(gross),
        };
        self.pending = Some(p);
        proof {
            assert(self@ =~= MarketState { pending: Some(p), ..old(self)@ });
        }
        Ok(p)
    }

    /// Releases the lock taken by `begin_bet` without booking the stake, for
    /// when the host could not complete it.
    pub fn abort_bet(&mut self)
        requires
            old(self).wf(),
        ensures
            final(self).wf(),
            final(self)@ == (MarketState { pending: None, ..old(self)@ }),
    {
        self.pending = None;
        proof {
            assert(self@ =~= MarketState { pending: None, ..old(self)@ });
        }
    }

    /// Books the pending stake, given the referral registry's answer
    /// (`credited`: whether it paid the referral fee to a referrer), and
    /// releases the lock. Returns how the stake was divided.
    pub fn finish_bet(&mut self, credited: bool) -> (r: Result<FeeSplit, MarketError>)
        requires
            old(self).wf(),
        ensures
            final(self).wf(),
            match r {
                Ok(split) => old(self)@.pending matches Some(p) && final(self)@ == old(self)@.apply_stake(
                    p,
                    credited,
                ) && split == (FeeSplit {
                    net: net_stake(p.gross as int) as i128,
                    platform_fee: platform_fee(p.gross as int, credited) as i128,
                    referral_fee: referral_fee(p.gross as int, credited) as i128,
                }),
                Err(e) => old(self)@.pending is None && e == MarketError::NoPendingBet && final(self)@
                    == old(self)@,
            },
    {
        let p = match self.pending {
            Some(p) => p,
            None => {
                return Err(MarketError::NoPendingBet);
            },
        };
        let ghost old_state = self@;
        let ghost mv = old_state.market(p.market_id);
        proof {
            assert(old_state.pending == Some(p));
            assert(old_state.pending_ok(p));
            assert(self.markets@.len() == old_state.markets.len());
            assert(p.market_id - 1 < self.markets.len());
        }
        let mi = (p.market_id - 1) as usize;
        proof {
            assert(mv == self.markets@[mi as int]@);
            assert(mv.inv());
            lemma_fee_parts(p.gross as int, credited);
            lemma_with_stake_inv(mv, p.user, p.is_yes, p.gross, credited);
        }
        let split = split_stake(p.gross, credited);
        let found = find_bet(&self.markets[mi].bets, p.user);
        let ghost nv = mv.with_stake(p.user, p.is_yes, p.gross, credited);
        match found {
            Some(bi) => {
                proof {
                    lemma_bet_index(mv, bi as int, p.user);
                    lemma_stake_bounded(mv, bi as int);
                }
            },
            None => {
                proof {
                    assert forall|j: int| 0 <= j < mv.bets.len() implies mv.bets[j].user != p.user by {}
                }
            },
        }
        {
            let m = &mut self.markets[mi];
            if p.is_yes {
                m.total_yes = m.total_yes + split.net;
            } else {
                m.total_no = m.total_no + split.net;
            }
            m.fees = m.fees + split.platform_fee;
            m.refundable = m.refundable + (p.gross - split.referral_fee);
            m.balance = m.balance + (p.gross - split.referral_fee);
            match found {
                Some(bi) => {
                    let b = m.bets[bi];
                    m.bets.set(
                        bi,
                        Bet {
                            amount: b.amount + split.net,
                            gross: b.gross + p.gross,
                            referral_paid: b.referral_paid + split.referral_fee,
                            fee_held: b.fee_held + split.platform_fee,
                            placements: b.placements + 1,
                            ..b
                        },
                    );
                },
                None => {
                    m.bets.push(
                        Bet {
                            user: p.user,
                            is_yes: p.is_yes,
                            amount: split.net,
                            gross: p.gross,
                            referral_paid: split.referral_fee,
                            fee_held: split.platform_fee,
                            placements: 1,
                            claimed: false,
                            payout: 0,
                        },
                    );
                    m.bet_count = m.bet_count + 1;
                },
            }
            assert(m@ =~= nv);
        }
        self.accumulated_fees = self.accumulated_fees + split.platform_fee;
        self.pending = None;
        proof {
            assert(self@.markets =~= old_state.markets.update(mi as int, nv));
            lemma_fee_total_update(old_state.markets, mi as int, nv);
            assert(self@ =~= old_state.apply_stake(p, credited));
            lemma_markets_update_inv(old_state.markets, mi as int, nv);
        }
        Ok(split)
    }

    /// Checks and books a stake in one step, given the referral registry's
    /// answer for it.
    pub fn place_bet(
        &mut self,
        user: u64,
        id: u64,
        is_yes: bool,
        gross: i128,
        now: u64,
        credited: bool,
    ) -> (r: Result<FeeSplit, MarketError>)
        requires
            old(self).wf(),
        ensures
            final(self).wf(),
            match r {
                Ok(split) => old(self)@.bet_error(user, id, is_yes, gross, now) is None && final(self)@
                    == old(self)@.apply_stake(MarketState::pending_for(user, id, is_yes, gross), credited)
                    && split == (FeeSplit {
                    net: net_stake(gross as int) as i128,
                    platform_fee: platform_fee(gross as int, credited) as i128,
                    referral_fee: referral_fee(gross as int, credited) as i128,
                }),
                Err(e) => old(self)@.bet_error(user, id, is_yes, gross, now) == Some(e) && final(self)@
                    == old(self)@,
            },
    {
        let ghost start = self@;
        let _p = self.begin_bet(user, id, is_yes, gross, now)?;
        let ghost mid = self@;
        let r = self.finish_bet(credited);
        proof {
            let p = MarketState::pending_for(user, id, is_yes, gross);
            assert(mid.apply_stake(p, credited) =~= start.apply_stake(p, credited));
        }
        r
    }

    /// Resolves market `id` to `outcome`, by the administrator or a
    /// resolver, once staking has closed. Fixes every winner's payout as
    /// `stake * pool / winning_total` (rounded down) and sweeps what is left
    /// over (the rounding dust, or the whole pool when nobody backed the
    /// outcome) into the fees. Returns the amount swept.
    pub fn resolve_market(&mut self, caller: u64, id: u64, outcome: bool, now: u64) -> (r: Result<
        i128,
        MarketError,
    >)
        requires
            old(self).wf(),
        ensures
            final(self).wf(),
            match r {
                Ok(swept) => old(self)@.resolve_error(caller, id, outcome, now) is None && swept == old(self)@.market(id).dust(outcome)
                    && final(self)@ == old(self)@.after_resolve(id, outcome),
                Err(e) => old(self)@.resolve_error(caller, id, outcome, now) == Some(e) && final(self)@ == old(self)@,
            },
    {
        if let Some(e) = self.guard() {
            return Err(e);
        }
        if !(self.is_admin(caller) || contains(&self.resolvers, caller)) {
            return Err(MarketError::NotResolver);
        }
        if id == 0 || id > self.markets.len() as u64 {
            return Err(MarketError::MarketNotFound);
        }
        let mi = (id - 1) as usize;
        let ghost old_state = self@;
        let ghost mv = old_state.market(id);
        proof {
            assert(mv == self.markets@[mi as int]@);
            assert(mv.inv());
        }
        let m = &self.markets[mi];
        if m.cancelled {
            return Err(MarketError::MarketCancelled);
        }
        if m.resolved {
            return Err(MarketError::MarketAlreadyResolved);
        }
        if now < m.end_time {
            return Err(MarketError::MarketNotExpired);
        }
        let pool = m.total_yes + m.total_no;
        let (settled, paid) = match settle_payouts(m, outcome) {
            Some(x) => x,
            None => {
                return Err(MarketError::ArithmeticOverflow);
            },
        };
        proof {
            assert(mv.dust(outcome) == pool - paid);
        }
        let dust = pool - paid;
        if m.fees > i128::MAX - dust || self.accumulated_fees > i128::MAX - dust {
            return Err(MarketError::ArithmeticOverflow);
        }
        proof {
            assert(mv.settlement_fits(outcome));
            lemma_settled_inv(mv, outcome);
        }
        {
            let m = &mut self.markets[mi];
            m.bets = settled;
            m.resolved = true;
            m.outcome = outcome;
            m.fees = m.fees + dust;
            assert(m@ =~= mv.settled(outcome));
        }
        self.accumulated_fees = self.accumulated_fees + dust;
        proof {
            assert(self@.markets =~= old_state.markets.update(mi as int, mv.settled(outcome)));
            lemma_fee_total_update(old_state.markets, mi as int, mv.settled(outcome));
            assert(self@ =~= old_state.after_resolve(id, outcome));
            lemma_markets_update_inv(old_state.markets, mi as int, mv.settled(outcome));
        }
        Ok(dust)
    }

    /// Claims `user`'s share of resolved market `id`: the payout fixed at
    /// resolution (0 for a loser) and the reward tier for a win or a loss.
    /// Each position can be claimed once.
    pub fn claim(&mut self, user: u64, id: u64) -> (r: Result<ClaimOutcome, MarketError>)
        requires
            old(self).wf(),
        ensures
            final(self).wf(),
            match r {
                Ok(o) => old(self)@.claim_error(user, id) is None && o == old(self)@.claim_outcome(user, id)
                    && final(self)@ == old(self)@.after_claim(user, id),
                Err(e) => old(self)@.claim_error(user, id) == Some(e) && final(self)@ == old(self)@,
            },
    {
        if let Some(e) = self.guard() {
            return Err(e);
        }
        if id == 0 || id > self.markets.len() as u64 {
            return Err(MarketError::MarketNotFound);
        }
        let mi = (id - 1) as usize;
        let ghost old_state = self@;
        let ghost mv = old_state.market(id);
        proof {
            assert(mv == self.markets@[mi as int]@);
            assert(mv.inv());
        }
        if self.markets[mi].cancelled {
            return Err(MarketError::MarketCancelled);
        }
        if !self.markets[mi].resolved {
            return Err(MarketError::MarketNotResolved);
        }
        let bi = match self.locate(id, user) {
            Some((_, bi)) => bi,
            None => {
                return Err(MarketError::NoBetFound);
            },
        };
        let b = self.markets[mi].bets[bi];
        if b.claimed {
            return Err(MarketError::AlreadyClaimed);
        }
        let won = b.is_yes == self.markets[mi].outcome;
        let (tokens, points) = claim_rewards(won);
        let nb = Bet { claimed: true, ..b };
        let ghost nv = MarketView {
            bets: mv.bets.update(bi as int, nb),
            balance: (mv.balance - b.payout) as i128,
            ..mv
        };
        proof {
            assert(bet_ok(mv.bets[bi as int], mv.cancelled));
            lemma_unclaimed_total_update(mv.bets, bi as int, nb);
            let u = nv.bets.map_values(|b: Bet| unclaimed_of(b));
            assert forall|j: int| 0 <= j < u.len() implies u[j] >= 0 by {
                if j != bi {
                    assert(bet_ok(mv.bets[j], mv.cancelled));
                }
            }
            lemma_sum_nonneg(u);
        }
        {
            let m = &mut self.markets[mi];
            m.bets.set(bi, nb);
            m.balance = m.balance - b.payout;
            assert(m@ =~= nv);
        }
        proof {
            lemma_update_keeps_sums(mv.bets, bi as int, nb);
            lemma_update_keeps_users(mv, nv, bi as int, nb);
            assert forall|j: int| 0 <= j < nv.bets.len() implies bet_ok(#[trigger] nv.bets[j], nv.cancelled) by {
                assert(bet_ok(mv.bets[j], mv.cancelled));
            }
            assert forall|j: int| 0 <= j < nv.bets.len() implies (#[trigger] nv.bets[j]).payout
                == payout_of(nv.bets[j], nv.outcome, nv.pool(), nv.winning_total(nv.outcome)) by {
                assert(mv.bets[j].payout == payout_of(
                    mv.bets[j],
                    mv.outcome,
                    mv.pool(),
                    mv.winning_total(mv.outcome),
                ));
            }
            assert(nv.inv());
            assert(self@.markets =~= old_state.markets.update(mi as int, nv));
            lemma_fee_total_update(old_state.markets, mi as int, nv);
            assert(self@ =~= old_state.after_claim(user, id));
            lemma_markets_update_inv(old_state.markets, mi as int, nv);
        }
        Ok(ClaimOutcome { payout: b.payout, won, reward_tokens: tokens, reward_points: points })
    }

    /// Cancels market `id` (administrator only). While none of its fee share
    /// was withdrawn, that share leaves the accumulated fees and goes back to
    /// the bettors through `cancel_refund`; once some was, the refunds are the
    /// net stakes and the fee share stays with the platform.
    pub fn cancel_market(&mut self, caller: u64, id: u64) -> (r: Result<(), MarketError>)
        requires
            old(self).wf(),
        ensures
            final(self).wf(),
            match r {
                Ok(()) => old(self)@.cancel_error(caller, id) is None && final(self)@ == old(self)@.after_cancel(id),
                Err(e) => old(self)@.cancel_error(caller, id) == Some(e) && final(self)@ == old(self)@,
            },
    {
        if let Some(e) = self.admin_check(caller) {
            return Err(e);
        }
        if id == 0 || id > self.markets.len() as u64 {
            return Err(MarketError::MarketNotFound);
        }
        let mi = (id - 1) as usize;
        let ghost old_state = self@;
        let ghost mv = old_state.market(id);
        proof {
            assert(mv == self.markets@[mi as int]@);
            assert(mv.inv());
        }
        if self.markets[mi].resolved {
            return Err(MarketError::MarketAlreadyResolved);
        }
        if self.markets[mi].cancelled {
            return Err(MarketError::MarketCancelled);
        }
        let reclaimed = self.markets[mi].fees;
        let ghost nv = MarketView { cancelled: true, fees: 0, ..mv };
        {
            let m = &mut self.markets[mi];
            m.cancelled = true;
            m.fees = 0;
            assert(m@ =~= nv);
        }
        proof {
            assert forall|j: int| 0 <= j < nv.bets.len() implies bet_ok(#[trigger] nv.bets[j], nv.cancelled) by {
                assert(bet_ok(mv.bets[j], mv.cancelled));
            }
            assert(nv.inv());
            assert(self@.markets =~= old_state.markets.update(mi as int, nv));
            lemma_fee_total_update(old_state.markets, mi as int, nv);
            lemma_markets_update_inv(old_state.markets, mi as int, nv);
            lemma_fee_total_nonneg(self@.markets);
        }
        self.accumulated_fees = self.accumulated_fees - reclaimed;
        proof {
            assert(self@ =~= old_state.after_cancel(id));
        }
        Ok(())
    }

    /// Pays `user` back from cancelled market `id`: everything it staked,
    /// except referral fees already paid out, or its net stake when part of
    /// the market's fee share had been withdrawn. Each position is refunded
    /// once.
    pub fn cancel_refund(&mut self, user: u64, id: u64) -> (r: Result<i128, MarketError>)
        requires
            old(self).wf(),
        ensures
            final(self).wf(),
            match r {
                Ok(amount) => old(self)@.refund_error(user, id) is None && amount == old(self)@.refund_amount(user, id)
                    && final(self)@ == old(self)@.after_refund(user, id),
                Err(e) => old(self)@.refund_error(user, id) == Some(e) && final(self)@ == old(self)@,
            },
    {
        if let Some(e) = self.guard() {
            return Err(e);
        }
        if id == 0 || id > self.markets.len() as u64 {
            return Err(MarketError::MarketNotFound);
        }
        let mi = (id - 1) as usize;
        let ghost old_state = self@;
        let ghost mv = old_state.market(id);
        proof {
            assert(mv == self.markets@[mi as int]@);
            assert(mv.inv());
        }
        if !self.markets[mi].cancelled {
            return Err(MarketError::MarketNotCancelled);
        }
        let bi = match self.locate(id, user) {
            Some((_, bi)) => bi,
            None => {
                return Err(MarketError::NoBetFound);
            },
        };
        let b = self.markets[mi].bets[bi];
        if b.gross == 0 {
            return Err(MarketError::NoBetFound);
        }
        proof {
            assert(bet_ok(mv.bets[bi as int], mv.cancelled));
            lemma_stake_bounded(mv, bi as int);
        }
        let amount = b.amount + b.fee_held;
        let nb = Bet { gross: 0, referral_paid: 0, fee_held: 0, ..b };
        let ghost nv = MarketView {
            bets: mv.bets.update(bi as int, nb),
            refundable: (mv.refundable - refund_due(b)) as i128,
            balance: (mv.balance - refund_due(b)) as i128,
            ..mv
        };
        {
            let m = &mut self.markets[mi];
            m.bets.set(bi, nb);
            m.refundable = m.refundable - amount;
            m.balance = m.balance - amount;
            assert(m@ =~= nv);
        }
        proof {
            lemma_side_total_update(mv.bets, bi as int, nb, true);
            lemma_side_total_update(mv.bets, bi as int, nb, false);
            lemma_refundable_total_update(mv.bets, bi as int, nb);
            lemma_update_keeps_users(mv, nv, bi as int, nb);
            assert forall|j: int| 0 <= j < nv.bets.len() implies bet_ok(#[trigger] nv.bets[j], nv.cancelled) by {
                assert(bet_ok(mv.bets[j], mv.cancelled));
            }
            assert forall|j: int| 0 <= j < nv.bets.len() implies (#[trigger] nv.bets[j]).payout == 0
                && !nv.bets[j].claimed by {
                assert(mv.bets[j].payout == 0 && !mv.bets[j].claimed);
            }
            assert(nv.inv());
            assert(self@.markets =~= old_state.markets.update(mi as int, nv));
            lemma_fee_total_update(old_state.markets, mi as int, nv);
            assert(self@ =~= old_state.after_refund(user, id));
            lemma_markets_update_inv(old_state.markets, mi as int, nv);
        }
        Ok(amount)
    }

    /// Withdraws every accumulated fee, by the administrator or a fee
    /// recipient. Returns the amount withdrawn. An open market whose fee
    /// share is withdrawn refunds only net stakes if it is later cancelled.
    pub fn withdraw_fees(&mut self, caller: u64) -> (r: Result<i128, MarketError>)
        requires
            old(self).wf(),
        ensures
            final(self).wf(),
            match r {
                Ok(amount) => old(self)@.withdraw_error(caller) is None && amount == old(self)@.accumulated_fees
                    && final(self)@ == old(self)@.after_withdraw(),
                Err(e) => old(self)@.withdraw_error(caller) == Some(e) && final(self)@ == old(self)@,
            },
    {
        if let Some(e) = self.guard() {
            return Err(e);
        }
        if !(self.is_admin(caller) || contains(&self.fee_recipients, caller)) {
            return Err(MarketError::NotFeeRecipient);
        }
        if self.accumulated_fees == 0 {
            return Err(MarketError::NoFeesToWithdraw);
        }
        let ghost old_state = self@;
        let ghost target = old_state.after_withdraw();
        let amount = self.accumulated_fees;
        let mut i: usize = 0;
        while i < self.markets.len()
            invariant
                i <= self.markets.len(),
                target == old_state.after_withdraw(),
                old_state.inv(),
                self.markets@.len() == old_state.markets.len(),
                forall|j: int| 0 <= j < i ==> (#[trigger] self.markets@[j])@ == target.markets[j],
                forall|j: int| i <= j < self.markets@.len() ==> (#[trigger] self.markets@[j])@ == old_state.markets[j],
                self.admin == old_state.admin,
                self.config == old_state.config,
                self.resolvers@ == old_state.resolvers,
                self.fee_recipients@ == old_state.fee_recipients,
                self.window_start == old_state.window_start,
                self.window_count == old_state.window_count,
                self.pending == old_state.pending,
            decreases self.markets.len() - i,
        {
            proof {
                assert(self.markets@[i as int]@ == old_state.markets[i as int]);
            }
            proof {
                assert(old_state.markets[i as int].inv());
                lemma_fees_withdrawn_inv(old_state.markets[i as int]);
            }
            let m = &mut self.markets[i];
            let f = m.fees;
            if !m.resolved && !m.cancelled {
                let released = release_held_fees(&m.bets);
                m.bets = released;
                m.refundable = m.refundable - f;
            }
            m.balance = m.balance - f;
            m.fees = 0;
            proof {
                assert(m@ =~= target.markets[i as int]);
            }
            i = i + 1;
        }
        self.accumulated_fees = 0;
        proof {
            assert(self@.markets =~= target.markets);
            assert(self@ =~= target);
            let f = target.markets.map_values(|m: MarketView| m.fees as int);
            assert forall|j: int| 0 <= j < f.len() implies f[j] == 0 by {}
            lemma_sum_zeros(f);
            assert forall|k: int| 0 <= k < self@.markets.len() implies (#[trigger] self@.markets[k]).id
                == k + 1 && self@.markets[k].inv() by {
                assert(old_state.markets[k].inv());
                lemma_fees_withdrawn_inv(old_state.markets[k]);
            }
        }
        Ok(amount)
    }
}

} // verus!
