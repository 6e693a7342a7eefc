//! A referral registry that, when asked to credit a referrer, stakes again
//! on the market that asked it, while that market is still booking the
//! first stake. It never credits anyone. The market must refuse the nested
//! stake, so that a stake is never counted twice.

use vstd::prelude::*;
use crate::market::PredictionMarket;

verus! {

/// Storage keys of the registry.
#[derive(Clone, Copy, Debug, PartialEq, Eq, Structural)]
pub enum EvilDataKey {
    MarketId,
}

/// The registry's state: the market it stakes on again.
pub struct EvilReferral {
    market_id: Option<u64>,
}

impl EvilReferral {
    pub closed spec fn spec_market_id(&self) -> Option<u64> {
        self.market_id
    }

    pub fn new() -> (r: Self)
        ensures
            r.spec_market_id() is None,
    {
        EvilReferral { market_id: None }
    }

    /// Stores the market to stake on again.
    pub fn set_market_id(&mut self, market_id: u64)
        ensures
            final(self).spec_market_id() == Some(market_id),
    {
        self.market_id = Some(market_id);
    }

    /// The value stored under `key`.
    pub fn get(&self, key: EvilDataKey) -> (r: Option<u64>)
        ensures
            r == self.spec_market_id(),
    {
        match key {
            EvilDataKey::MarketId => self.market_id,
        }
    }

    /// Answers the market's request to credit the referrer of `user`: stakes
    /// `amount` on "yes" again on the stored market, which must refuse it (as
    /// it does while it is booking a stake, `law_reentrant_stake_refused`),
    /// and credits nobody. The market is left as it was.
    pub fn credit(&self, market: &mut PredictionMarket, user: u64, amount: i128, now: u64) -> (r: bool)
        requires
            self.spec_market_id() is Some,
            old(market).wf(),
            old(market)@.bet_error(user, self.spec_market_id()->0, true, amount, now) is Some,
        ensures
            !r,
            final(market).wf(),
            final(market)@ == old(market)@,
    {
        let market_id = self.market_id.unwrap();
        let result = market.begin_bet(user, market_id, true, amount, now);
        match result {
            Ok(_) => {
                proof {
                    assert(false);
                }
                false
            },
            Err(_) => false,
        }
    }
}

} // verus!
