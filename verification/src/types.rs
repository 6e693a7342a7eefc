//! The values a prediction market holds and hands out.

use vstd::prelude::*;

verus! {

/// What a market is about.
#[derive(Clone, Copy, Debug, PartialEq, Eq, Structural)]
pub enum Category {
    Crypto,
    Sports,
    Other,
}

/// Why an operation was refused.
#[derive(Clone, Copy, Debug, PartialEq, Eq, Structural)]
pub enum MarketError {
    AlreadyInitialized,
    NotInitialized,
    Unauthorized,
    MarketNotFound,
    MarketExpired,
    MarketNotExpired,
    MarketAlreadyResolved,
    MarketCancelled,
    MarketNotResolved,
    BetTooSmall,
    OppositeSide,
    AlreadyClaimed,
    NoBetFound,
    ArithmeticOverflow,
    NoFeesToWithdraw,
    NotResolver,
    TooManyBets,
    NotFeeRecipient,
    MarketNotCancelled,
    RateLimitExceeded,
    ReentrancyDetected,
    NoPendingBet,
}

pub open spec fn error_code(e: MarketError) -> u32 {
    match e {
        MarketError::AlreadyInitialized => 1,
        MarketError::NotInitialized => 2,
        MarketError::Unauthorized => 3,
        MarketError::MarketNotFound => 4,
        MarketError::MarketExpired => 5,
        MarketError::MarketNotExpired => 6,
        MarketError::MarketAlreadyResolved => 7,
        MarketError::MarketCancelled => 8,
        MarketError::MarketNotResolved => 9,
        MarketError::BetTooSmall => 10,
        MarketError::OppositeSide => 11,
        MarketError::AlreadyClaimed => 12,
        MarketError::NoBetFound => 13,
        MarketError::ArithmeticOverflow => 14,
        MarketError::NoFeesToWithdraw => 15,
        MarketError::NotResolver => 16,
        MarketError::TooManyBets => 17,
        MarketError::NotFeeRecipient => 18,
        MarketError::MarketNotCancelled => 19,
        MarketError::RateLimitExceeded => 20,
        MarketError::ReentrancyDetected => 21,
        MarketError::NoPendingBet => 22,
    }
}

impl MarketError {
    /// The contract error number under which the host reports this error.
    pub fn code(&self) -> (c: u32)
        ensures
            c == error_code(*self),
    {
        match self {
            MarketError::AlreadyInitialized => 1,
            MarketError::NotInitialized => 2,
            MarketError::Unauthorized => 3,
            MarketError::MarketNotFound => 4,
            MarketError::MarketExpired => 5,
            MarketError::MarketNotExpired => 6,
            MarketError::MarketAlreadyResolved => 7,
            MarketError::MarketCancelled => 8,
            MarketError::MarketNotResolved => 9,
            MarketError::BetTooSmall => 10,
            MarketError::OppositeSide => 11,
            MarketError::AlreadyClaimed => 12,
            MarketError::NoBetFound => 13,
            MarketError::ArithmeticOverflow => 14,
            MarketError::NoFeesToWithdraw => 15,
            MarketError::NotResolver => 16,
            MarketError::TooManyBets => 17,
            MarketError::NotFeeRecipient => 18,
            MarketError::MarketNotCancelled => 19,
            MarketError::RateLimitExceeded => 20,
            MarketError::ReentrancyDetected => 21,
            MarketError::NoPendingBet => 22,
        }
    }
}

/// One account's position in one market.
#[derive(Clone, Copy, Debug, PartialEq, Eq, Structural)]
pub struct Bet {
    pub user: u64,
    pub is_yes: bool,
    /// Net stake in the pool (after fees).
    pub amount: i128,
    /// Everything the account has put in; zeroed when refunded.
    pub gross: i128,
    /// Referral fees paid out of this position's stakes; zeroed when refunded.
    pub referral_paid: i128,
    /// Platform fees of this position's stakes that are still in the
    /// market's fee share (not withdrawn); zeroed when refunded.
    pub fee_held: i128,
    /// How many stakes make up the position.
    pub placements: u32,
    pub claimed: bool,
    /// The share of the pool fixed at resolution (0 for losers).
    pub payout: i128,
}

/// The addresses of the contracts a market works with.
#[derive(Clone, Copy, Debug, PartialEq, Eq, Structural)]
pub struct Config {
    pub token: u64,
    pub referral: u64,
    pub leaderboard: u64,
    pub xlm_sac: u64,
}

/// A stake that has passed every check and waits for the referral
/// registry's answer. While one is pending, the market is locked.
#[derive(Clone, Copy, Debug, PartialEq, Eq, Structural)]
pub struct PendingBet {
    pub market_id: u64,
    pub user: u64,
    pub is_yes: bool,
    pub gross: i128,
    /// The referral fee the registry is asked to pay out.
    pub referral_fee: i128,
}

/// What a claim hands out: the pool share and the reward tier.
#[derive(Clone, Copy, Debug, PartialEq, Eq, Structural)]
pub struct ClaimOutcome {
    pub payout: i128,
    pub won: bool,
    pub reward_tokens: i128,
    pub reward_points: u32,
}

/// The refund state of a cancelled market.
#[derive(Clone, Copy, Debug, PartialEq, Eq, Structural)]
pub struct CancelState {
    pub refundable_remaining: i128,
}

/// A market as stored.
#[derive(Debug)]
pub struct Market {
    pub id: u64,
    pub creator: u64,
    pub title: String,
    pub image_url: String,
    pub category: Category,
    pub end_time: u64,
    pub total_yes: i128,
    pub total_no: i128,
    pub resolved: bool,
    pub outcome: bool,
    pub cancelled: bool,
    /// Number of distinct bettors.
    pub bet_count: u32,
    /// This market's share of the accumulated fees.
    pub fees: i128,
    /// What the market still owes back if it is (or were) cancelled.
    pub refundable: i128,
    /// What the contract holds for this market: stakes received, less
    /// referral fees, withdrawn fees, claimed payouts and refunds paid out.
    pub balance: i128,
    /// Positions, in the order their accounts first staked.
    pub bets: Vec<Bet>,
}

/// The mathematical value of a market.
#[verifier::ext_equal]
pub struct MarketView {
    pub id: u64,
    pub creator: u64,
    pub title: Seq<char>,
    pub image_url: Seq<char>,
    pub category: Category,
    pub end_time: u64,
    pub total_yes: i128,
    pub total_no: i128,
    pub resolved: bool,
    pub outcome: bool,
    pub cancelled: bool,
    pub bet_count: u32,
    pub fees: i128,
    pub refundable: i128,
    pub balance: i128,
    pub bets: Seq<Bet>,
}

impl View for Market {
    type V = MarketView;

    open spec fn view(&self) -> MarketView {
        MarketView {
            id: self.id,
            creator: self.creator,
            title: self.title@,
            image_url: self.image_url@,
            category: self.category,
            end_time: self.end_time,
            total_yes: self.total_yes,
            total_no: self.total_no,
            resolved: self.resolved,
            outcome: self.outcome,
            cancelled: self.cancelled,
            bet_count: self.bet_count,
            fees: self.fees,
            refundable: self.refundable,
            balance: self.balance,
            bets: self.bets@,
        }
    }
}

} // verus!
