use prediction_market::fees::{
    bps_of, claim_rewards, referral_request, split_stake, LOSE_POINTS, LOSE_TOKENS, MIN_BET, WIN_POINTS,
    WIN_TOKENS,
};
use prediction_market::market::PredictionMarket;
use prediction_market::evil_referral::{EvilDataKey, EvilReferral};
use prediction_market::types::{Category, Config, MarketError};

const ADMIN: u64 = 1;
const START: u64 = 1_000_000;

fn setup() -> PredictionMarket {
    let mut m = PredictionMarket::new();
    m.initialize(ADMIN, Config { token: 2, referral: 3, leaderboard: 4, xlm_sac: 5 }).unwrap();
    m
}

fn market(t: &mut PredictionMarket) -> u64 {
    t.create_market(ADMIN, "Q".to_string(), "https://q.png".to_string(), Category::Other, 3600, START)
        .unwrap()
}

fn err<T>(r: Result<T, MarketError>) -> MarketError {
    match r {
        Ok(_) => panic!("expected an error"),
        Err(e) => e,
    }
}

#[test]
fn fee_split_rounds_down_and_conserves() {
    let s = split_stake(30_000_001, false);
    assert_eq!(s.net, 29_400_001);
    assert_eq!(s.platform_fee, 600_000);
    assert_eq!(s.referral_fee, 0);

    let s = split_stake(30_000_001, true);
    assert_eq!(s.platform_fee, 450_000);
    assert_eq!(s.referral_fee, 150_000);
    assert_eq!(s.net + s.platform_fee + s.referral_fee, 30_000_001);

    assert_eq!(referral_request(100_0000000), 5_000_000);
}

#[test]
fn bps_of_matches_the_plain_formula() {
    assert_eq!(bps_of(9_999, 200), 199);
    assert_eq!(bps_of(10_000, 200), 200);
    assert_eq!(bps_of(1, 10_000), 1);
    assert_eq!(bps_of(i128::MAX, 10_000), i128::MAX);
    assert_eq!(bps_of(i128::MAX, 200), (i128::MAX / 10_000) * 200 + (i128::MAX % 10_000) * 200 / 10_000);
}

#[test]
fn reward_tiers() {
    assert_eq!(claim_rewards(true), (WIN_TOKENS, WIN_POINTS));
    assert_eq!(claim_rewards(false), (LOSE_TOKENS, LOSE_POINTS));
}

#[test]
fn error_codes_are_distinct() {
    let all = [
        MarketError::AlreadyInitialized,
        MarketError::NotInitialized,
        MarketError::Unauthorized,
        MarketError::MarketNotFound,
        MarketError::MarketExpired,
        MarketError::MarketNotExpired,
        MarketError::MarketAlreadyResolved,
        MarketError::MarketCancelled,
        MarketError::MarketNotResolved,
        MarketError::BetTooSmall,
        MarketError::OppositeSide,
        MarketError::AlreadyClaimed,
        MarketError::NoBetFound,
        MarketError::ArithmeticOverflow,
        MarketError::NoFeesToWithdraw,
        MarketError::NotResolver,
        MarketError::TooManyBets,
        MarketError::NotFeeRecipient,
        MarketError::MarketNotCancelled,
        MarketError::RateLimitExceeded,
        MarketError::ReentrancyDetected,
        MarketError::NoPendingBet,
    ];
    for (i, e) in all.iter().enumerate() {
        assert_eq!(e.code(), i as u32 + 1);
    }
}

#[test]
fn uninitialized_contract_refuses_work() {
    let mut t = PredictionMarket::new();
    assert_eq!(err(t.get_config()), MarketError::NotInitialized);
    let r = t.create_market(ADMIN, "Q".to_string(), "u".to_string(), Category::Crypto, 10, START);
    assert_eq!(err(r), MarketError::NotInitialized);
    assert_eq!(err(t.withdraw_fees(ADMIN)), MarketError::NotInitialized);
}

#[test]
fn pending_stake_locks_every_operation() {
    let mut t = setup();
    let id = market(&mut t);
    t.place_bet(11, id, true, MIN_BET, START, false).unwrap();
    let p = t.begin_bet(10, id, true, 50_0000000, START).unwrap();
    assert_eq!(p.referral_fee, 250_0000);
    assert!(t.is_bet_pending());
    assert_eq!(err(t.place_bet(12, id, true, MIN_BET, START, false)), MarketError::ReentrancyDetected);
    assert_eq!(err(t.cancel_market(ADMIN, id)), MarketError::ReentrancyDetected);
    assert_eq!(err(t.withdraw_fees(ADMIN)), MarketError::ReentrancyDetected);
    assert_eq!(err(t.resolve_market(ADMIN, id, true, START + 3601)), MarketError::ReentrancyDetected);
    assert_eq!(err(t.claim(11, id)), MarketError::ReentrancyDetected);
    assert_eq!(err(t.cancel_refund(11, id)), MarketError::ReentrancyDetected);

    // Giving up releases the lock without booking anything.
    t.abort_bet();
    assert!(!t.is_bet_pending());
    assert_eq!(t.get_market(id).unwrap().bet_count, 1);
    assert_eq!(err(t.finish_bet(false)), MarketError::NoPendingBet);
    t.place_bet(12, id, true, MIN_BET, START, false).unwrap();
}

#[test]
fn evil_referral_stores_the_market() {
    let mut evil = EvilReferral::new();
    assert_eq!(evil.get(EvilDataKey::MarketId), None);
    evil.set_market_id(7);
    assert_eq!(evil.get(EvilDataKey::MarketId), Some(7));
}

#[test]
fn overflowing_stakes_are_refused() {
    let mut t = setup();
    let id = market(&mut t);
    t.place_bet(10, id, true, i128::MAX, START, false).unwrap();
    assert_eq!(err(t.place_bet(11, id, false, MIN_BET, START, false)), MarketError::ArithmeticOverflow);
    // The winner's share cannot be computed in range.
    assert_eq!(err(t.resolve_market(ADMIN, id, true, START + 3601)), MarketError::ArithmeticOverflow);
    assert!(!t.get_market(id).unwrap().resolved);
}

#[test]
fn creation_overflow_and_unknown_markets() {
    let mut t = setup();
    let r = t.create_market(ADMIN, "Q".to_string(), "u".to_string(), Category::Crypto, u64::MAX, START);
    assert_eq!(err(r), MarketError::ArithmeticOverflow);
    assert_eq!(err(t.get_market_bettors(3)), MarketError::MarketNotFound);
    assert_eq!(err(t.get_bet(3, 10)), MarketError::MarketNotFound);
    let id = market(&mut t);
    assert_eq!(err(t.get_bet(id, 10)), MarketError::NoBetFound);
    assert_eq!(t.get_bet_gross(id, 10), 0);
    assert_eq!(t.get_cancel_state(id), None);
    assert_eq!(err(t.resolve_market(ADMIN, 9, true, START)), MarketError::MarketNotFound);
}

#[test]
fn cancelled_market_refuses_resolution_and_second_cancel() {
    let mut t = setup();
    let id = market(&mut t);
    t.place_bet(10, id, true, 3_0000000, START, true).unwrap();
    t.cancel_market(ADMIN, id).unwrap();
    assert_eq!(err(t.cancel_market(ADMIN, id)), MarketError::MarketCancelled);
    assert_eq!(err(t.resolve_market(ADMIN, id, true, START + 3601)), MarketError::MarketCancelled);
    // 3 XLM minus 0.5% paid to the referrer.
    assert_eq!(t.get_cancel_state(id).unwrap().refundable_remaining, 2_9850000);
    assert_eq!(t.cancel_refund(10, id).unwrap(), 2_9850000);
    assert_eq!(t.get_refundable(id, 10), 0);
    assert_eq!(t.get_bet_gross(id, 10), 0);
}

#[test]
fn rate_limit_counts_within_a_window_only() {
    let mut t = setup();
    for _ in 0..10 {
        market(&mut t);
    }
    let r = t.create_market(ADMIN, "Q".to_string(), "u".to_string(), Category::Crypto, 10, START + 3599);
    assert_eq!(err(r), MarketError::RateLimitExceeded);
    let id = t
        .create_market(ADMIN, "Q".to_string(), "u".to_string(), Category::Crypto, 10, START + 3600)
        .unwrap();
    assert_eq!(id, 11);
    assert_eq!(t.get_market(id).unwrap().end_time, START + 3610);
}

#[test]
fn resolved_payouts_fill_the_pool_up_to_dust() {
    let mut t = setup();
    let id = market(&mut t);
    t.place_bet(10, id, false, 1_0000001, START, false).unwrap();
    t.place_bet(11, id, false, 1_0000003, START, false).unwrap();
    t.place_bet(12, id, false, 1_0000005, START, false).unwrap();
    t.place_bet(13, id, true, 7_7777777, START, false).unwrap();
    let fees_before = t.get_accumulated_fees();
    let swept = t.resolve_market(ADMIN, id, false, START + 3601).unwrap();
    let m = t.get_market(id).unwrap();
    let pool = m.total_yes + m.total_no;
    let paid: i128 = [10, 11, 12].iter().map(|u| t.get_payout(id, *u)).sum();
    assert_eq!(paid + swept, pool);
    assert!(swept >= 0 && swept < 3);
    assert_eq!(t.get_accumulated_fees(), fees_before + swept);
}

#[test]
fn cancel_after_fee_withdrawal_stays_solvent() {
    let mut t = setup();
    let id = market(&mut t);
    let user = 10;
    t.place_bet(user, id, true, 100_0000000, START, false).unwrap();
    assert_eq!(t.get_refundable(id, user), 100_0000000);

    // The fee share leaves the market; a cancellation can then only refund
    // the net stake.
    assert_eq!(t.withdraw_fees(ADMIN).unwrap(), 2_0000000);
    assert_eq!(t.get_refundable(id, user), 98_0000000);

    t.cancel_market(ADMIN, id).unwrap();
    assert_eq!(t.get_cancel_state(id).unwrap().refundable_remaining, 98_0000000);
    assert_eq!(t.get_accumulated_fees(), 0);
    let refund = t.cancel_refund(user, id).unwrap();
    assert_eq!(refund, 98_0000000);
    // 100 in, 2 withdrawn + 98 refunded out.
    assert_eq!(refund + 2_0000000, 100_0000000);
    assert_eq!(t.get_market(id).unwrap().balance, 0);
}

#[test]
fn cancel_reclaims_fees_not_yet_withdrawn() {
    let mut t = setup();
    let id = market(&mut t);
    t.place_bet(10, id, true, 100_0000000, START, false).unwrap();
    t.withdraw_fees(ADMIN).unwrap();
    t.place_bet(11, id, false, 100_0000000, START, false).unwrap();
    assert_eq!(t.get_accumulated_fees(), 2_0000000);
    assert_eq!(t.get_refundable(id, 10), 98_0000000);
    assert_eq!(t.get_refundable(id, 11), 100_0000000);
    assert_eq!(t.get_market(id).unwrap().balance, 198_0000000);

    t.cancel_market(ADMIN, id).unwrap();
    // The fee share not yet withdrawn goes back to the bettor who paid it.
    assert_eq!(t.get_accumulated_fees(), 0);
    assert_eq!(t.get_cancel_state(id).unwrap().refundable_remaining, 198_0000000);
    assert_eq!(t.cancel_refund(10, id).unwrap(), 98_0000000);
    assert_eq!(t.cancel_refund(11, id).unwrap(), 100_0000000);
    assert_eq!(err(t.withdraw_fees(ADMIN)), MarketError::NoFeesToWithdraw);
    assert_eq!(t.get_market(id).unwrap().balance, 0);
}

#[test]
fn balance_tracks_claims() {
    let mut t = setup();
    let id = market(&mut t);
    t.place_bet(10, id, true, 100_0000000, START, true).unwrap();
    t.place_bet(11, id, false, 100_0000000, START, false).unwrap();
    // 200 in, 0.5 paid to a referrer.
    assert_eq!(t.get_market(id).unwrap().balance, 199_5000000);
    t.resolve_market(ADMIN, id, true, START + 3601).unwrap();
    let c = t.claim(10, id).unwrap();
    assert_eq!(c.payout, 196_0000000);
    assert_eq!(t.get_market(id).unwrap().balance, 3_5000000);
    assert_eq!(t.withdraw_fees(ADMIN).unwrap(), 3_5000000);
    assert_eq!(t.get_market(id).unwrap().balance, 0);
}
