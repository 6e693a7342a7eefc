use prediction_market::evil_referral::EvilReferral;
use prediction_market::market::PredictionMarket;
use prediction_market::types::{Category, Config, MarketError};

const ADMIN: u64 = 1;
const START: u64 = 1_000_000;

fn config() -> Config {
    Config { token: 2, referral: 3, leaderboard: 4, xlm_sac: 5 }
}

fn setup() -> PredictionMarket {
    let mut m = PredictionMarket::new();
    m.initialize(ADMIN, config()).unwrap();
    m
}

fn create_test_market(m: &mut PredictionMarket, now: u64) -> u64 {
    m.create_market(
        ADMIN,
        "Will BTC hit 100k?".to_string(),
        "https://example.com/btc.png".to_string(),
        Category::Crypto,
        3600,
        now,
    )
    .unwrap()
}

fn bet(m: &mut PredictionMarket, user: u64, id: u64, yes: bool, gross: i128, now: u64) {
    m.place_bet(user, id, yes, gross, now, false).unwrap();
}

fn code_of<T>(r: Result<T, MarketError>) -> u32 {
    match r {
        Ok(_) => panic!("expected an error"),
        Err(e) => e.code(),
    }
}

#[test]
fn test_initialize() {
    let t = setup();
    assert_eq!(t.get_market_count(), 0);
    assert_eq!(t.get_accumulated_fees(), 0);
}

#[test]
fn test_create_market() {
    let mut t = setup();
    let id = create_test_market(&mut t, START);
    assert_eq!(id, 1);
    assert_eq!(t.get_market_count(), 1);

    let market = t.get_market(id).unwrap();
    assert_eq!(market.total_yes, 0);
    assert_eq!(market.total_no, 0);
    assert!(!market.resolved);
    assert!(!market.cancelled);
    assert_eq!(market.bet_count, 0);
}

#[test]
fn test_place_yes_bet() {
    let mut t = setup();
    let id = create_test_market(&mut t, START);
    let user = 10;
    bet(&mut t, user, id, true, 100_0000000, START);

    let market = t.get_market(id).unwrap();
    assert_eq!(market.total_yes, 98_0000000);
    assert_eq!(market.total_no, 0);
    assert_eq!(market.bet_count, 1);

    let b = t.get_bet(id, user).unwrap();
    assert_eq!(b.amount, 98_0000000);
    assert!(b.is_yes);
    assert!(!b.claimed);

    assert_eq!(t.get_bet_gross(id, user), 100_0000000);
}

#[test]
fn test_place_no_bet() {
    let mut t = setup();
    let id = create_test_market(&mut t, START);
    bet(&mut t, 10, id, false, 100_0000000, START);

    let market = t.get_market(id).unwrap();
    assert_eq!(market.total_yes, 0);
    assert_eq!(market.total_no, 98_0000000);
}

#[test]
fn test_fee_full_2_percent_no_referrer() {
    let mut t = setup();
    let id = create_test_market(&mut t, START);
    bet(&mut t, 10, id, true, 100_0000000, START);
    assert_eq!(t.get_accumulated_fees(), 2_0000000);
}

#[test]
fn test_fee_split_with_referrer() {
    let mut t = setup();
    let id = create_test_market(&mut t, START);
    let split = t.place_bet(10, id, true, 100_0000000, START, true).unwrap();

    assert_eq!(t.get_accumulated_fees(), 1_5000000);
    // What the referrer is paid.
    assert_eq!(split.referral_fee, 5000000);
}

#[test]
fn test_reject_bet_expired_market() {
    let mut t = setup();
    let id = create_test_market(&mut t, START);
    let r = t.place_bet(10, id, true, 100_0000000, START + 3601, false);
    assert_eq!(code_of(r), 5);
}

#[test]
fn test_reject_bet_resolved_market() {
    let mut t = setup();
    let id = create_test_market(&mut t, START);
    bet(&mut t, 10, id, true, 50_0000000, START);
    let now = START + 3601;
    t.resolve_market(ADMIN, id, true, now).unwrap();
    let r = t.place_bet(11, id, false, 50_0000000, now, false);
    assert_eq!(code_of(r), 7);
}

#[test]
fn test_reject_bet_cancelled_market() {
    let mut t = setup();
    let id = create_test_market(&mut t, START);
    t.cancel_market(ADMIN, id).unwrap();
    let r = t.place_bet(10, id, true, 100_0000000, START, false);
    assert_eq!(code_of(r), 8);
}

#[test]
fn test_reject_bet_below_minimum() {
    let mut t = setup();
    let id = create_test_market(&mut t, START);
    let r = t.place_bet(10, id, true, 5_000_000, START, false);
    assert_eq!(code_of(r), 10);
}

#[test]
fn test_increase_position_same_side() {
    let mut t = setup();
    let id = create_test_market(&mut t, START);
    let user = 10;
    bet(&mut t, user, id, true, 100_0000000, START);
    assert_eq!(t.get_bet(id, user).unwrap().amount, 98_0000000);

    bet(&mut t, user, id, true, 50_0000000, START);
    assert_eq!(t.get_bet(id, user).unwrap().amount, 98_0000000 + 49_0000000);

    assert_eq!(t.get_bet_gross(id, user), 150_0000000);

    let market = t.get_market(id).unwrap();
    assert_eq!(market.total_yes, 98_0000000 + 49_0000000);
    assert_eq!(market.bet_count, 1);
}

#[test]
fn test_reject_opposite_side_bet() {
    let mut t = setup();
    let id = create_test_market(&mut t, START);
    bet(&mut t, 10, id, true, 100_0000000, START);
    let r = t.place_bet(10, id, false, 50_0000000, START, false);
    assert_eq!(code_of(r), 11);
}

#[test]
fn test_resolve_market() {
    let mut t = setup();
    let id = create_test_market(&mut t, START);
    bet(&mut t, 10, id, true, 50_0000000, START);
    t.resolve_market(ADMIN, id, true, START + 3601).unwrap();
    let market = t.get_market(id).unwrap();
    assert!(market.resolved);
    assert!(market.outcome);
}

#[test]
fn test_resolver_can_resolve() {
    let mut t = setup();
    let id = create_test_market(&mut t, START);
    bet(&mut t, 10, id, true, 50_0000000, START);

    let resolver = 20;
    t.add_resolver(ADMIN, resolver).unwrap();
    assert!(t.is_resolver(resolver));

    t.resolve_market(resolver, id, true, START + 3601).unwrap();
    assert!(t.get_market(id).unwrap().resolved);
}

#[test]
fn test_reject_resolve_market_non_resolver() {
    let mut t = setup();
    let id = create_test_market(&mut t, START);
    bet(&mut t, 10, id, true, 50_0000000, START);
    let r = t.resolve_market(99, id, true, START + 3601);
    assert_eq!(code_of(r), 16);
}

#[test]
fn test_reject_double_resolution() {
    let mut t = setup();
    let id = create_test_market(&mut t, START);
    bet(&mut t, 10, id, true, 50_0000000, START);
    t.resolve_market(ADMIN, id, true, START + 3601).unwrap();
    let r = t.resolve_market(ADMIN, id, false, START + 3601);
    assert_eq!(code_of(r), 7);
}

#[test]
fn test_cancel_market_claim_style_refund() {
    let mut t = setup();
    let id = create_test_market(&mut t, START);
    let (alice, bob) = (10, 11);
    bet(&mut t, alice, id, true, 100_0000000, START);
    bet(&mut t, bob, id, false, 50_0000000, START);

    t.cancel_market(ADMIN, id).unwrap();
    assert!(t.get_market(id).unwrap().cancelled);
    assert_eq!(t.get_accumulated_fees(), 0);

    // Each bettor gets back its whole stake.
    let alice_refund = t.cancel_refund(alice, id).unwrap();
    assert_eq!(alice_refund, 100_0000000);
    let bob_refund = t.cancel_refund(bob, id).unwrap();
    assert_eq!(bob_refund, 50_0000000);
}

#[test]
fn test_cancel_refund_double_claim_rejected() {
    let mut t = setup();
    let id = create_test_market(&mut t, START);
    bet(&mut t, 10, id, true, 100_0000000, START);
    t.cancel_market(ADMIN, id).unwrap();
    t.cancel_refund(10, id).unwrap();
    assert_eq!(code_of(t.cancel_refund(10, id)), 13);
}

#[test]
fn test_cancel_refund_non_cancelled_rejected() {
    let mut t = setup();
    let id = create_test_market(&mut t, START);
    bet(&mut t, 10, id, true, 100_0000000, START);
    assert_eq!(code_of(t.cancel_refund(10, id)), 19);
}

#[test]
fn test_reject_cancel_resolved_market() {
    let mut t = setup();
    let id = create_test_market(&mut t, START);
    bet(&mut t, 10, id, true, 50_0000000, START);
    t.resolve_market(ADMIN, id, true, START + 3601).unwrap();
    assert_eq!(code_of(t.cancel_market(ADMIN, id)), 7);
}

#[test]
fn test_claim_winner() {
    let mut t = setup();
    let id = create_test_market(&mut t, START);
    let (alice, bob) = (10, 11);
    bet(&mut t, alice, id, true, 100_0000000, START);
    bet(&mut t, bob, id, false, 100_0000000, START);

    t.resolve_market(ADMIN, id, true, START + 3601).unwrap();
    let c = t.claim(alice, id).unwrap();
    assert_eq!(c.payout, 196_0000000);
    assert!(c.won);
    assert_eq!(c.reward_tokens, 10_0000000);
}

#[test]
fn test_claim_loser() {
    let mut t = setup();
    let id = create_test_market(&mut t, START);
    let (alice, bob) = (10, 11);
    bet(&mut t, alice, id, true, 100_0000000, START);
    bet(&mut t, bob, id, false, 100_0000000, START);

    t.resolve_market(ADMIN, id, true, START + 3601).unwrap();
    let c = t.claim(bob, id).unwrap();
    assert_eq!(c.payout, 0);
    assert!(!c.won);
    assert_eq!(c.reward_tokens, 2_0000000);
}

#[test]
fn test_reject_double_claim() {
    let mut t = setup();
    let id = create_test_market(&mut t, START);
    bet(&mut t, 10, id, true, 100_0000000, START);
    t.resolve_market(ADMIN, id, true, START + 3601).unwrap();
    t.claim(10, id).unwrap();
    assert_eq!(code_of(t.claim(10, id)), 12);
}

#[test]
fn test_reject_claim_unresolved() {
    let mut t = setup();
    let id = create_test_market(&mut t, START);
    bet(&mut t, 10, id, true, 100_0000000, START);
    assert_eq!(code_of(t.claim(10, id)), 9);
}

#[test]
fn test_reject_claim_cancelled() {
    let mut t = setup();
    let id = create_test_market(&mut t, START);
    bet(&mut t, 10, id, true, 100_0000000, START);
    t.cancel_market(ADMIN, id).unwrap();
    assert_eq!(code_of(t.claim(10, id)), 8);
}

#[test]
fn test_withdraw_fees() {
    let mut t = setup();
    let id = create_test_market(&mut t, START);
    bet(&mut t, 10, id, true, 100_0000000, START);

    let fees_before = t.get_accumulated_fees();
    assert!(fees_before > 0);

    let withdrawn = t.withdraw_fees(ADMIN).unwrap();
    assert_eq!(withdrawn, fees_before);
    assert_eq!(t.get_accumulated_fees(), 0);
}

#[test]
fn test_fee_recipient_withdraw() {
    let mut t = setup();
    let id = create_test_market(&mut t, START);
    bet(&mut t, 10, id, true, 100_0000000, START);

    let recipient = 30;
    t.add_fee_recipient(ADMIN, recipient).unwrap();

    let fees = t.get_accumulated_fees();
    let withdrawn = t.withdraw_fees(recipient).unwrap();
    assert_eq!(withdrawn, fees);
    assert_eq!(t.get_accumulated_fees(), 0);
}

#[test]
fn test_reject_withdraw_fees_non_admin() {
    let mut t = setup();
    let id = create_test_market(&mut t, START);
    bet(&mut t, 10, id, true, 100_0000000, START);
    assert_eq!(code_of(t.withdraw_fees(99)), 18);
}

#[test]
fn test_bettor_index_enumeration() {
    let mut t = setup();
    let id = create_test_market(&mut t, START);
    let (alice, bob, charlie) = (10, 11, 12);
    bet(&mut t, alice, id, true, 10_0000000, START);
    bet(&mut t, bob, id, false, 20_0000000, START);
    bet(&mut t, charlie, id, true, 30_0000000, START);

    let bettors = t.get_market_bettors(id).unwrap();
    assert_eq!(bettors.len(), 3);
    assert_eq!(bettors[0], alice);
    assert_eq!(bettors[1], bob);
    assert_eq!(bettors[2], charlie);
}

#[test]
fn test_reject_too_many_bets() {
    let mut t = setup();
    let id = create_test_market(&mut t, START);
    for _ in 0..20u32 {
        bet(&mut t, 10, id, true, 1_0000000, START);
    }
    let r = t.place_bet(10, id, true, 1_0000000, START, false);
    assert_eq!(code_of(r), 17);
}

#[test]
fn test_market_creation_rate_limit_allows_up_to_max() {
    let mut t = setup();
    for i in 0..10u64 {
        t.create_market(ADMIN, "Market".to_string(), "https://x.png".to_string(), Category::Crypto, 3600 + i, START)
            .unwrap();
    }
    assert_eq!(t.get_market_count(), 10);
}

#[test]
fn test_market_creation_rate_limit_exceeded() {
    let mut t = setup();
    for i in 0..10u64 {
        t.create_market(ADMIN, "Market".to_string(), "https://x.png".to_string(), Category::Crypto, 3600 + i, START)
            .unwrap();
    }
    let r = t.create_market(
        ADMIN,
        "Over limit".to_string(),
        "https://x.png".to_string(),
        Category::Sports,
        7200,
        START,
    );
    assert_eq!(code_of(r), 20);
}

#[test]
fn test_market_creation_rate_limit_resets_after_window() {
    let mut t = setup();
    for i in 0..10u64 {
        t.create_market(ADMIN, "Market".to_string(), "https://x.png".to_string(), Category::Crypto, 3600 + i, START)
            .unwrap();
    }
    let id = t
        .create_market(
            ADMIN,
            "New window market".to_string(),
            "https://x.png".to_string(),
            Category::Sports,
            7200,
            START + 3601,
        )
        .unwrap();
    assert_eq!(id, 11);
}

#[test]
fn test_double_init_rejected() {
    let mut t = setup();
    let r = t.initialize(ADMIN, Config { token: 6, referral: 7, leaderboard: 8, xlm_sac: 9 });
    assert_eq!(code_of(r), 1);
}

#[test]
fn test_reject_resolve_before_deadline() {
    let mut t = setup();
    let id = create_test_market(&mut t, START);
    bet(&mut t, 10, id, true, 50_0000000, START);
    assert_eq!(code_of(t.resolve_market(ADMIN, id, true, START)), 6);
}

#[test]
fn test_withdraw_fees_zero() {
    let mut t = setup();
    assert_eq!(code_of(t.withdraw_fees(ADMIN)), 15);
}

#[test]
fn test_claim_no_bet_found() {
    let mut t = setup();
    let id = create_test_market(&mut t, START);
    bet(&mut t, 10, id, true, 50_0000000, START);
    t.resolve_market(ADMIN, id, true, START + 3601).unwrap();
    assert_eq!(code_of(t.claim(77, id)), 13);
}

#[test]
fn test_reject_create_market_non_admin() {
    let mut t = setup();
    let r = t.create_market(
        99,
        "Unauthorized?".to_string(),
        "https://x.png".to_string(),
        Category::Other,
        3600,
        START,
    );
    assert_eq!(code_of(r), 3);
}

#[test]
fn test_reject_cancel_market_non_admin() {
    let mut t = setup();
    let id = create_test_market(&mut t, START);
    assert_eq!(code_of(t.cancel_market(99, id)), 3);
}

#[test]
fn test_market_not_found() {
    let t = setup();
    assert_eq!(code_of(t.get_market(999)), 4);
}

#[test]
fn test_create_multiple_markets() {
    let mut t = setup();
    let id1 = t
        .create_market(ADMIN, "Market A".to_string(), "https://a.png".to_string(), Category::Crypto, 3600, START)
        .unwrap();
    let id2 = t
        .create_market(ADMIN, "Market B".to_string(), "https://b.png".to_string(), Category::Sports, 7200, START)
        .unwrap();
    assert_eq!(id1, 1);
    assert_eq!(id2, 2);
    assert_eq!(t.get_market_count(), 2);
    assert_eq!(t.get_market(id2).unwrap().category, Category::Sports);
}

#[test]
fn test_empty_side_resolution_pool_to_fees() {
    let mut t = setup();
    let id = create_test_market(&mut t, START);
    let alice = 10;
    bet(&mut t, alice, id, true, 100_0000000, START);
    let fees_before = t.get_accumulated_fees();
    assert_eq!(fees_before, 2_0000000);

    // Nobody backed NO.
    t.resolve_market(ADMIN, id, false, START + 3601).unwrap();

    let fees_after = t.get_accumulated_fees();
    assert_eq!(
        fees_after,
        fees_before + 98_0000000,
        "entire YES pool should sweep to fees when NO side is empty"
    );

    let withdrawn = t.withdraw_fees(ADMIN).unwrap();
    assert_eq!(withdrawn, fees_after);
    assert_eq!(t.get_accumulated_fees(), 0);

    // Alice (losing side) can still claim, for the loser's rewards.
    let c = t.claim(alice, id).unwrap();
    let b = t.get_bet(id, alice).unwrap();
    assert!(b.claimed);
    assert_eq!(c.payout, 0);
    assert_eq!(c.reward_tokens, 2_0000000);
    assert_eq!(c.reward_points, 10);
}

#[test]
fn test_cancel_fees_zeroed_correctly() {
    let mut t = setup();
    let id = create_test_market(&mut t, START);
    bet(&mut t, 10, id, true, 100_0000000, START);
    bet(&mut t, 11, id, false, 100_0000000, START);
    assert_eq!(t.get_accumulated_fees(), 4_0000000);

    t.cancel_market(ADMIN, id).unwrap();
    assert_eq!(t.get_accumulated_fees(), 0);

    t.cancel_refund(10, id).unwrap();
    t.cancel_refund(11, id).unwrap();
}

#[test]
fn test_e2e_full_inter_contract_flow() {
    let mut t = setup();
    let (alice, bob) = (10, 11);

    let market_id = t
        .create_market(
            ADMIN,
            "Will ETH flip BTC?".to_string(),
            "https://eth.png".to_string(),
            Category::Crypto,
            3600,
            START,
        )
        .unwrap();
    assert_eq!(market_id, 1);

    // Alice has a referrer.
    let split = t.place_bet(alice, market_id, true, 100_0000000, START, true).unwrap();
    assert_eq!(t.get_accumulated_fees(), 1_5000000);
    assert_eq!(split.referral_fee, 5000000);
    assert_eq!(t.get_market(market_id).unwrap().total_yes, 98_0000000);
    assert_eq!(t.get_bet_gross(market_id, alice), 100_0000000);

    // Bob has none.
    t.place_bet(bob, market_id, false, 200_0000000, START, false).unwrap();
    assert_eq!(t.get_accumulated_fees(), 5_5000000);
    assert_eq!(t.get_market(market_id).unwrap().total_no, 196_0000000);

    t.place_bet(alice, market_id, true, 50_0000000, START, true).unwrap();
    let alice_bet = t.get_bet(market_id, alice).unwrap();
    assert_eq!(alice_bet.amount, 98_0000000 + 49_0000000);
    assert_eq!(t.get_bet_gross(market_id, alice), 150_0000000);
    assert_eq!(t.get_market(market_id).unwrap().total_yes, 147_0000000);
    assert_eq!(t.get_market(market_id).unwrap().bet_count, 2);

    let resolver = 20;
    t.add_resolver(ADMIN, resolver).unwrap();
    let now = START + 3601;
    t.resolve_market(resolver, market_id, true, now).unwrap();
    assert!(t.get_market(market_id).unwrap().resolved);

    let c = t.claim(alice, market_id).unwrap();
    assert_eq!(c.payout, 343_0000000);
    assert_eq!(c.reward_points, 30);
    assert_eq!(c.reward_tokens, 10_0000000);

    let c = t.claim(bob, market_id).unwrap();
    assert_eq!(c.payout, 0);
    assert_eq!(c.reward_points, 10);
    assert_eq!(c.reward_tokens, 2_0000000);

    let fees_total = t.get_accumulated_fees();
    assert!(fees_total > 0);
    let withdrawn = t.withdraw_fees(ADMIN).unwrap();
    assert_eq!(withdrawn, fees_total);
    assert_eq!(t.get_accumulated_fees(), 0);

    let market2 = t
        .create_market(
            ADMIN,
            "Will DOGE hit $1?".to_string(),
            "https://doge.png".to_string(),
            Category::Crypto,
            7200,
            now,
        )
        .unwrap();
    let charlie = 12;
    t.place_bet(charlie, market2, true, 100_0000000, now, false).unwrap();
    t.cancel_market(ADMIN, market2).unwrap();
    assert_eq!(t.get_accumulated_fees(), 0);
    let refunded = t.cancel_refund(charlie, market2).unwrap();
    assert_eq!(refunded, 100_0000000);
}

#[test]
fn test_many_winners_payouts_exact_and_dust_swept() {
    let mut t = setup();
    let id = create_test_market(&mut t, START);
    let (w1, w2, w3, l1) = (10, 11, 12, 13);

    bet(&mut t, w1, id, true, 30_000_001, START);
    bet(&mut t, w2, id, true, 40_000_003, START);
    bet(&mut t, w3, id, true, 50_000_007, START);
    bet(&mut t, l1, id, false, 27_777_779, START);

    let now = START + 3601;
    let fees_before = t.get_accumulated_fees();
    t.resolve_market(ADMIN, id, true, now).unwrap();

    let market = t.get_market(id).unwrap();
    let pool: i128 = market.total_yes + market.total_no;
    let win: i128 = market.total_yes;

    let n1 = t.get_bet(id, w1).unwrap().amount;
    let n2 = t.get_bet(id, w2).unwrap().amount;
    let n3 = t.get_bet(id, w3).unwrap().amount;
    assert_eq!(n1 + n2 + n3, win);

    let p1 = (n1 * pool) / win;
    let p2 = (n2 * pool) / win;
    let p3 = (n3 * pool) / win;
    assert_eq!(t.get_payout(id, w1), p1);
    assert_eq!(t.get_payout(id, w2), p2);
    assert_eq!(t.get_payout(id, w3), p3);
    assert_eq!(t.get_payout(id, l1), 0);

    let dust: i128 = pool - p1 - p2 - p3;
    assert!(dust >= 0);
    assert!(dust < win);
    assert_eq!(t.get_accumulated_fees(), fees_before + dust);

    assert!(p1 + p2 + p3 <= pool);

    let c1 = t.claim(w1, id).unwrap().payout;
    let c2 = t.claim(w2, id).unwrap().payout;
    let c3 = t.claim(w3, id).unwrap().payout;
    // What leaves the market is exactly the fixed payouts.
    assert_eq!(c1 + c2 + c3, p1 + p2 + p3);
    assert_eq!(c1, p1);
}

#[test]
fn test_single_winner_gets_whole_net_pool() {
    let mut t = setup();
    let id = create_test_market(&mut t, START);
    let (winner, loser) = (10, 11);
    bet(&mut t, winner, id, true, 60_0000000, START);
    bet(&mut t, loser, id, false, 60_0000000, START);
    t.resolve_market(ADMIN, id, true, START + 3601).unwrap();

    let market = t.get_market(id).unwrap();
    let total = market.total_yes + market.total_no;
    let c = t.claim(winner, id).unwrap();
    assert_eq!(c.payout, total);
    assert_eq!(t.get_payout(id, winner), total);
}

#[test]
fn test_cancel_preserves_unrelated_market_fees() {
    let mut t = setup();
    let id_a = create_test_market(&mut t, START);
    let id_b = create_test_market(&mut t, START);
    let (user_a, user_b) = (10, 11);

    bet(&mut t, user_a, id_a, true, 100_0000000, START);
    bet(&mut t, user_b, id_b, true, 50_0000000, START);
    assert_eq!(t.get_accumulated_fees(), 3_0000000);

    t.cancel_market(ADMIN, id_a).unwrap();
    assert_eq!(t.get_accumulated_fees(), 1_0000000);
    assert_eq!(t.cancel_refund(user_a, id_a).unwrap(), 100_0000000);

    t.resolve_market(ADMIN, id_b, true, START + 3601).unwrap();
    let withdrawn = t.withdraw_fees(ADMIN).unwrap();
    assert_eq!(withdrawn, 1_0000000);
}

#[test]
fn test_cancel_referrer_backed_refund_excludes_paid_fee() {
    let mut t = setup();
    let id = create_test_market(&mut t, START);
    let user = 10;
    let split = t.place_bet(user, id, true, 100_0000000, START, true).unwrap();

    assert_eq!(t.get_accumulated_fees(), 1_5000000);
    assert_eq!(split.referral_fee, 5000000);
    assert_eq!(t.get_refundable(id, user), 99_5000000);

    t.cancel_market(ADMIN, id).unwrap();
    let cs = t.get_cancel_state(id).unwrap();
    assert_eq!(cs.refundable_remaining, 99_5000000);
    assert_eq!(t.get_accumulated_fees(), 0);

    let refund = t.cancel_refund(user, id).unwrap();
    assert_eq!(refund, 99_5000000);
    assert_eq!(t.get_cancel_state(id).unwrap().refundable_remaining, 0);
}

#[test]
fn test_referral_registered_after_first_bet_honored() {
    let mut t = setup();
    let id = create_test_market(&mut t, START);
    let user = 10;

    let first = t.place_bet(user, id, true, 100_0000000, START, false).unwrap();
    assert_eq!(t.get_accumulated_fees(), 2_0000000);
    assert_eq!(first.referral_fee, 0);

    // The registry now knows a referrer, and credits it.
    let second = t.place_bet(user, id, true, 100_0000000, START, true).unwrap();
    assert_eq!(second.referral_fee, 5000000);
    assert_eq!(t.get_accumulated_fees(), 2_0000000 + 1_5000000);
}

#[test]
fn test_reentrancy_guard_rejects_reentrant_bet() {
    let mut t = setup();
    let mut evil = EvilReferral::new();
    let cfg = t.get_config().unwrap();
    t.set_config(ADMIN, Config { referral: 66, ..cfg }).unwrap();

    let market_id = create_test_market(&mut t, START);
    evil.set_market_id(market_id);

    let user = 10;
    let amount = 100_000_000i128;

    // The outer stake is checked and the market locked; the registry then
    // stakes again, is refused, and credits nobody.
    let pending = t.begin_bet(user, market_id, true, amount, START).unwrap();
    let credited = evil.credit(&mut t, user, pending.gross, START);
    assert!(!credited);
    t.finish_bet(credited).unwrap();

    let net = amount * 9_800 / 10_000;
    let market = t.get_market(market_id).unwrap();
    assert_eq!(market.total_yes, net, "no double-counting of the bet");
    assert_eq!(market.bet_count, 1, "bet counted exactly once");
    assert_eq!(t.get_accumulated_fees(), 2_000_000, "full 2% retained (no referrer credited)");
}
