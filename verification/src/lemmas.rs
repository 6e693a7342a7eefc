//! Facts about the model's sums that the operations' proofs use.

use vstd::prelude::*;
use crate::sums::{sum, lemma_sum_update, lemma_sum_push};
use crate::fees::{MIN_BET, lemma_fee_parts, net_stake, platform_fee, referral_fee};
use crate::model::{
    bet_ok, fee_total, payout_of, payout_total, settle, side_count, side_total, refundable_total,
    stake_on, refund_due, unclaimed_of, unclaimed_total, held_fee_total, release_held_fees,
};
use crate::fees::payout_share;
use crate::sums::{lemma_sum_bounds_element, lemma_sum_nonneg, lemma_sum_prefix_le, lemma_sum_zeros};
use crate::types::{Bet, MarketView};

verus! {

pub proof fn lemma_fee_total_update(ms: Seq<MarketView>, i: int, m: MarketView)
    requires
        0 <= i < ms.len(),
    ensures
        fee_total(ms.update(i, m)) == fee_total(ms) - ms[i].fees + m.fees,
{
    assert(ms.update(i, m).map_values(|m: MarketView| m.fees as int) =~= ms.map_values(
        |m: MarketView| m.fees as int,
    ).update(i, m.fees as int));
    lemma_sum_update(ms.map_values(|m: MarketView| m.fees as int), i, m.fees as int);
}

pub proof fn lemma_fee_total_push(ms: Seq<MarketView>, m: MarketView)
    ensures
        fee_total(ms.push(m)) == fee_total(ms) + m.fees,
{
    assert(ms.push(m).map_values(|m: MarketView| m.fees as int) =~= ms.map_values(
        |m: MarketView| m.fees as int,
    ).push(m.fees as int));
    lemma_sum_push(ms.map_values(|m: MarketView| m.fees as int), m.fees as int);
}


pub proof fn lemma_side_total_update(bs: Seq<Bet>, i: int, b: Bet, yes: bool)
    requires
        0 <= i < bs.len(),
    ensures
        side_total(bs.update(i, b), yes) == side_total(bs, yes) - stake_on(bs[i], yes) + stake_on(b, yes),
{
    assert(bs.update(i, b).map_values(|b: Bet| stake_on(b, yes)) =~= bs.map_values(
        |b: Bet| stake_on(b, yes),
    ).update(i, stake_on(b, yes)));
    lemma_sum_update(bs.map_values(|b: Bet| stake_on(b, yes)), i, stake_on(b, yes));
}

pub proof fn lemma_side_total_push(bs: Seq<Bet>, b: Bet, yes: bool)
    ensures
        side_total(bs.push(b), yes) == side_total(bs, yes) + stake_on(b, yes),
{
    assert(bs.push(b).map_values(|b: Bet| stake_on(b, yes)) =~= bs.map_values(
        |b: Bet| stake_on(b, yes),
    ).push(stake_on(b, yes)));
    lemma_sum_push(bs.map_values(|b: Bet| stake_on(b, yes)), stake_on(b, yes));
}

pub proof fn lemma_refundable_total_update(bs: Seq<Bet>, i: int, b: Bet)
    requires
        0 <= i < bs.len(),
    ensures
        refundable_total(bs.update(i, b)) == refundable_total(bs) - refund_due(bs[i]) + refund_due(b),
{
    assert(bs.update(i, b).map_values(|b: Bet| refund_due(b)) =~= bs.map_values(
        |b: Bet| refund_due(b),
    ).update(i, refund_due(b)));
    lemma_sum_update(bs.map_values(|b: Bet| refund_due(b)), i, refund_due(b));
}

pub proof fn lemma_refundable_total_push(bs: Seq<Bet>, b: Bet)
    ensures
        refundable_total(bs.push(b)) == refundable_total(bs) + refund_due(b),
{
    assert(bs.push(b).map_values(|b: Bet| refund_due(b)) =~= bs.map_values(|b: Bet| refund_due(b)).push(
        refund_due(b),
    ));
    lemma_sum_push(bs.map_values(|b: Bet| refund_due(b)), refund_due(b));
}

pub proof fn lemma_held_fee_total_update(bs: Seq<Bet>, i: int, b: Bet)
    requires
        0 <= i < bs.len(),
    ensures
        held_fee_total(bs.update(i, b)) == held_fee_total(bs) - bs[i].fee_held + b.fee_held,
{
    assert(bs.update(i, b).map_values(|b: Bet| b.fee_held as int) =~= bs.map_values(
        |b: Bet| b.fee_held as int,
    ).update(i, b.fee_held as int));
    lemma_sum_update(bs.map_values(|b: Bet| b.fee_held as int), i, b.fee_held as int);
}

pub proof fn lemma_held_fee_total_push(bs: Seq<Bet>, b: Bet)
    ensures
        held_fee_total(bs.push(b)) == held_fee_total(bs) + b.fee_held,
{
    assert(bs.push(b).map_values(|b: Bet| b.fee_held as int) =~= bs.map_values(
        |b: Bet| b.fee_held as int,
    ).push(b.fee_held as int));
    lemma_sum_push(bs.map_values(|b: Bet| b.fee_held as int), b.fee_held as int);
}

pub proof fn lemma_unclaimed_total_update(bs: Seq<Bet>, i: int, b: Bet)
    requires
        0 <= i < bs.len(),
    ensures
        unclaimed_total(bs.update(i, b)) == unclaimed_total(bs) - unclaimed_of(bs[i]) + unclaimed_of(b),
{
    assert(bs.update(i, b).map_values(|b: Bet| unclaimed_of(b)) =~= bs.map_values(
        |b: Bet| unclaimed_of(b),
    ).update(i, unclaimed_of(b)));
    lemma_sum_update(bs.map_values(|b: Bet| unclaimed_of(b)), i, unclaimed_of(b));
}

/// Withdrawing the held platform fees takes exactly them out of the
/// refunds, and leaves the stakes and what is still to be paid as they were.
pub proof fn lemma_release_held_fees(bs: Seq<Bet>)
    requires
        forall|i: int| 0 <= i < bs.len() ==> ((#[trigger] bs[i]).gross == 0 ==> bs[i].fee_held == 0),
    ensures
        refundable_total(release_held_fees(bs)) == refundable_total(bs) - held_fee_total(bs),
        held_fee_total(release_held_fees(bs)) == 0,
        side_total(release_held_fees(bs), true) == side_total(bs, true),
        side_total(release_held_fees(bs), false) == side_total(bs, false),
        unclaimed_total(release_held_fees(bs)) == unclaimed_total(bs),
    decreases bs.len(),
{
    let r = release_held_fees(bs);
    if bs.len() > 0 {
        let front = bs.drop_last();
        assert(forall|i: int| 0 <= i < front.len() ==> front[i] == bs[i]);
        lemma_release_held_fees(front);
        assert(r.drop_last() =~= release_held_fees(front));
        assert(r.map_values(|b: Bet| refund_due(b)).drop_last() =~= release_held_fees(front).map_values(
            |b: Bet| refund_due(b),
        ));
        assert(bs.map_values(|b: Bet| refund_due(b)).drop_last() =~= front.map_values(
            |b: Bet| refund_due(b),
        ));
        assert(r.map_values(|b: Bet| b.fee_held as int).drop_last() =~= release_held_fees(
            front,
        ).map_values(|b: Bet| b.fee_held as int));
        assert(bs.map_values(|b: Bet| b.fee_held as int).drop_last() =~= front.map_values(
            |b: Bet| b.fee_held as int,
        ));
        assert(bs[bs.len() - 1].gross == 0 ==> bs[bs.len() - 1].fee_held == 0);
    } else {
        assert(r.map_values(|b: Bet| refund_due(b)) =~= Seq::<int>::empty());
        assert(bs.map_values(|b: Bet| refund_due(b)) =~= Seq::<int>::empty());
        assert(r.map_values(|b: Bet| b.fee_held as int) =~= Seq::<int>::empty());
        assert(bs.map_values(|b: Bet| b.fee_held as int) =~= Seq::<int>::empty());
    }
    assert(r.map_values(|b: Bet| stake_on(b, true)) =~= bs.map_values(|b: Bet| stake_on(b, true)));
    assert(r.map_values(|b: Bet| stake_on(b, false)) =~= bs.map_values(|b: Bet| stake_on(b, false)));
    assert(r.map_values(|b: Bet| unclaimed_of(b)) =~= bs.map_values(|b: Bet| unclaimed_of(b)));
}

/// With distinct accounts, the position found at `i` is the one `bet_of`
/// names.
pub proof fn lemma_bet_index(m: MarketView, i: int, user: u64)
    requires
        m.users_distinct(),
        0 <= i < m.bets.len(),
        m.bets[i].user == user,
    ensures
        m.has_bet(user),
        m.bet_idx(user) == i,
        m.bet_of(user) == m.bets[i],
{
    assert(m.bets[i].user == user);
    let j = m.bet_idx(user);
    assert(0 <= j < m.bets.len() && m.bets[j].user == user);
}


/// A position's stake on its side is at most that side's total.
pub proof fn lemma_stake_bounded(m: MarketView, i: int)
    requires
        m.inv(),
        0 <= i < m.bets.len(),
    ensures
        m.bets[i].amount <= if m.bets[i].is_yes { m.total_yes } else { m.total_no },
        0 <= refund_due(m.bets[i]) <= m.refundable,
        0 <= m.bets[i].fee_held <= held_fee_total(m.bets),
{
    let yes = m.bets[i].is_yes;
    let s = m.bets.map_values(|b: Bet| stake_on(b, yes));
    assert forall|j: int| 0 <= j < s.len() implies s[j] >= 0 by {
        assert(bet_ok(m.bets[j], m.cancelled));
    }
    lemma_sum_bounds_element(s, i);
    let r = m.bets.map_values(|b: Bet| refund_due(b));
    assert forall|j: int| 0 <= j < r.len() implies r[j] >= 0 by {
        assert(bet_ok(m.bets[j], m.cancelled));
    }
    lemma_sum_bounds_element(r, i);
    let h = m.bets.map_values(|b: Bet| b.fee_held as int);
    assert forall|j: int| 0 <= j < h.len() implies h[j] >= 0 by {
        assert(bet_ok(m.bets[j], m.cancelled));
    }
    lemma_sum_bounds_element(h, i);
}

/// Booking an admissible stake keeps the market's invariant, and adds the
/// platform fee to the market's fee share.
pub proof fn lemma_with_stake_inv(m: MarketView, user: u64, is_yes: bool, gross: i128, credited: bool)
    requires
        m.inv(),
        !m.cancelled,
        !m.resolved,
        gross >= MIN_BET,
        m.stake_error(user, is_yes, gross) is None,
    ensures
        m.with_stake(user, is_yes, gross, credited).inv(),
        m.with_stake(user, is_yes, gross, credited).fees == m.fees + platform_fee(gross as int, credited),
        m.with_stake(user, is_yes, gross, credited).pool() == m.pool() + net_stake(gross as int),
{
    lemma_fee_parts(gross as int, credited);
    let net = net_stake(gross as int);
    let referral = referral_fee(gross as int, credited);
    let nb = m.staked_bet(user, is_yes, gross, credited);
    let n = m.with_stake(user, is_yes, gross, credited);
    if m.has_bet(user) {
        let i = m.bet_idx(user);
        let b = m.bets[i];
        assert(0 <= i < m.bets.len() && b.user == user);
        lemma_stake_bounded(m, i);
        assert(bet_ok(b, m.cancelled));
        assert(b.is_yes == is_yes);
        lemma_side_total_update(m.bets, i, nb, true);
        lemma_side_total_update(m.bets, i, nb, false);
        lemma_refundable_total_update(m.bets, i, nb);
        lemma_held_fee_total_update(m.bets, i, nb);
        assert(n.bets == m.bets.update(i, nb));
        assert forall|a: int, c: int|
            0 <= a < n.bets.len() && 0 <= c < n.bets.len() && a != c
                implies #[trigger] n.bets[a].user != #[trigger] n.bets[c].user by {
            assert(m.bets[a].user != m.bets[c].user);
        }
        assert forall|j: int| 0 <= j < n.bets.len() implies bet_ok(#[trigger] n.bets[j], n.cancelled) by {
            assert(bet_ok(m.bets[j], m.cancelled));
        }
        assert forall|j: int| 0 <= j < n.bets.len() implies (#[trigger] n.bets[j]).payout == 0
            && !n.bets[j].claimed by {
            assert(m.bets[j].payout == 0 && !m.bets[j].claimed);
        }
    } else {
        lemma_side_total_push(m.bets, nb, true);
        lemma_side_total_push(m.bets, nb, false);
        lemma_refundable_total_push(m.bets, nb);
        lemma_held_fee_total_push(m.bets, nb);
        assert(n.bets == m.bets.push(nb));
        assert forall|a: int, c: int|
            0 <= a < n.bets.len() && 0 <= c < n.bets.len() && a != c
                implies #[trigger] n.bets[a].user != #[trigger] n.bets[c].user by {
            if a < m.bets.len() && c < m.bets.len() {
                assert(m.bets[a].user != m.bets[c].user);
            } else if a < m.bets.len() {
                assert(m.bets[a].user != user);
            } else {
                assert(m.bets[c].user != user);
            }
        }
        assert forall|j: int| 0 <= j < n.bets.len() implies bet_ok(#[trigger] n.bets[j], n.cancelled) by {
            if j < m.bets.len() {
                assert(bet_ok(m.bets[j], m.cancelled));
            }
        }
        assert forall|j: int| 0 <= j < n.bets.len() implies (#[trigger] n.bets[j]).payout == 0
            && !n.bets[j].claimed by {
            if j < m.bets.len() {
                assert(m.bets[j].payout == 0 && !m.bets[j].claimed);
            }
        }
    }
}


/// What rounding a winner's share down leaves over, scaled by the winning
/// total.
pub open spec fn remainder_of(b: Bet, outcome: bool, pool: int, winning_total: int) -> int {
    if b.is_yes == outcome {
        (b.amount * pool) % winning_total
    } else {
        0
    }
}

pub open spec fn remainder_total(bets: Seq<Bet>, outcome: bool, pool: int, winning_total: int) -> int {
    sum(bets.map_values(|b: Bet| remainder_of(b, outcome, pool, winning_total)))
}

proof fn lemma_settle_step(paid: int, rem: int, acc: int, k: int, n: int, p: int, w: int)
    requires
        w > 0,
        n >= 1,
        p >= 0,
        acc >= 0,
        k >= 0,
        paid * w + rem == p * acc,
        0 <= rem <= (w - 1) * k,
        acc + n <= w,
    ensures
        (paid + n * p / w) * w + (rem + (n * p) % w) == p * (acc + n),
        0 <= rem + (n * p) % w <= (w - 1) * (k + 1),
        0 <= n * p / w <= p,
{
    let q = n * p / w;
    let r = (n * p) % w;
    assert(q * w + r == n * p && 0 <= r < w) by (nonlinear_arith)
        requires
            w > 0,
            q == n * p / w,
            r == (n * p) % w,
    ;
    assert(0 <= n * p) by (nonlinear_arith)
        requires
            n >= 1,
            p >= 0,
    ;
    assert(q >= 0) by (nonlinear_arith)
        requires
            q * w + r == n * p,
            r < w,
            n * p >= 0,
            w > 0,
    ;
    assert(n * p <= w * p) by (nonlinear_arith)
        requires
            n <= w,
            p >= 0,
    ;
    assert(q <= p) by (nonlinear_arith)
        requires
            q * w + r == n * p,
            r >= 0,
            n * p <= w * p,
            w > 0,
    ;
    assert((paid + q) * w + (rem + r) == p * (acc + n)) by (nonlinear_arith)
        requires
            paid * w + rem == p * acc,
            q * w + r == n * p,
    ;
    assert(rem + r <= (w - 1) * (k + 1)) by (nonlinear_arith)
        requires
            rem <= (w - 1) * k,
            r <= w - 1,
    ;
}

/// Fixing payouts over a prefix of the positions: the payouts, scaled by
/// the winning total, plus the rounding remainders, make up the pool share
/// of the winning stakes seen so far; each remainder is below the winning
/// total.
#[verifier::spinoff_prover]
pub proof fn lemma_settle_sums(bs: Seq<Bet>, outcome: bool, p: int, w: int)
    requires
        w > 0,
        0 <= p <= i128::MAX,
        forall|i: int| 0 <= i < bs.len() ==> (#[trigger] bs[i]).amount >= 1,
        side_total(bs, outcome) <= w,
    ensures
        payout_total(settle(bs, outcome, p, w)) * w + remainder_total(bs, outcome, p, w) == p
            * side_total(bs, outcome),
        0 <= remainder_total(bs, outcome, p, w) <= (w - 1) * side_count(bs, outcome),
        0 <= payout_total(settle(bs, outcome, p, w)),
        0 <= side_count(bs, outcome) <= side_total(bs, outcome),
        0 <= side_total(bs, outcome),
        side_total(bs, outcome) > 0 ==> side_count(bs, outcome) >= 1,
    decreases bs.len(),
{
    if bs.len() == 0 {
        assert(settle(bs, outcome, p, w).map_values(|b: Bet| b.payout as int) =~= Seq::<int>::empty());
        assert(bs.map_values(|b: Bet| remainder_of(b, outcome, p, w)) =~= Seq::<int>::empty());
        assert(bs.map_values(|b: Bet| stake_on(b, outcome)) =~= Seq::<int>::empty());
        assert(bs.map_values(|b: Bet| if b.is_yes == outcome { 1int } else { 0int })
            =~= Seq::<int>::empty());
    } else {
        let front = bs.drop_last();
        let b = bs.last();
        assert(forall|i: int| 0 <= i < front.len() ==> front[i] == bs[i]);
        let st = bs.map_values(|b: Bet| stake_on(b, outcome));
        assert(st.drop_last() =~= front.map_values(|b: Bet| stake_on(b, outcome)));
        assert(side_total(bs, outcome) == side_total(front, outcome) + stake_on(b, outcome));
        assert(bs[bs.len() - 1].amount >= 1);
        lemma_settle_sums(front, outcome, p, w);
        let sb = settle(bs, outcome, p, w);
        assert(sb.drop_last() =~= settle(front, outcome, p, w));
        let pays = sb.map_values(|b: Bet| b.payout as int);
        assert(pays.drop_last() =~= settle(front, outcome, p, w).map_values(|b: Bet| b.payout as int));
        let rems = bs.map_values(|b: Bet| remainder_of(b, outcome, p, w));
        assert(rems.drop_last() =~= front.map_values(|b: Bet| remainder_of(b, outcome, p, w)));
        let cnt = bs.map_values(|b: Bet| if b.is_yes == outcome { 1int } else { 0int });
        assert(cnt.drop_last() =~= front.map_values(
            |b: Bet| if b.is_yes == outcome { 1int } else { 0int },
        ));
        let paid = payout_total(settle(front, outcome, p, w));
        let rem = remainder_total(front, outcome, p, w);
        let acc = side_total(front, outcome);
        let k = side_count(front, outcome);
        assert(payout_total(sb) == paid + pays.last());
        assert(remainder_total(bs, outcome, p, w) == rem + rems.last());
        assert(side_count(bs, outcome) == k + cnt.last());
        if b.is_yes == outcome {
            lemma_settle_step(paid, rem, acc, k, b.amount as int, p, w);
            assert(payout_of(b, outcome, p, w) == payout_share(b.amount as int, p, w));
            assert(pays.last() == payout_of(b, outcome, p, w));
            assert(side_total(bs, outcome) == acc + b.amount);
            assert(payout_total(sb) == paid + b.amount * p / w);
            assert(remainder_total(bs, outcome, p, w) == rem + (b.amount * p) % w);
            let q = b.amount * p / w;
            let r = (b.amount * p) % w;
            let np = payout_total(sb);
            let nr = remainder_total(bs, outcome, p, w);
            let ns = side_total(bs, outcome);
            assert(np * w + nr == p * ns) by (nonlinear_arith)
                requires
                    np == paid + q,
                    nr == rem + r,
                    ns == acc + b.amount,
                    (paid + q) * w + (rem + r) == p * (acc + b.amount),
            ;
        } else {
            assert(pays.last() == 0);
            assert(payout_total(sb) == paid);
            assert(remainder_total(bs, outcome, p, w) == rem);
            assert(side_total(bs, outcome) == acc);
            let np = payout_total(sb);
            let nr = remainder_total(bs, outcome, p, w);
            let ns = side_total(bs, outcome);
            assert(np * w + nr == p * ns) by (nonlinear_arith)
                requires
                    np == paid,
                    nr == rem,
                    ns == acc,
                    paid * w + rem == p * acc,
            ;
        }
    }
}

/// Fixing payouts leaves the stakes, the refunds and the accounts as they
/// were; while nothing was claimed, what is still to be paid is every payout.
pub proof fn lemma_settle_keeps(bs: Seq<Bet>, outcome: bool, p: int, w: int)
    ensures
        settle(bs, outcome, p, w).len() == bs.len(),
        forall|yes: bool| side_total(#[trigger] settle(bs, outcome, p, w), yes) == side_total(bs, yes),
        refundable_total(settle(bs, outcome, p, w)) == refundable_total(bs),
        (forall|i: int| 0 <= i < bs.len() ==> !(#[trigger] bs[i]).claimed) ==> unclaimed_total(
            settle(bs, outcome, p, w),
        ) == payout_total(settle(bs, outcome, p, w)),
{
    let sb = settle(bs, outcome, p, w);
    assert forall|yes: bool| side_total(#[trigger] settle(bs, outcome, p, w), yes) == side_total(bs, yes) by {
        assert(sb.map_values(|b: Bet| stake_on(b, yes)) =~= bs.map_values(|b: Bet| stake_on(b, yes)));
    }
    assert(sb.map_values(|b: Bet| refund_due(b)) =~= bs.map_values(|b: Bet| refund_due(b)));
    if forall|i: int| 0 <= i < bs.len() ==> !(#[trigger] bs[i]).claimed {
        assert(sb.map_values(|b: Bet| unclaimed_of(b)) =~= sb.map_values(|b: Bet| b.payout as int));
    }
}

/// A winner's share is between 0 and the pool.
pub proof fn lemma_share_bounded(n: int, p: int, w: int)
    requires
        0 <= n <= w,
        w > 0,
        p >= 0,
    ensures
        0 <= payout_share(n, p, w) <= p,
{
    assert(0 <= n * p <= w * p) by (nonlinear_arith)
        requires
            0 <= n <= w,
            p >= 0,
    ;
    assert(0 <= (n * p) / w <= p) by (nonlinear_arith)
        requires
            0 <= n * p <= w * p,
            w > 0,
    ;
}

/// The payouts fixed at resolution never exceed the pool; what they leave
/// over is below the number of winning positions, which is at most the
/// winning total. With no winning stake, nothing is paid out.
pub proof fn lemma_dust_bounds(m: MarketView, outcome: bool)
    requires
        m.inv(),
    ensures
        0 <= payout_total(m.settled_bets(outcome)) <= m.pool(),
        m.winning_total(outcome) > 0 ==> 0 <= m.dust(outcome) < side_count(m.bets, outcome)
            <= m.winning_total(outcome),
        m.winning_total(outcome) == 0 ==> m.dust(outcome) == m.pool(),
{
    let p = m.pool();
    let w = m.winning_total(outcome);
    let bs = m.bets;
    if w > 0 {
        assert forall|i: int| 0 <= i < bs.len() implies (#[trigger] bs[i]).amount >= 1 by {
            assert(bet_ok(bs[i], m.cancelled));
        }
        lemma_settle_sums(bs, outcome, p, w);
        let paid = payout_total(m.settled_bets(outcome));
        let rem = remainder_total(bs, outcome, p, w);
        let k = side_count(bs, outcome);
        assert(paid <= p && (p - paid) * w == rem) by (nonlinear_arith)
            requires
                paid * w + rem == p * w,
                rem >= 0,
                w > 0,
        ;
        assert(p - paid < k) by (nonlinear_arith)
            requires
                (p - paid) * w == rem,
                rem <= (w - 1) * k,
                w > 0,
                k >= 1,
                p - paid >= 0,
        ;
    } else {
        let pays = m.settled_bets(outcome).map_values(|b: Bet| b.payout as int);
        assert forall|i: int| 0 <= i < pays.len() implies pays[i] == 0 by {}
        lemma_sum_zeros(pays);
    }
}

/// Resolving keeps the market's invariant.
pub proof fn lemma_settled_inv(m: MarketView, outcome: bool)
    requires
        m.inv(),
        !m.resolved,
        !m.cancelled,
        m.settlement_fits(outcome),
    ensures
        m.settled(outcome).inv(),
        m.settled(outcome).pool() == m.pool(),
        0 <= m.dust(outcome) <= m.pool(),
{
    let n = m.settled(outcome);
    let p = m.pool();
    let w = m.winning_total(outcome);
    lemma_dust_bounds(m, outcome);
    lemma_settle_keeps(m.bets, outcome, p, w);
    assert forall|i: int| 0 <= i < m.bets.len() implies !(#[trigger] m.bets[i]).claimed by {
        assert(m.bets[i].payout == 0 && !m.bets[i].claimed);
    }
    assert(refundable_total(n.bets) == refundable_total(m.bets));
    assert(unclaimed_total(n.bets) == payout_total(n.bets));
    assert(side_total(n.bets, true) == side_total(m.bets, true));
    assert(side_total(n.bets, false) == side_total(m.bets, false));
    assert(n.winning_total(outcome) == w);
    assert forall|a: int, c: int|
        0 <= a < n.bets.len() && 0 <= c < n.bets.len() && a != c
            implies #[trigger] n.bets[a].user != #[trigger] n.bets[c].user by {
        assert(m.bets[a].user != m.bets[c].user);
    }
    assert forall|j: int| 0 <= j < n.bets.len() implies bet_ok(#[trigger] n.bets[j], n.cancelled) by {
        assert(bet_ok(m.bets[j], m.cancelled));
    }
    assert forall|j: int| 0 <= j < n.bets.len() implies (#[trigger] n.bets[j]).payout == payout_of(
        n.bets[j],
        n.outcome,
        n.pool(),
        n.winning_total(n.outcome),
    ) by {
        let b = m.bets[j];
        if b.is_yes == outcome && w > 0 {
            lemma_stake_bounded(m, j);
            lemma_share_bounded(b.amount as int, p, w);
        }
    }
}


/// The payouts fixed over any prefix of the positions stay within the pool.
pub proof fn lemma_prefix_paid_bounded(m: MarketView, outcome: bool, i: int)
    requires
        m.inv(),
        0 <= i <= m.bets.len(),
    ensures
        0 <= payout_total(settle(m.bets.take(i), outcome, m.pool(), m.winning_total(outcome)))
            <= m.pool(),
{
    let p = m.pool();
    let w = m.winning_total(outcome);
    let bs = m.bets.take(i);
    if w > 0 {
        assert forall|j: int| 0 <= j < bs.len() implies (#[trigger] bs[j]).amount >= 1 by {
            assert(bet_ok(m.bets[j], m.cancelled));
        }
        let st = m.bets.map_values(|b: Bet| stake_on(b, outcome));
        assert forall|j: int| 0 <= j < st.len() implies st[j] >= 0 by {
            assert(bet_ok(m.bets[j], m.cancelled));
        }
        lemma_sum_prefix_le(st, i);
        assert(bs.map_values(|b: Bet| stake_on(b, outcome)) =~= st.take(i));
        lemma_settle_sums(bs, outcome, p, w);
        let paid = payout_total(settle(bs, outcome, p, w));
        let rem = remainder_total(bs, outcome, p, w);
        let acc = side_total(bs, outcome);
        assert(paid <= p) by (nonlinear_arith)
            requires
                paid * w + rem == p * acc,
                rem >= 0,
                acc <= w,
                w > 0,
                p >= 0,
        ;
    } else {
        let pays = settle(bs, outcome, p, w).map_values(|b: Bet| b.payout as int);
        assert forall|j: int| 0 <= j < pays.len() implies pays[j] == 0 by {}
        lemma_sum_zeros(pays);
    }
}


pub proof fn lemma_fee_total_nonneg(ms: Seq<MarketView>)
    requires
        forall|i: int| 0 <= i < ms.len() ==> (#[trigger] ms[i]).fees >= 0,
    ensures
        fee_total(ms) >= 0,
{
    let f = ms.map_values(|m: MarketView| m.fees as int);
    assert forall|i: int| 0 <= i < f.len() implies f[i] >= 0 by {
        assert(ms[i].fees >= 0);
    }
    lemma_sum_nonneg(f);
}

/// Changing a position without touching its stake, side or refund keeps the
/// market's stake, refund and held-fee sums.
pub proof fn lemma_update_keeps_sums(bs: Seq<Bet>, i: int, b: Bet)
    requires
        0 <= i < bs.len(),
        b.is_yes == bs[i].is_yes,
        b.amount == bs[i].amount,
        b.fee_held == bs[i].fee_held,
        refund_due(b) == refund_due(bs[i]),
    ensures
        side_total(bs.update(i, b), true) == side_total(bs, true),
        side_total(bs.update(i, b), false) == side_total(bs, false),
        refundable_total(bs.update(i, b)) == refundable_total(bs),
        held_fee_total(bs.update(i, b)) == held_fee_total(bs),
{
    lemma_side_total_update(bs, i, b, true);
    lemma_side_total_update(bs, i, b, false);
    lemma_refundable_total_update(bs, i, b);
    lemma_held_fee_total_update(bs, i, b);
}

/// Withdrawing a market's fee share keeps its invariant.
pub proof fn lemma_fees_withdrawn_inv(m: MarketView)
    requires
        m.inv(),
    ensures
        m.fees_withdrawn().inv(),
        m.fees_withdrawn().fees == 0,
        m.fees <= m.balance,
{
    let n = m.fees_withdrawn();
    if m.resolved {
        let u = m.bets.map_values(|b: Bet| unclaimed_of(b));
        assert forall|j: int| 0 <= j < u.len() implies u[j] >= 0 by {
            assert(bet_ok(m.bets[j], m.cancelled));
        }
        lemma_sum_nonneg(u);
    }
    if !m.resolved && !m.cancelled {
        assert forall|i: int| 0 <= i < m.bets.len() && (#[trigger] m.bets[i]).gross == 0 implies m.bets[i].fee_held
            == 0 by {
            assert(bet_ok(m.bets[i], m.cancelled));
        }
        lemma_release_held_fees(m.bets);
        assert forall|a: int, c: int|
            0 <= a < n.bets.len() && 0 <= c < n.bets.len() && a != c
                implies #[trigger] n.bets[a].user != #[trigger] n.bets[c].user by {
            assert(m.bets[a].user != m.bets[c].user);
        }
        assert forall|j: int| 0 <= j < n.bets.len() implies bet_ok(#[trigger] n.bets[j], n.cancelled) by {
            assert(bet_ok(m.bets[j], m.cancelled));
        }
        assert forall|j: int| 0 <= j < n.bets.len() implies (#[trigger] n.bets[j]).payout == 0
            && !n.bets[j].claimed by {
            assert(m.bets[j].payout == 0 && !m.bets[j].claimed);
        }
    } else {
        assert(n.bets == m.bets);
    }
}


/// Replacing one market by a well-formed one with the same identifier keeps
/// every market numbered and well formed.
pub proof fn lemma_markets_update_inv(ms: Seq<MarketView>, i: int, nv: MarketView)
    requires
        0 <= i < ms.len(),
        forall|k: int| 0 <= k < ms.len() ==> (#[trigger] ms[k]).id == k + 1 && ms[k].inv(),
        nv.id == ms[i].id,
        nv.inv(),
    ensures
        forall|k: int|
            0 <= k < ms.update(i, nv).len() ==> (#[trigger] ms.update(i, nv)[k]).id == k + 1 && ms.update(
                i,
                nv,
            )[k].inv(),
{
    assert forall|k: int| 0 <= k < ms.update(i, nv).len() implies (#[trigger] ms.update(i, nv)[k]).id
        == k + 1 && ms.update(i, nv)[k].inv() by {
        if k != i {
            assert(ms.update(i, nv)[k] == ms[k]);
        }
    }
}

/// Changing a position without changing its account keeps the accounts
/// distinct.
pub proof fn lemma_update_keeps_users(m: MarketView, n: MarketView, i: int, b: Bet)
    requires
        m.users_distinct(),
        0 <= i < m.bets.len(),
        b.user == m.bets[i].user,
        n.bets == m.bets.update(i, b),
    ensures
        n.users_distinct(),
{
    assert forall|a: int, c: int|
        0 <= a < n.bets.len() && 0 <= c < n.bets.len() && a != c
            implies #[trigger] n.bets[a].user != #[trigger] n.bets[c].user by {
        assert(m.bets[a].user != m.bets[c].user);
    }
}

} // verus!
