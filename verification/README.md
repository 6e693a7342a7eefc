# prediction_market

A verified model of a binary prediction market: markets are created by an
administrator, accounts stake on "yes" or "no", a 2% fee is taken on every
stake (1.5% platform and 0.5% referral when a referrer is credited),
resolution fixes pari-mutuel payouts and sweeps rounding dust into the fees,
and cancelled markets refund every position (its stake less referral fees
already paid and platform fees already withdrawn).

Accounts are plain integers, time is an argument, and the amounts that must
move (payouts, refunds, referral fees, withdrawn fees) are returned to the
host, which performs the transfers.

- `src/fees.rs` — fee schedule, stake split, reward tiers.
- `src/types.rs` — markets, positions, errors.
- `src/model.rs` — the mathematical state, each operation's refusal
  condition and resulting state.
- `src/market.rs` — the executable contract state, proved against the model.
- `src/evil_referral.rs` — a referral registry that stakes again while a
  stake is being booked; the market refuses it.
- `src/laws.rs` — properties across operations: each stake's split adds up
  to the stake, the accumulated fees equal the markets' fee shares, payouts
  stay within the pool, every market is solvent (what it holds covers what it
  may still pay, and every payout, refund and withdrawal comes out of it),
  cancellations are isolated, claims and refunds happen once, the
  re-entrancy lock, market numbering and the creation rate limit.
- `src/lemmas.rs`, `src/sums.rs` — supporting proofs.
