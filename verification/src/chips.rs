//! Chips: balances and wagers, counted in whole units of the smallest chip,
//! with arithmetic that stops at the ends of the range instead of wrapping.

use vstd::prelude::*;

verus! {

/// A signed amount of chips: a balance, a wager or a payment.
pub type ChipPile = i64;

/// The amount nearest to `amount` that a `ChipPile` can hold.
pub open spec fn clip(amount: int) -> ChipPile {
    if amount > i64::MAX {
        i64::MAX
    } else if amount < i64::MIN {
        i64::MIN
    } else {
        amount as i64
    }
}

/// What a settled wager is worth, for a player's hand of `cards` cards worth
/// `player` against a dealer's hand worth `dealer`: nothing where the player
/// is bust or below a dealer who is not bust, two and a half times the wager,
/// rounded down, for twenty-one with two cards, and twice the wager
/// otherwise.
pub open spec fn payout(bet: ChipPile, player: int, cards: nat, dealer: int) -> ChipPile {
    if (dealer <= 21 && player < dealer) || player > 21 {
        0
    } else if player == 21 && cards == 2 {
        clip(bet * 5 / 2)
    } else {
        clip(bet * 2)
    }
}

/// Adds two amounts, stopping at the ends of the range.
pub fn credit(balance: ChipPile, amount: ChipPile) -> (sum: ChipPile)
    ensures
        sum == clip(balance + amount),
{
    match balance.checked_add(amount) {
        Some(sum) => sum,
        None => if amount > 0 {
            i64::MAX
        } else {
            i64::MIN
        },
    }
}

/// Half of a wide amount, rounded down.
fn half_floor(amount: i128) -> (half: i128)
    requires
        -0x4000_0000_0000_0000_0000 <= amount <= 0x4000_0000_0000_0000_0000,
    ensures
        half == amount / 2,
{
    if amount >= 0 {
        amount / 2
    } else {
        -((1 - amount) / 2)
    }
}

/// Brings a wide amount into the range of a `ChipPile`.
fn narrow(amount: i128) -> (chips: ChipPile)
    ensures
        chips == clip(amount as int),
{
    if amount > i64::MAX as i128 {
        i64::MAX
    } else if amount < i64::MIN as i128 {
        i64::MIN
    } else {
        amount as i64
    }
}

/// The worth of a settled wager.
pub fn settle(bet: ChipPile, player: u32, cards: usize, dealer: u32) -> (worth: ChipPile)
    ensures
        worth == payout(bet, player as int, cards as nat, dealer as int),
        player > 21 ==> worth == 0,
{
    if (dealer <= 21 && player < dealer) || player > 21 {
        0
    } else if player == 21 && cards == 2 {
        narrow(half_floor((bet as i128) * 5))
    } else {
        narrow((bet as i128) * 2)
    }
}

} // verus!
