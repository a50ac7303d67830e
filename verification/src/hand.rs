//! The value of a hand: the sum of its cards' points, with aces counted as
//! one instead of eleven while the sum would otherwise exceed twenty-one.

use crate::card::{Card, Value};
use vstd::prelude::*;

verus! {

/// The most cards whose points add up within a `u32`.
pub const HAND_LIMIT: usize = 390_451_572;

/// The sum of the points of the cards, every ace counted as eleven.
pub open spec fn raw_total(hand: Seq<Card>) -> int
    decreases hand.len(),
{
    if hand.len() == 0 {
        0
    } else {
        raw_total(hand.drop_last()) + hand.last().points()
    }
}

/// The number of aces among the cards.
pub open spec fn ace_count(hand: Seq<Card>) -> nat
    decreases hand.len(),
{
    if hand.len() == 0 {
        0
    } else {
        ace_count(hand.drop_last()) + if hand.last().rank() == Value::Ace {
            1nat
        } else {
            0nat
        }
    }
}

/// Counts aces as one instead of eleven, one ace at a time, while the total
/// exceeds twenty-one and an ace is left that still counts as eleven.
pub open spec fn soften(total: int, aces: nat) -> int
    decreases aces,
{
    if total > 21 && aces > 0 {
        soften(total - 10, (aces - 1) as nat)
    } else {
        total
    }
}

/// The value of a hand.
pub open spec fn hand_value(hand: Seq<Card>) -> int {
    soften(raw_total(hand), ace_count(hand))
}

/// A hand is a natural when its first two cards make twenty-one.
pub open spec fn is_natural(hand: Seq<Card>) -> bool {
    hand.len() == 2 && hand_value(hand) == 21
}

/// Every rank counts for at least two and at most eleven points, and only
/// the ace counts for eleven.
pub proof fn lemma_points_range(card: Card)
    ensures
        2 <= card.points() <= 11,
        card.points() == 11 <==> card.rank() == Value::Ace,
{
}

/// One more card adds its points to the raw total, and one to the number of
/// aces if it is an ace.
pub proof fn lemma_push_card(hand: Seq<Card>, card: Card)
    ensures
        raw_total(hand.push(card)) == raw_total(hand) + card.points(),
        ace_count(hand.push(card)) == ace_count(hand) + if card.rank() == Value::Ace {
            1nat
        } else {
            0nat
        },
{
    assert(hand.push(card).drop_last() =~= hand);
}

/// The raw total is at least two for each card and nine more for each ace,
/// and at most ten for each card and one more for each ace.
pub proof fn lemma_total_bounds(hand: Seq<Card>)
    ensures
        ace_count(hand) <= hand.len(),
        2 * hand.len() + 9 * ace_count(hand) <= raw_total(hand),
        raw_total(hand) <= 10 * hand.len() + ace_count(hand),
    decreases hand.len(),
{
    if hand.len() > 0 {
        lemma_total_bounds(hand.drop_last());
        lemma_points_range(hand.last());
    }
}

/// Softening lowers a total by at most ten for each ace, leaves a total of
/// at most twenty-one alone, and ends above twenty-one only where the total
/// would exceed it with every ace counted as one.
pub proof fn lemma_soften_bounds(total: int, aces: nat)
    ensures
        total - 10 * aces <= soften(total, aces) <= total,
        total <= 21 ==> soften(total, aces) == total,
        total > 21 ==> soften(total, aces) > 11,
        soften(total, aces) > 21 <==> total - 10 * aces > 21,
    decreases aces,
{
    if total > 21 && aces > 0 {
        lemma_soften_bounds(total - 10, (aces - 1) as nat);
    }
}

/// Adding points and aces to a hand raises its softened total by no more
/// than the points added.
pub proof fn lemma_soften_monotone(total: int, aces: nat, more: int, more_aces: nat)
    requires
        0 <= more,
    ensures
        soften(total + more, aces + more_aces) <= soften(total, aces) + more,
    decreases aces,
{
    if total > 21 && aces > 0 {
        lemma_soften_monotone(total - 10, (aces - 1) as nat, more, more_aces);
        assert(soften(total + more, aces + more_aces) == soften(
            total + more - 10,
            (aces + more_aces - 1) as nat,
        ));
    } else {
        lemma_soften_bounds(total + more, aces + more_aces);
    }
}

/// A hand is worth at least one point for each of its cards.
pub proof fn lemma_value_at_least_len(hand: Seq<Card>)
    ensures
        hand.len() <= hand_value(hand),
{
    lemma_total_bounds(hand);
    lemma_soften_bounds(raw_total(hand), ace_count(hand));
}

/// One more card raises the value of a hand by no more than its points.
pub proof fn lemma_value_push(hand: Seq<Card>, card: Card)
    ensures
        hand_value(hand.push(card)) <= hand_value(hand) + card.points(),
        hand_value(hand.push(card)) <= hand_value(hand) + 11,
{
    lemma_push_card(hand, card);
    lemma_points_range(card);
    let more_aces: nat = if card.rank() == Value::Ace {
        1
    } else {
        0
    };
    lemma_soften_monotone(raw_total(hand), ace_count(hand), card.points(), more_aces);
}

/// Two cards never exceed twenty-one.
pub proof fn lemma_two_cards_stay(hand: Seq<Card>)
    requires
        hand.len() <= 2,
    ensures
        hand_value(hand) <= 21,
{
    lemma_total_bounds(hand);
    lemma_soften_bounds(raw_total(hand), ace_count(hand));
    if raw_total(hand) > 21 {
        lemma_soften_bounds(raw_total(hand) - 10, (ace_count(hand) - 1) as nat);
    }
}

/// The value of a hand exceeds twenty-one exactly when it would with every
/// ace counted as one: a hand is bust only where no ace is left to soften.
pub proof fn lemma_bust_has_no_soft_ace(hand: Seq<Card>)
    ensures
        hand_value(hand) > 21 <==> raw_total(hand) - 10 * ace_count(hand) > 21,
        hand_value(hand) <= raw_total(hand),
{
    lemma_soften_bounds(raw_total(hand), ace_count(hand));
}

/// Lowers a total by ten for each ace while it exceeds twenty-one.
pub fn ace_conversion(total: u32, aces: u32) -> (value: u32)
    ensures
        value == soften(total as int, aces as nat),
{
    let mut sum: u32 = total;
    let mut left: u32 = aces;
    while sum > 21 && left > 0
        invariant
            soften(sum as int, left as nat) == soften(total as int, aces as nat),
        decreases left,
    {
        sum = sum - 10;
        left = left - 1;
    }
    sum
}

/// The value of a hand whose points add up within a `u32`.
pub fn value_of(hand: &Vec<Card>) -> (value: u32)
    requires
        hand@.len() <= HAND_LIMIT,
    ensures
        value == hand_value(hand@),
        value <= 11 * hand@.len(),
{
    let mut sum: u32 = 0;
    let mut aces: u32 = 0;
    let mut i: usize = 0;
    while i < hand.len()
        invariant
            i <= hand@.len() <= HAND_LIMIT,
            sum == raw_total(hand@.take(i as int)),
            aces == ace_count(hand@.take(i as int)),
            sum <= 11 * i,
            aces <= i,
        decreases hand@.len() - i,
    {
        let card = hand[i];
        proof {
            lemma_push_card(hand@.take(i as int), card);
            lemma_points_range(card);
            assert(hand@.take(i as int).push(card) =~= hand@.take(i as int + 1));
        }
        sum = sum + (card.get_value() as u32);
        if card.is_ace() {
            aces = aces + 1;
        }
        i = i + 1;
    }
    proof {
        assert(hand@.take(hand@.len() as int) =~= hand@);
        lemma_soften_bounds(sum as int, aces as nat);
    }
    ace_conversion(sum, aces)
}

} // verus!
