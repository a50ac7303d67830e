//! Proofs that the rules keep a table well formed.

use crate::card::Card;
use crate::chips::ChipPile;
use crate::gamestate::{ClientEvent, FromPlayer, GameAction, PlayerID};
use crate::hand::{
    hand_value, is_natural, lemma_soften_bounds, lemma_two_cards_stay, lemma_value_push,
};
use crate::table::{dealer_play, distinct, naturals, without, Table};
use vstd::prelude::*;

verus! {

/// Taking a player out of a list leaves the others, in their order and as
/// often as before.
pub proof fn lemma_without(players: Seq<PlayerID>, player: PlayerID)
    ensures
        forall|q: PlayerID| #[trigger]
            without(players, player).contains(q) <==> players.contains(q) && q != player,
        players.no_duplicates() ==> without(players, player).no_duplicates(),
        !players.contains(player) ==> without(players, player) == players,
        without(players, player).len() <= players.len(),
    decreases players.len(),
{
    if players.len() > 0 {
        let front = players.drop_last();
        let rest = without(front, player);
        lemma_without(front, player);
        assert(players =~= front.push(players.last()));
        assert forall|q: PlayerID| #[trigger]
            without(players, player).contains(q) <==> players.contains(q) && q != player by {
            if players.contains(q) && q != player {
                let i = choose|i: int| 0 <= i < players.len() && players[i] == q;
                if i < front.len() {
                    assert(front[i] == q);
                    assert(rest.contains(q));
                    let j = choose|j: int| 0 <= j < rest.len() && rest[j] == q;
                    assert(without(players, player)[j] == q);
                } else {
                    assert(without(players, player).last() == q);
                }
            }
            if without(players, player).contains(q) {
                let j = choose|j: int|
                    0 <= j < without(players, player).len() && without(players, player)[j] == q;
                if j < rest.len() {
                    assert(rest[j] == q);
                    assert(rest.contains(q));
                    let i = choose|i: int| 0 <= i < front.len() && front[i] == q;
                    assert(players[i] == q);
                } else {
                    assert(players[players.len() - 1] == q);
                }
            }
        }
        if players.no_duplicates() {
            assert(front.no_duplicates());
            if players.last() != player {
                assert(!front.contains(players.last())) by {
                    if front.contains(players.last()) {
                        let i = choose|i: int| 0 <= i < front.len() && front[i] == players.last();
                        assert(players[i] == players[players.len() - 1]);
                    }
                }
                assert(!rest.contains(players.last()));
                lemma_push_keeps_distinct(rest, players.last());
            }
        }
        if !players.contains(player) {
            assert(!front.contains(player)) by {
                if front.contains(player) {
                    let i = choose|i: int| 0 <= i < front.len() && front[i] == player;
                    assert(players[i] == player);
                }
            }
            assert(players[players.len() - 1] != player);
            assert(without(players, player) =~= players);
        }
    }
}

/// A list without repetition stays so when a player that is not in it is
/// put at its end.
pub proof fn lemma_push_keeps_distinct(players: Seq<PlayerID>, player: PlayerID)
    requires
        players.no_duplicates(),
        !players.contains(player),
    ensures
        players.push(player).no_duplicates(),
        forall|q: PlayerID| #[trigger]
            players.push(player).contains(q) <==> players.contains(q) || q == player,
{
    let longer = players.push(player);
    assert forall|i: int, j: int| 0 <= i < longer.len() && 0 <= j < longer.len() && i != j implies longer[i]
        != longer[j] by {
        if i < players.len() {
            assert(players.contains(players[i]));
        }
        if j < players.len() {
            assert(players.contains(players[j]));
        }
    }
    assert forall|q: PlayerID| #[trigger]
        longer.contains(q) <==> players.contains(q) || q == player by {
        if players.contains(q) {
            let i = choose|i: int| 0 <= i < players.len() && players[i] == q;
            assert(longer[i] == q);
        }
        if q == player {
            assert(longer[players.len() as int] == q);
        }
        if longer.contains(q) {
            let i = choose|i: int| 0 <= i < longer.len() && longer[i] == q;
            if i < players.len() {
                assert(players[i] == q);
            }
        }
    }
}

/// The first players of a list, up to and with the one at a place, are those
/// before that place and the one at it.
pub proof fn lemma_take_next(players: Seq<PlayerID>, place: int)
    requires
        0 <= place < players.len(),
    ensures
        players.take(place + 1) == players.take(place).push(players[place]),
        forall|q: PlayerID| #[trigger]
            players.take(place + 1).contains(q) <==> players.take(place).contains(q) || q
                == players[place],
{
    let before = players.take(place);
    let after = players.take(place + 1);
    assert(after =~= before.push(players[place]));
    assert forall|q: PlayerID| #[trigger]
        after.contains(q) <==> before.contains(q) || q == players[place] by {
        if before.contains(q) {
            let j = choose|j: int| 0 <= j < before.len() && before[j] == q;
            assert(after[j] == q);
        }
        if q == players[place] {
            assert(after[place] == q);
        }
        if after.contains(q) {
            let j = choose|j: int| 0 <= j < after.len() && after[j] == q;
            if j < place {
                assert(before[j] == q);
            }
        }
    }
}

/// The first occurrences of a list hold the players of the list, each once;
/// a list without repetition is left as it is.
pub proof fn lemma_distinct(players: Seq<PlayerID>)
    ensures
        distinct(players).no_duplicates(),
        forall|q: PlayerID| #[trigger] distinct(players).contains(q) <==> players.contains(q),
        players.no_duplicates() ==> distinct(players) == players,
        distinct(players).len() <= players.len(),
    decreases players.len(),
{
    if players.len() > 0 {
        let front = players.drop_last();
        let rest = distinct(front);
        lemma_distinct(front);
        assert(players =~= front.push(players.last()));
        if !rest.contains(players.last()) {
            lemma_push_keeps_distinct(rest, players.last());
        }
        assert forall|q: PlayerID| #[trigger]
            distinct(players).contains(q) <==> players.contains(q) by {
            if players.contains(q) {
                let i = choose|i: int| 0 <= i < players.len() && players[i] == q;
                if i < front.len() {
                    assert(front[i] == q);
                    assert(front.contains(q));
                }
            }
            if front.contains(q) {
                let i = choose|i: int| 0 <= i < front.len() && front[i] == q;
                assert(players[i] == q);
            }
            assert(players[players.len() - 1] == players.last());
        }
        if players.no_duplicates() {
            assert(front.no_duplicates());
            assert(!front.contains(players.last())) by {
                if front.contains(players.last()) {
                    let i = choose|i: int| 0 <= i < front.len() && front[i] == players.last();
                    assert(players[i] == players[players.len() - 1]);
                }
            }
            assert(distinct(players) =~= players);
        }
    }
}

/// The players with a natural are the seated players whose hand is one, each
/// as often as it is seated.
pub proof fn lemma_naturals(seats: Seq<PlayerID>, hands: Map<PlayerID, Seq<Card>>)
    ensures
        forall|q: PlayerID| #[trigger]
            naturals(seats, hands).contains(q) <==> seats.contains(q) && is_natural(
                hands[q],
            ),
        seats.no_duplicates() ==> naturals(seats, hands).no_duplicates(),
        naturals(seats, hands).len() <= seats.len(),
    decreases seats.len(),
{
    if seats.len() > 0 {
        let front = seats.drop_last();
        let rest = naturals(front, hands);
        lemma_naturals(front, hands);
        assert(seats =~= front.push(seats.last()));
        assert forall|q: PlayerID| #[trigger]
            naturals(seats, hands).contains(q) <==> seats.contains(q) && is_natural(
                hands[q],
            ) by {
            if seats.contains(q) && is_natural(hands[q]) {
                let i = choose|i: int| 0 <= i < seats.len() && seats[i] == q;
                if i < front.len() {
                    assert(front[i] == q);
                    assert(rest.contains(q));
                    let j = choose|j: int| 0 <= j < rest.len() && rest[j] == q;
                    assert(naturals(seats, hands)[j] == q);
                } else {
                    assert(naturals(seats, hands).last() == q);
                }
            }
            if naturals(seats, hands).contains(q) {
                let j = choose|j: int|
                    0 <= j < naturals(seats, hands).len() && naturals(seats, hands)[j] == q;
                if j < rest.len() {
                    assert(rest[j] == q);
                    assert(rest.contains(q));
                    let i = choose|i: int| 0 <= i < front.len() && front[i] == q;
                    assert(seats[i] == q);
                } else {
                    assert(seats[seats.len() - 1] == q);
                }
            }
        }
        if seats.no_duplicates() {
            assert(front.no_duplicates());
            if is_natural(hands[seats.last()]) {
                assert(!front.contains(seats.last())) by {
                    if front.contains(seats.last()) {
                        let i = choose|i: int| 0 <= i < front.len() && front[i] == seats.last();
                        assert(seats[i] == seats[seats.len() - 1]);
                    }
                }
                lemma_push_keeps_distinct(rest, seats.last());
            }
        }
    }
}

/// The dealer's turn keeps the cards the dealer held, takes the drawn ones
/// from the head of the deck in their order, and leaves a hand worth no more
/// than thirty-two if it was so before.
pub proof fn lemma_dealer_play(dealer: Seq<Card>, deck: Seq<Card>)
    ensures
        dealer_play(dealer, deck).0.len() >= dealer.len(),
        dealer_play(dealer, deck).0 + dealer_play(dealer, deck).1 == dealer + deck,
        dealer_play(dealer, deck).0.take(dealer.len() as int) == dealer,
        hand_value(dealer) <= 32 ==> hand_value(dealer_play(dealer, deck).0) <= 32,
        hand_value(dealer_play(dealer, deck).0) < 17 ==> dealer_play(dealer, deck).1.len() == 0,
    decreases deck.len(),
{
    if hand_value(dealer) >= 17 || deck.len() == 0 {
        assert(dealer.take(dealer.len() as int) =~= dealer);
    } else {
        let next = dealer.push(deck[0]);
        lemma_dealer_play(next, deck.skip(1));
        lemma_value_push(dealer, deck[0]);
        let (hand, rest) = dealer_play(dealer, deck);
        assert(next + deck.skip(1) =~= dealer + deck);
        assert(hand.take(dealer.len() as int) =~= hand.take(next.len() as int).take(
            dealer.len() as int,
        ));
        assert(next.take(dealer.len() as int) =~= dealer);
    }
}

impl Table {
    /// The seat that `next_open_seat` finds is not before `from`, its player
    /// has not finished, and every player between the two has.
    pub proof fn lemma_next_open_seat(self, from: int)
        requires
            0 <= from,
        ensures
            from <= self.next_open_seat(from) || self.next_open_seat(from) == self.seats.len(),
            self.next_open_seat(from) <= self.seats.len(),
            self.next_open_seat(from) < self.seats.len() ==> !self.finished.contains(
                self.seats[self.next_open_seat(from)],
            ),
            forall|j: int|
                from <= j < self.next_open_seat(from) ==> self.finished.contains(
                    #[trigger] self.seats[j],
                ),
        decreases self.seats.len() - from,
    {
        if from < self.seats.len() && self.finished.contains(self.seats[from]) {
            self.lemma_next_open_seat(from + 1);
        }
    }
}


impl Table {
    /// A table at which nothing has happened is well formed if nobody sits
    /// twice at it.
    pub proof fn lemma_fresh_wf(seats: Seq<PlayerID>)
        requires
            seats.no_duplicates(),
        ensures
            Table::fresh(seats).wf(),
    {
        lemma_soften_bounds(0, 0);
    }

    /// New hands keep a table well formed.
    pub proof fn lemma_with_new_hands_wf(self)
        requires
            self.wf(),
        ensures
            self.with_new_hands().wf(),
    {
        lemma_soften_bounds(0, 0);
        assert(hand_value(Seq::<Card>::empty()) == 0);
    }

    /// A player that leaves keeps a table well formed.
    pub proof fn lemma_leave_wf(self, player: PlayerID)
        requires
            self.wf(),
        ensures
            self.leave(player).wf(),
    {
        lemma_without(self.seats, player);
        lemma_without(self.finished, player);
        let after = self.leave(player);
        if !after.dealt() {
            assert(without(self.finished, player).len() <= self.finished.len());
        }
    }

    /// The settlement keeps what holds between the steps of a round, and
    /// leaves no wager.
    pub proof fn lemma_settle_inv(self)
        requires
            self.inv(),
        ensures
            self.settle().inv(),
            self.settle().bets == Map::<PlayerID, ChipPile>::empty(),
    {
    }

    /// The dealer's turn leaves a well-formed table whose turn is nobody's
    /// and at which no wager is left.
    pub proof fn lemma_dealer_turn_wf(self)
        requires
            self.inv(),
            self.dealt(),
        ensures
            self.dealer_turn().0.wf(),
            self.dealer_turn().0.current_player is None,
            self.dealer_turn().0.bets == Map::<PlayerID, ChipPile>::empty(),
            self.dealer_turn().0.dealt(),
    {
        lemma_dealer_play(self.dealer, self.deck);
        let (dealer, deck) = dealer_play(self.dealer, self.deck);
        let played = Table { dealer, deck, ..self };
        assert(played.inv());
        played.lemma_settle_inv();
    }

    /// Passing the turn on leaves a well-formed table.
    pub proof fn lemma_seek_turn_wf(self, from: int)
        requires
            self.inv(),
            self.dealt(),
            self.all_bets_in(),
            0 <= from,
        ensures
            self.seek_turn(from).0.wf(),
    {
        self.lemma_next_open_seat(from);
        self.lemma_dealer_turn_wf();
        let next = self.next_open_seat(from);
        if next < self.seats.len() {
            assert(self.seats.contains(self.seats[next]));
        }
    }

    /// Standing leaves a well-formed table.
    pub proof fn lemma_stand_wf(self, player: PlayerID)
        requires
            self.wf(),
            self.current_player == Some(player),
        ensures
            self.stand(player).0.wf(),
    {
        lemma_push_keeps_distinct(self.finished, player);
        let marked = self.mark_finished(player);
        assert(marked.inv());
        assert(marked.all_bets_in());
        let place = self.seats.index_of(player);
        assert(0 <= place < self.seats.len());
        marked.lemma_seek_turn_wf(place + 1);
    }

    /// Hitting leaves a well-formed table.
    pub proof fn lemma_hit_wf(self, player: PlayerID)
        requires
            self.wf(),
            self.current_player == Some(player),
        ensures
            self.hit(player).0.wf(),
    {
        let drawn = self.draw_to(player);
        assert(self.bets.contains_key(player));
        assert(self.hands.contains_key(player));
        lemma_value_push(self.hands[player], self.deck[0]);
        if hand_value(drawn.hands[player]) > 21 {
            lemma_push_keeps_distinct(self.finished, player);
            let marked = drawn.mark_finished(player);
            assert(marked.inv());
            assert(marked.all_bets_in());
            let place = self.seats.index_of(player);
            assert(0 <= place < self.seats.len());
            marked.lemma_seek_turn_wf(place + 1);
        } else {
            assert(drawn.wf());
        }
    }

    /// Doubling leaves a well-formed table.
    pub proof fn lemma_double_wf(self, player: PlayerID)
        requires
            self.wf(),
            self.may_double(player),
        ensures
            self.double(player).0.wf(),
    {
        assert(self.bets.contains_key(player));
        assert(self.hands.contains_key(player));
        assert(self.money.contains_key(player));
        let raised = self.raise(player);
        let drawn = raised.draw_to(player);
        lemma_value_push(self.hands[player], self.deck[0]);
        lemma_push_keeps_distinct(self.finished, player);
        let marked = drawn.mark_finished(player);
        assert(marked.inv());
        assert(marked.all_bets_in());
        let place = self.seats.index_of(player);
        assert(0 <= place < self.seats.len());
        marked.lemma_seek_turn_wf(place + 1);
    }

    /// Opening the round leaves a well-formed table.
    pub proof fn lemma_open_round_wf(self)
        requires
            self.wf(),
            !self.dealt(),
            self.all_bets_in(),
        ensures
            self.open_round().0.wf(),
            self.open_round().0.dealt(),
    {
        let (dealt, shown) = self.deal();
        let marked = dealt.mark_naturals();
        lemma_naturals(dealt.seats, dealt.hands);
        assert(self.finished + naturals(dealt.seats, dealt.hands) =~= naturals(
            dealt.seats,
            dealt.hands,
        ));
        assert forall|p: PlayerID| dealt.hands.contains_key(p) implies hand_value(
            #[trigger] dealt.hands[p],
        ) <= 21 by {
            assert(self.hands.contains_key(p));
            assert(self.money.contains_key(p));
            assert(self.seats.contains(p));
            assert(self.hands[p].len() == 0);
            lemma_two_cards_stay(dealt.hands[p]);
        }
        assert(self.dealer.len() == 0);
        lemma_two_cards_stay(dealt.dealer);
        assert(marked.inv());
        assert(marked.all_bets_in());
        marked.lemma_seek_turn_wf(0);
        marked.lemma_next_open_seat(0);
        marked.lemma_dealer_turn_wf();
    }

    /// Every action leaves a well-formed table.
    pub proof fn lemma_act_wf(self, action: GameAction, player: PlayerID)
        requires
            self.wf(),
        ensures
            self.act(action, player).table.wf(),
    {
        match action {
            GameAction::Hit => {
                if self.current_player == Some(player) {
                    self.lemma_hit_wf(player);
                }
            },
            GameAction::Stand => {
                if self.current_player == Some(player) {
                    self.lemma_stand_wf(player);
                }
            },
            GameAction::Double => {
                if self.may_double(player) {
                    self.lemma_double_wf(player);
                }
            },
            GameAction::AddMoney(amount) => {
                if amount > 0 && self.money.contains_key(player) {
                    assert(self.pay_in(player, amount).wf());
                }
            },
            GameAction::StartingBet(amount) => {
                if amount > 0 && self.money.contains_key(player) && amount <= self.money[player] {
                    let staked = self.stake(player, amount);
                    assert(staked.inv());
                    if self.opens_round(player, amount) {
                        assert(staked.wf());
                        staked.lemma_open_round_wf();
                    } else {
                        assert(staked.wf());
                    }
                }
            },
        }
    }
}


impl Table {
    /// The deal is a round for the seats, a card for the dealer, a second
    /// round and a second card for the dealer.
    pub proof fn lemma_deal_in_passes(self)
        requires
            self.deck.len() >= 2 * self.seats.len() + 2,
        ensures
            self.deal_pass().0.dealer_draws().deal_pass().0.dealer_draws() == self.deal().0,
            self.deal_pass().1 + seq![
                ClientEvent::CardRevealed(FromPlayer::Dealer, self.deal_pass().0.deck[0]),
            ] + self.deal_pass().0.dealer_draws().deal_pass().1 == self.deal().1,
    {
        let n = self.seats.len() as int;
        let first = self.deal_pass().0;
        let second = first.dealer_draws();
        let third = second.deal_pass().0;
        let last = third.dealer_draws();
        assert(second.deck =~= self.deck.skip(n + 1));
        assert(third.deck =~= self.deck.skip(2 * n + 1));
        assert(last.deck =~= self.deck.skip(2 * n + 2));
        assert(last.dealer =~= self.deal().0.dealer);
        assert forall|p: PlayerID| self.hands.contains_key(p) implies #[trigger] last.hands[p]
            == self.dealt_hand(p) by {
            if self.seats.contains(p) {
                let place = self.seats.index_of(p);
                assert(0 <= place < n);
            }
        }
        assert(last.hands =~= self.deal().0.hands);
        assert(second.deck.subrange(0, n) =~= self.deck.subrange(n + 1, 2 * n + 1));
    }
}

} // verus!
