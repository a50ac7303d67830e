//! What holds of the rules of a round and of the coordinator, proved from
//! their definitions.

use crate::chips::{payout, ChipPile};
use crate::gamecoordinator::{CoordinatorError, Floor};
use crate::gamestate::{ClientEvent, FromPlayer, GameAction, GameError, PlayerID};
use crate::hand::{ace_count, hand_value, lemma_bust_has_no_soft_ace, lemma_push_card, raw_total};
use crate::invariants::lemma_dealer_play;
use crate::table::{dealer_play, naturals, reveals_to, round_overs, Step, Table};
use vstd::prelude::*;

verus! {

/// An event is among the events of two lists put together exactly when it is
/// among those of one of them.
pub proof fn lemma_contains_of_joined(
    first: Seq<ClientEvent>,
    second: Seq<ClientEvent>,
    event: ClientEvent,
)
    ensures
        (first + second).contains(event) <==> first.contains(event) || second.contains(event),
{
    let joined = first + second;
    if first.contains(event) {
        let i = choose|i: int| 0 <= i < first.len() && first[i] == event;
        assert(joined[i] == event);
    }
    if second.contains(event) {
        let i = choose|i: int| 0 <= i < second.len() && second[i] == event;
        assert(joined[first.len() + i] == event);
    }
    if joined.contains(event) {
        let i = choose|i: int| 0 <= i < joined.len() && joined[i] == event;
        if i < first.len() {
            assert(first[i] == event);
        } else {
            assert(second[i - first.len()] == event);
        }
    }
}

impl Table {
    /// Passing the turn on changes neither the seats nor the hands nor who
    /// has finished. It tells that the round is over exactly where it leaves
    /// the turn with nobody, and no wager is left then.
    pub proof fn lemma_seek_turn_keeps(self, from: int)
        requires
            0 <= from,
        ensures
            self.seek_turn(from).0.seats == self.seats,
            self.seek_turn(from).0.hands == self.hands,
            self.seek_turn(from).0.finished == self.finished,
            self.seek_turn(from).1.contains(ClientEvent::RoundOver) <==> self.seek_turn(
                from,
            ).0.current_player is None,
            self.seek_turn(from).0.current_player is None ==> self.seek_turn(from).0.bets
                == Map::<PlayerID, ChipPile>::empty(),
            self.seek_turn(from).0.dealer.len() >= self.dealer.len(),
    {
        self.lemma_next_open_seat(from);
        let next = self.next_open_seat(from);
        if next >= self.seats.len() {
            let events = self.dealer_turn().1;
            assert(events[events.len() - 1] == ClientEvent::RoundOver);
            lemma_dealer_play(self.dealer, self.deck);
        }
    }

    /// A hit by the player whose turn it is draws exactly one card, which is
    /// shown first, and raises the raw total of the player's hand by the
    /// points of that card; the hand is then worth no more than twenty-one
    /// unless no ace is left to be counted as one.
    pub proof fn law_hit_draws_one_card(self, player: PlayerID)
        requires
            self.wf(),
            self.current_player == Some(player),
        ensures
            ({
                let step = self.act(GameAction::Hit, player);
                &&& step.result is Ok
                &&& step.result.unwrap()[0] == ClientEvent::CardRevealed(
                    FromPlayer::Player(player),
                    self.deck[0],
                )
                &&& self.drew_one_card(step.table, player)
            }),
    {
        let drawn = self.draw_to(player);
        let hand = drawn.hands[player];
        lemma_push_card(self.hands[player], self.deck[0]);
        lemma_bust_has_no_soft_ace(hand);
        if hand_value(hand) > 21 {
            let marked = drawn.mark_finished(player);
            let place = self.seats.index_of(player);
            assert(0 <= place < self.seats.len());
            marked.lemma_seek_turn_keeps(place + 1);
            assert(marked.finished[self.finished.len() as int] == player);
        }
    }

    /// A stand by the player whose turn it is tells first that the player's
    /// round is over, and passes the turn strictly forward in the order of
    /// the seats, past the players who have finished and never back to the
    /// first seats; where nobody is left, the round is told to be over.
    pub proof fn law_stand_moves_forward(self, player: PlayerID)
        requires
            self.wf(),
            self.current_player == Some(player),
        ensures
            ({
                let step = self.act(GameAction::Stand, player);
                &&& step.result is Ok
                &&& step.result.unwrap()[0] == ClientEvent::PlayerRoundOver
                &&& self.passed_turn_on(step.table, player)
                &&& step.table.current_player is None <==> step.result.unwrap().contains(
                    ClientEvent::RoundOver,
                )
            }),
    {
        let marked = self.mark_finished(player);
        let place = self.seats.index_of(player);
        assert(0 <= place < self.seats.len() && self.seats[place] == player);
        marked.lemma_next_open_seat(place + 1);
        marked.lemma_seek_turn_keeps(place + 1);
        let next = marked.next_open_seat(place + 1);
        let (after, events) = marked.seek_turn(place + 1);
        if next < self.seats.len() {
            assert(self.seats[next] == after.current_player.unwrap());
        }
        lemma_contains_of_joined(seq![ClientEvent::PlayerRoundOver], events, ClientEvent::RoundOver);
    }

    /// The events of the deal and the notices of naturals hold no notice
    /// that the round is over.
    proof fn lemma_opening_events(self)
        ensures
            !self.deal().1.contains(ClientEvent::RoundOver),
            forall|count: nat| !(#[trigger] round_overs(count)).contains(ClientEvent::RoundOver),
    {
        let n = self.seats.len() as int;
        let first = reveals_to(self.seats, self.deck.subrange(0, n));
        let middle = seq![ClientEvent::CardRevealed(FromPlayer::Dealer, self.deck[n])];
        let second = reveals_to(self.seats, self.deck.subrange(n + 1, 2 * n + 1));
        lemma_contains_of_joined(first, middle, ClientEvent::RoundOver);
        lemma_contains_of_joined(first + middle, second, ClientEvent::RoundOver);
    }

    /// The round is settled at most once, whatever the action.
    pub proof fn law_round_settles_once(self, action: GameAction, player: PlayerID)
        requires
            self.wf(),
        ensures
            self.settles_once(self.act(action, player).table, self.act(action, player).result),
    {
        let over = ClientEvent::RoundOver;
        match action {
            GameAction::Hit => {
                if self.current_player == Some(player) {
                    let drawn = self.draw_to(player);
                    let shown = seq![
                        ClientEvent::CardRevealed(FromPlayer::Player(player), self.deck[0]),
                    ];
                    if hand_value(drawn.hands[player]) > 21 {
                        drawn.lemma_stand_tells(player);
                        lemma_contains_of_joined(shown, drawn.stand(player).1, over);
                    }
                }
            },
            GameAction::Stand => {
                if self.current_player == Some(player) {
                    self.lemma_stand_tells(player);
                }
            },
            GameAction::Double => {
                if self.may_double(player) {
                    let drawn = self.raise(player).draw_to(player);
                    let shown = seq![
                        ClientEvent::CardRevealed(FromPlayer::Player(player), self.deck[0]),
                    ];
                    drawn.lemma_stand_tells(player);
                    lemma_contains_of_joined(shown, drawn.stand(player).1, over);
                }
            },
            GameAction::AddMoney(amount) => {},
            GameAction::StartingBet(amount) => {
                if amount > 0 && self.money.contains_key(player) && amount <= self.money[player] {
                    let placed = seq![ClientEvent::Betting(player, amount)];
                    let staked = self.stake(player, amount);
                    if self.opens_round(player, amount) {
                        let (dealt, shown) = staked.deal();
                        let marked = dealt.mark_naturals();
                        let notices = round_overs(
                            naturals(dealt.seats, dealt.hands).len(),
                        );
                        let (after, events) = marked.seek_turn(0);
                        staked.lemma_opening_events();
                        marked.lemma_seek_turn_keeps(0);
                        lemma_contains_of_joined(shown, notices, over);
                        lemma_contains_of_joined(shown + notices, events, over);
                        lemma_contains_of_joined(placed, shown + notices + events, over);
                    }
                }
            },
        }
    }

    /// A stand tells that the round is over exactly where it leaves the turn
    /// with nobody; no wager is left then, and the cards stay dealt.
    proof fn lemma_stand_tells(self, player: PlayerID)
        requires
            self.seats.contains(player),
        ensures
            self.stand(player).1.contains(ClientEvent::RoundOver) <==> self.stand(
                player,
            ).0.current_player is None,
            self.stand(player).0.current_player is None ==> self.stand(player).0.bets
                == Map::<PlayerID, ChipPile>::empty(),
            self.stand(player).0.dealer.len() >= self.dealer.len(),
    {
        let marked = self.mark_finished(player);
        let place = self.seats.index_of(player);
        assert(0 <= place < self.seats.len());
        marked.lemma_seek_turn_keeps(place + 1);
        lemma_contains_of_joined(
            seq![ClientEvent::PlayerRoundOver],
            marked.seek_turn(place + 1).1,
            ClientEvent::RoundOver,
        );
    }

    /// Doubling changes nothing and produces no event unless the hand has
    /// two cards worth nine, ten or eleven and the balance covers the wager;
    /// nor does it unless it is the player's turn.
    pub proof fn law_double_needs_its_conditions(self, player: PlayerID)
        requires
            self.current_player != Some(player) || self.hands[player].len() != 2 || hand_value(
                self.hands[player],
            ) < 9 || hand_value(self.hands[player]) > 11 || self.money[player]
                < self.bets[player],
        ensures
            self.act(GameAction::Double, player) == (Step {
                table: self,
                result: Ok(Seq::empty()),
            }),
    {
    }

    /// An amount that is not positive is never added: the action is refused
    /// as invalid and the table, with every balance, stays as it is.
    pub proof fn law_add_money_needs_positive_amount(self, player: PlayerID, amount: ChipPile)
        requires
            amount <= 0,
        ensures
            self.act(GameAction::AddMoney(amount), player) == (Step {
                table: self,
                result: Err(GameError::InvaildAction),
            }),
    {
    }

    /// Every action keeps the rules of the round.
    pub proof fn law_act_keeps_rules(self, action: GameAction, player: PlayerID)
        requires
            self.wf(),
        ensures
            self.keeps_rules(
                action,
                player,
                self.act(action, player).table,
                self.act(action, player).result,
            ),
    {
        self.law_round_settles_once(action, player);
        if self.current_player == Some(player) {
            self.law_hit_draws_one_card(player);
            self.law_stand_moves_forward(player);
        }
    }

    /// The wager of a player whose hand is worth more than twenty-one is
    /// settled as nothing, whatever the dealer holds, and the balance of
    /// that player is after the settlement what it was.
    pub proof fn law_bust_forfeits_wager(self, player: PlayerID)
        requires
            self.wf(),
            self.bets.contains_key(player),
            hand_value(self.hands[player]) > 21,
        ensures
            self.settled_bets()[player] == 0,
            self.settle().money[player] == self.money[player],
            self.dealt() ==> self.dealer_turn().0.money[player] == self.money[player],
    {
        assert(self.money.contains_key(player));
        let (dealer, deck) = dealer_play(self.dealer, self.deck);
        let played = Table { dealer, deck, ..self };
        assert(played.settled_bets()[player] == 0);
    }

    /// No action changes the seats of a table.
    pub proof fn law_act_keeps_seats(self, action: GameAction, player: PlayerID)
        requires
            self.wf(),
        ensures
            self.act(action, player).table.seats == self.seats,
    {
        match action {
            GameAction::Hit => {
                if self.current_player == Some(player) {
                    let drawn = self.draw_to(player);
                    let place = self.seats.index_of(player);
                    assert(0 <= place < self.seats.len());
                    drawn.mark_finished(player).lemma_seek_turn_keeps(place + 1);
                }
            },
            GameAction::Stand => {
                if self.current_player == Some(player) {
                    let place = self.seats.index_of(player);
                    assert(0 <= place < self.seats.len());
                    self.mark_finished(player).lemma_seek_turn_keeps(place + 1);
                }
            },
            GameAction::Double => {
                if self.may_double(player) {
                    let drawn = self.raise(player).draw_to(player);
                    let place = self.seats.index_of(player);
                    assert(0 <= place < self.seats.len());
                    drawn.mark_finished(player).lemma_seek_turn_keeps(place + 1);
                }
            },
            GameAction::AddMoney(amount) => {},
            GameAction::StartingBet(amount) => {
                let staked = self.stake(player, amount);
                staked.deal().0.mark_naturals().lemma_seek_turn_keeps(0);
            },
        }
    }
}

/// The payment for a hand worth more than twenty-one is nothing, whatever
/// the wager, the number of cards and the dealer's hand.
pub proof fn law_bust_pays_nothing(bet: ChipPile, player: int, cards: nat, dealer: int)
    requires
        player > 21,
    ensures
        payout(bet, player, cards, dealer) == 0,
{
}

impl Floor {
    /// The table of a player depends on the seats of the tables alone.
    pub proof fn lemma_first_table_by_seats(self, other: Floor, player: PlayerID, from: int)
        requires
            self.tables.len() == other.tables.len(),
            forall|i: int|
                0 <= i < self.tables.len() ==> (#[trigger] self.tables[i]).seats
                    == other.tables[i].seats,
        ensures
            self.first_table(player, from) == other.first_table(player, from),
        decreases self.tables.len() - from,
    {
        if 0 <= from < self.tables.len() {
            assert(self.tables[from].seats == other.tables[from].seats);
            if !self.tables[from].seats.contains(player) {
                self.lemma_first_table_by_seats(other, player, from + 1);
            }
        }
    }

    /// The table that `first_table` finds is not before `from`, and the
    /// player sits at it.
    pub proof fn lemma_first_table(self, player: PlayerID, from: int)
        requires
            0 <= from,
        ensures
            self.first_table(player, from) <= self.tables.len(),
            self.first_table(player, from) < self.tables.len() ==> from <= self.first_table(
                player,
                from,
            ) && self.tables[self.first_table(player, from)].seats.contains(player),
        decreases self.tables.len() - from,
    {
        if from < self.tables.len() && !self.tables[from].seats.contains(player) {
            self.lemma_first_table(player, from + 1);
        }
    }

    /// The action of a player who sits at no table is answered with
    /// `PlayerNotFound`, and the coordinator, with every table, stays as it
    /// is.
    pub proof fn law_unseated_player_is_not_found(self, player: PlayerID, action: GameAction)
        requires
            !self.seated(player),
        ensures
            self.dispatch(player, action) == (
                self,
                Err::<Seq<ClientEvent>, CoordinatorError>(CoordinatorError::PlayerNotFound),
            ),
    {
    }

    /// After the waiting events have been taken, none waits: taking them a
    /// second time, with nothing dispatched between, gives an empty map.
    pub proof fn law_second_drain_is_empty(self)
        ensures
            self.drained().outbound == Map::<PlayerID, Seq<ClientEvent>>::empty(),
            self.drained().drained() == self.drained(),
    {
    }

    /// Dispatching changes no table but that of the player, and the seats of
    /// none.
    pub proof fn lemma_dispatch_touches_one_table(self, player: PlayerID, action: GameAction)
        requires
            self.wf(),
        ensures
            self.dispatch(player, action).0.wf(),
            self.dispatch(player, action).0.tables.len() == self.tables.len(),
            self.dispatch(player, action).0.waiting == self.waiting,
            forall|i: int|
                0 <= i < self.tables.len() ==> (#[trigger] self.dispatch(
                    player,
                    action,
                ).0.tables[i]).seats == self.tables[i].seats,
            forall|i: int|
                0 <= i < self.tables.len() && i != self.table_of(player)
                    ==> #[trigger] self.dispatch(player, action).0.tables[i] == self.tables[i],
            self.seated(player) ==> self.dispatch(player, action).0.tables[self.table_of(player)]
                == self.tables[self.table_of(player)].act(action, player).table,
    {
        self.lemma_first_table(player, 0);
        if self.seated(player) {
            let place = self.table_of(player);
            assert(self.tables[place].wf());
            self.tables[place].law_act_keeps_seats(action, player);
            self.tables[place].lemma_act_wf(action, player);
            let after = self.dispatch(player, action).0;
            assert forall|i: int| 0 <= i < after.tables.len() implies (#[trigger] after.tables[i]).wf() by {
                if i != place {
                    assert(self.tables[i].wf());
                }
            }
        }
    }

    /// Two actions of players at different tables leave every table as it
    /// would be with the two actions in the other order, and each action has
    /// the same answer in both orders.
    pub proof fn law_actions_at_different_tables_commute(
        self,
        first: PlayerID,
        first_action: GameAction,
        second: PlayerID,
        second_action: GameAction,
    )
        requires
            self.wf(),
            self.seated(first),
            self.seated(second),
            self.table_of(first) != self.table_of(second),
        ensures
            self.dispatch(first, first_action).0.dispatch(second, second_action).0.tables
                == self.dispatch(second, second_action).0.dispatch(first, first_action).0.tables,
            self.dispatch(first, first_action).0.dispatch(second, second_action).1
                == self.dispatch(second, second_action).1,
            self.dispatch(second, second_action).0.dispatch(first, first_action).1
                == self.dispatch(first, first_action).1,
    {
        let one = self.dispatch(first, first_action).0;
        let two = self.dispatch(second, second_action).0;
        self.lemma_dispatch_touches_one_table(first, first_action);
        self.lemma_dispatch_touches_one_table(second, second_action);
        one.lemma_first_table_by_seats(self, second, 0);
        one.lemma_first_table_by_seats(self, first, 0);
        two.lemma_first_table_by_seats(self, first, 0);
        two.lemma_first_table_by_seats(self, second, 0);
        one.lemma_dispatch_touches_one_table(second, second_action);
        two.lemma_dispatch_touches_one_table(first, first_action);
        let left = one.dispatch(second, second_action).0;
        let right = two.dispatch(first, first_action).0;
        let i = self.table_of(first);
        let j = self.table_of(second);
        self.lemma_first_table(first, 0);
        self.lemma_first_table(second, 0);
        assert(one.table_of(second) == j && two.table_of(first) == i);
        assert(one.tables[j] == self.tables[j]);
        assert(two.tables[i] == self.tables[i]);
        assert(left.tables =~= right.tables);
    }
}

} // verus!
