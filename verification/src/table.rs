//! The table as a mathematical value, and the rules of a round as functions
//! from one such value to the next.

use crate::card::Card;
use crate::chips::{clip, payout, ChipPile};
use crate::gamestate::{ClientEvent, FromPlayer, GameAction, GameError, PlayerID};
use crate::hand::{ace_count, hand_value, is_natural, raw_total};
use vstd::prelude::*;

verus! {

/// The players of `players` other than `player`, in their order.
pub open spec fn without(players: Seq<PlayerID>, player: PlayerID) -> Seq<PlayerID>
    decreases players.len(),
{
    if players.len() == 0 {
        Seq::empty()
    } else {
        let rest = without(players.drop_last(), player);
        if players.last() == player {
            rest
        } else {
            rest.push(players.last())
        }
    }
}

/// The players of `players`, each at the place where it first occurs.
pub open spec fn distinct(players: Seq<PlayerID>) -> Seq<PlayerID>
    decreases players.len(),
{
    if players.len() == 0 {
        Seq::empty()
    } else {
        let rest = distinct(players.drop_last());
        if rest.contains(players.last()) {
            rest
        } else {
            rest.push(players.last())
        }
    }
}

/// The players of `seats` whose hand is a natural, in their order.
pub open spec fn naturals(seats: Seq<PlayerID>, hands: Map<PlayerID, Seq<Card>>) -> Seq<PlayerID>
    decreases seats.len(),
{
    if seats.len() == 0 {
        Seq::empty()
    } else {
        let rest = naturals(seats.drop_last(), hands);
        if is_natural(hands[seats.last()]) {
            rest.push(seats.last())
        } else {
            rest
        }
    }
}

/// One card shown to each seat: the card at a place goes to the seat at that
/// place.
pub open spec fn reveals_to(seats: Seq<PlayerID>, cards: Seq<Card>) -> Seq<ClientEvent> {
    Seq::new(seats.len(), |i: int| ClientEvent::CardRevealed(FromPlayer::Player(seats[i]), cards[i]))
}

/// The dealer's cards shown one after the other.
pub open spec fn reveals_by_dealer(cards: Seq<Card>) -> Seq<ClientEvent> {
    Seq::new(cards.len(), |i: int| ClientEvent::CardRevealed(FromPlayer::Dealer, cards[i]))
}

/// As many notices that a player's round is over.
pub open spec fn round_overs(count: nat) -> Seq<ClientEvent> {
    Seq::new(count, |i: int| ClientEvent::PlayerRoundOver)
}

/// The dealer's hand and the deck after the dealer has drawn from the head of
/// the deck while the hand is worth less than seventeen and a card is left.
pub open spec fn dealer_play(dealer: Seq<Card>, deck: Seq<Card>) -> (Seq<Card>, Seq<Card>)
    decreases deck.len(),
{
    if hand_value(dealer) >= 17 || deck.len() == 0 {
        (dealer, deck)
    } else {
        dealer_play(dealer.push(deck[0]), deck.skip(1))
    }
}

/// A table.
pub struct Table {
    /// The player whose turn it is, if it is anybody's.
    pub current_player: Option<PlayerID>,
    /// The seated players, in the order of their turns.
    pub seats: Seq<PlayerID>,
    /// The hand of each player that has one.
    pub hands: Map<PlayerID, Seq<Card>>,
    /// The balance of each player that has one.
    pub money: Map<PlayerID, ChipPile>,
    /// The wagers that are placed and not settled.
    pub bets: Map<PlayerID, ChipPile>,
    /// The players whose turn is over, in the order in which it ended.
    pub finished: Seq<PlayerID>,
    /// The dealer's hand.
    pub dealer: Seq<Card>,
    /// The cards still to be drawn, the next one first.
    pub deck: Seq<Card>,
}

/// A table after an action, with the events the action produced or the
/// reason it was refused.
pub struct Step {
    pub table: Table,
    pub result: Result<Seq<ClientEvent>, GameError>,
}

impl Table {
    /// The table of the given seats before anything has happened at it.
    pub open spec fn fresh(seats: Seq<PlayerID>) -> Table {
        Table {
            current_player: None,
            seats,
            hands: Map::empty(),
            money: Map::empty(),
            bets: Map::empty(),
            finished: Seq::empty(),
            dealer: Seq::empty(),
            deck: Seq::empty(),
        }
    }

    /// Every seated player has placed a wager.
    pub open spec fn all_bets_in(self) -> bool {
        forall|p: PlayerID| self.seats.contains(p) ==> #[trigger] self.bets.contains_key(p)
    }

    /// The cards have been dealt: the dealer holds some.
    pub open spec fn dealt(self) -> bool {
        self.dealer.len() > 0
    }

    /// The round is closed: the cards have been dealt and the turn is
    /// nobody's.
    pub open spec fn closed(self) -> bool {
        self.dealt() && self.current_player is None
    }

    /// What holds of a table between any two steps of a round, whoever's turn
    /// it is: no player sits twice or has finished twice, only seated players
    /// have finished or hold a hand, a balance or a wager, a wager goes with
    /// a balance and a balance with a hand, balances are not negative and
    /// wagers are positive, no hand is worth more than thirty-two and the
    /// hand of a player who has not finished no more than twenty-one, and
    /// the dealer holds no card or at least two; before the deal nobody has
    /// finished and every hand is empty.
    pub open spec fn inv(self) -> bool {
        &&& self.seats.no_duplicates()
        &&& self.finished.no_duplicates()
        &&& forall|p: PlayerID| #[trigger] self.finished.contains(p) ==> self.seats.contains(p)
        &&& forall|p: PlayerID| #[trigger]
            self.hands.contains_key(p) <==> self.money.contains_key(p)
        &&& forall|p: PlayerID| #[trigger] self.money.contains_key(p) ==> self.seats.contains(p)
        &&& forall|p: PlayerID| #[trigger] self.bets.contains_key(p) ==> self.money.contains_key(p)
        &&& forall|p: PlayerID| self.money.contains_key(p) ==> #[trigger] self.money[p] >= 0
        &&& forall|p: PlayerID| self.bets.contains_key(p) ==> #[trigger] self.bets[p] > 0
        &&& forall|p: PlayerID|
            self.hands.contains_key(p) ==> hand_value(#[trigger] self.hands[p]) <= 32
        &&& forall|p: PlayerID|
            self.hands.contains_key(p) && !self.finished.contains(p) ==> hand_value(
                #[trigger] self.hands[p],
            ) <= 21
        &&& hand_value(self.dealer) <= 32
        &&& self.dealer.len() != 1
        &&& !self.dealt() ==> {
            &&& self.finished.len() == 0
            &&& forall|p: PlayerID|
                self.hands.contains_key(p) ==> (#[trigger] self.hands[p]).len() == 0
        }
    }

    /// A table is well formed when `inv` holds of it and its turn is nobody's
    /// or that of a seated player who has not finished, at a table where the
    /// cards are dealt and every seated player has a wager.
    pub open spec fn wf(self) -> bool {
        &&& self.inv()
        &&& match self.current_player {
            Some(p) => {
                &&& self.seats.contains(p)
                &&& !self.finished.contains(p)
                &&& self.dealt()
                &&& self.all_bets_in()
            },
            None => true,
        }
    }

    /// The place of the first seat at or after `from` whose player has not
    /// finished; the number of seats if there is none.
    pub open spec fn next_open_seat(self, from: int) -> int
        decreases self.seats.len() - from,
    {
        if from < 0 || from >= self.seats.len() {
            self.seats.len() as int
        } else if !self.finished.contains(self.seats[from]) {
            from
        } else {
            self.next_open_seat(from + 1)
        }
    }

    /// The table after `player` has drawn the card at the head of the deck.
    pub open spec fn draw_to(self, player: PlayerID) -> Table {
        Table {
            hands: self.hands.insert(player, self.hands[player].push(self.deck[0])),
            deck: self.deck.skip(1),
            ..self
        }
    }

    /// The table after `player` has been marked as finished.
    pub open spec fn mark_finished(self, player: PlayerID) -> Table {
        Table { finished: self.finished.push(player), ..self }
    }

    /// What the wager of `player` is worth against the dealer's hand.
    pub open spec fn winnings(self, player: PlayerID) -> ChipPile {
        payout(
            self.bets[player],
            hand_value(self.hands[player]),
            self.hands[player].len(),
            hand_value(self.dealer),
        )
    }

    /// The wagers after each has been replaced by what it is worth.
    pub open spec fn settled_bets(self) -> Map<PlayerID, ChipPile> {
        Map::new(|p: PlayerID| self.bets.contains_key(p), |p: PlayerID| self.winnings(p))
    }

    /// The balances after each wager has been added to its player's balance.
    pub open spec fn credited_money(self) -> Map<PlayerID, ChipPile> {
        Map::new(
            |p: PlayerID| self.money.contains_key(p),
            |p: PlayerID|
                if self.bets.contains_key(p) {
                    clip(self.money[p] + self.bets[p])
                } else {
                    self.money[p]
                },
        )
    }

    /// The table after every outstanding wager has been settled against the
    /// dealer's hand, paid out and cleared.
    pub open spec fn settle(self) -> Table {
        let paid = Table { bets: self.settled_bets(), ..self };
        Table { money: paid.credited_money(), bets: Map::empty(), ..self }
    }

    /// The deck holds the cards that the dealer's turn draws.
    pub open spec fn dealer_served(self) -> bool {
        hand_value(dealer_play(self.dealer, self.deck).0) >= 17
    }

    /// The dealer's turn: the dealer shows the second card, draws while the
    /// hand is worth less than seventeen, every wager is settled, and the
    /// round is over. The turn is then nobody's.
    pub open spec fn dealer_turn(self) -> (Table, Seq<ClientEvent>) {
        let (dealer, deck) = dealer_play(self.dealer, self.deck);
        let drawn = dealer.skip(self.dealer.len() as int);
        let played = Table { dealer, deck, ..self };
        (
            Table { current_player: None, ..played.settle() },
            seq![ClientEvent::CardRevealed(FromPlayer::Dealer, self.dealer[1])]
                + reveals_by_dealer(drawn) + seq![ClientEvent::RoundOver],
        )
    }

    /// The deck holds the cards that `seek_turn` draws.
    pub open spec fn turn_served(self, from: int) -> bool {
        self.next_open_seat(from) < self.seats.len() || self.dealer_served()
    }

    /// Gives the turn to the first seat at or after `from` whose player has
    /// not finished; where there is none, the dealer's turn follows.
    pub open spec fn seek_turn(self, from: int) -> (Table, Seq<ClientEvent>) {
        let next = self.next_open_seat(from);
        if next < self.seats.len() {
            (Table { current_player: Some(self.seats[next]), ..self }, Seq::empty())
        } else {
            self.dealer_turn()
        }
    }

    /// The deck holds the cards that `stand` draws.
    pub open spec fn stand_served(self, player: PlayerID) -> bool {
        self.mark_finished(player).turn_served(self.seats.index_of(player) + 1)
    }

    /// `player` stands: the player has finished, and the turn passes to the
    /// next seat after the player's whose player has not finished, or to the
    /// dealer.
    pub open spec fn stand(self, player: PlayerID) -> (Table, Seq<ClientEvent>) {
        let (table, events) = self.mark_finished(player).seek_turn(
            self.seats.index_of(player) + 1,
        );
        (table, seq![ClientEvent::PlayerRoundOver] + events)
    }

    /// The deck holds the cards that `hit` draws.
    pub open spec fn hit_served(self, player: PlayerID) -> bool {
        &&& self.deck.len() > 0
        &&& hand_value(self.draw_to(player).hands[player]) > 21 ==> self.draw_to(
            player,
        ).stand_served(player)
    }

    /// `player` hits: the player draws a card, and stands if the hand is
    /// then worth more than twenty-one.
    pub open spec fn hit(self, player: PlayerID) -> (Table, Seq<ClientEvent>) {
        let drawn = self.draw_to(player);
        let shown = seq![
            ClientEvent::CardRevealed(FromPlayer::Player(player), self.deck[0]),
        ];
        if hand_value(drawn.hands[player]) > 21 {
            let (table, events) = drawn.stand(player);
            (table, shown + events)
        } else {
            (drawn, shown)
        }
    }

    /// `player` may double: it is the player's turn, the hand has two cards
    /// worth nine, ten or eleven, and the balance covers the wager once more.
    pub open spec fn may_double(self, player: PlayerID) -> bool {
        &&& self.current_player == Some(player)
        &&& self.hands[player].len() == 2
        &&& 9 <= hand_value(self.hands[player]) <= 11
        &&& self.bets[player] <= self.money[player]
    }

    /// The table after `player` has paid the wager a second time.
    pub open spec fn raise(self, player: PlayerID) -> Table {
        Table {
            money: self.money.insert(player, clip(self.money[player] - self.bets[player])),
            bets: self.bets.insert(player, clip(2 * self.bets[player])),
            ..self
        }
    }

    /// The deck holds the cards that `double` draws.
    pub open spec fn double_served(self, player: PlayerID) -> bool {
        &&& self.deck.len() > 0
        &&& self.raise(player).draw_to(player).stand_served(player)
    }

    /// `player` doubles: the player pays the wager a second time, draws one
    /// card and stands.
    pub open spec fn double(self, player: PlayerID) -> (Table, Seq<ClientEvent>) {
        let (table, events) = self.raise(player).draw_to(player).stand(player);
        (table, seq![ClientEvent::CardRevealed(FromPlayer::Player(player), self.deck[0])] + events)
    }

    /// One round of the deal: every seat, in turn, draws the card at the head
    /// of the deck, which is shown.
    pub open spec fn deal_pass(self) -> (Table, Seq<ClientEvent>) {
        let n = self.seats.len() as int;
        (
            Table {
                hands: Map::new(
                    |p: PlayerID| self.hands.contains_key(p),
                    |p: PlayerID|
                        if self.seats.contains(p) {
                            self.hands[p].push(self.deck[self.seats.index_of(p)])
                        } else {
                            self.hands[p]
                        },
                ),
                deck: self.deck.skip(n),
                ..self
            },
            reveals_to(self.seats, self.deck.subrange(0, n)),
        )
    }

    /// The table after the dealer has drawn the card at the head of the deck.
    pub open spec fn dealer_draws(self) -> Table {
        Table { dealer: self.dealer.push(self.deck[0]), deck: self.deck.skip(1), ..self }
    }

    /// The hand of `player` after the deal: the hand before it, then the card
    /// at the player's place in the deck, then the card at that place after
    /// the first round and the dealer's first card.
    pub open spec fn dealt_hand(self, player: PlayerID) -> Seq<Card> {
        if self.seats.contains(player) {
            let place = self.seats.index_of(player);
            self.hands[player].push(self.deck[place]).push(self.deck[self.seats.len() + 1 + place])
        } else {
            self.hands[player]
        }
    }

    /// The deal: one card to every seat in turn, one to the dealer, which is
    /// shown, a second card to every seat, and a second one to the dealer,
    /// which is not.
    pub open spec fn deal(self) -> (Table, Seq<ClientEvent>) {
        let n = self.seats.len() as int;
        (
            Table {
                hands: Map::new(
                    |p: PlayerID| self.hands.contains_key(p),
                    |p: PlayerID| self.dealt_hand(p),
                ),
                dealer: self.dealer.push(self.deck[n]).push(self.deck[2 * n + 1]),
                deck: self.deck.skip(2 * n + 2),
                ..self
            },
            reveals_to(self.seats, self.deck.subrange(0, n)) + seq![
                ClientEvent::CardRevealed(FromPlayer::Dealer, self.deck[n]),
            ] + reveals_to(self.seats, self.deck.subrange(n + 1, 2 * n + 1)),
        )
    }

    /// The table after every player with a natural has been marked as
    /// finished.
    pub open spec fn mark_naturals(self) -> Table {
        Table { finished: self.finished + naturals(self.seats, self.hands), ..self }
    }

    /// The deck holds the cards that `open_round` draws.
    pub open spec fn round_served(self) -> bool {
        &&& self.deck.len() >= 2 * self.seats.len() + 2
        &&& self.deal().0.mark_naturals().turn_served(0)
    }

    /// The round opens: the cards are dealt, every player with a natural has
    /// finished, and the turn goes to the first seat whose player has not, or
    /// to the dealer.
    pub open spec fn open_round(self) -> (Table, Seq<ClientEvent>) {
        let (dealt, shown) = self.deal();
        let marked = dealt.mark_naturals();
        let (table, events) = marked.seek_turn(0);
        (table, shown + round_overs(naturals(dealt.seats, dealt.hands).len()) + events)
    }

    /// The table after `player` has been credited `amount`.
    pub open spec fn pay_in(self, player: PlayerID, amount: ChipPile) -> Table {
        Table { money: self.money.insert(player, clip(self.money[player] + amount)), ..self }
    }

    /// The table after `player` has moved `amount` from the balance to a new
    /// wager.
    pub open spec fn stake(self, player: PlayerID, amount: ChipPile) -> Table {
        Table {
            money: self.money.insert(player, clip(self.money[player] - amount)),
            bets: self.bets.insert(player, amount),
            ..self
        }
    }

    /// The wager of `amount` by `player` is the one that opens the round: the
    /// cards are not dealt yet and every seated player has then a wager.
    pub open spec fn opens_round(self, player: PlayerID, amount: ChipPile) -> bool {
        !self.dealt() && self.stake(player, amount).all_bets_in()
    }

    /// The action is refused and the table stays as it is.
    pub open spec fn refuse(self, error: GameError) -> Step {
        Step { table: self, result: Err(error) }
    }

    /// The deck holds every card that the action of `player` draws.
    pub open spec fn serves(self, action: GameAction, player: PlayerID) -> bool {
        match action {
            GameAction::Hit => self.current_player == Some(player) ==> self.hit_served(player),
            GameAction::Stand => self.current_player == Some(player) ==> self.stand_served(
                player,
            ),
            GameAction::Double => self.may_double(player) ==> self.double_served(player),
            GameAction::AddMoney(_) => true,
            GameAction::StartingBet(amount) => 0 < amount && self.money.contains_key(player)
                && amount <= self.money[player] && self.opens_round(player, amount)
                ==> self.stake(player, amount).round_served(),
        }
    }

    /// The action of `player` at this table.
    ///
    /// - `Hit` and `Stand` are refused as invalid unless it is the player's
    ///   turn.
    /// - `Double` changes nothing and produces no event unless the player
    ///   may double.
    /// - `AddMoney` is refused as invalid for an amount that is not positive,
    ///   and for want of the player where the player has no balance; else
    ///   the amount is credited.
    /// - `StartingBet` is refused as invalid for an amount that is not
    ///   positive, for want of the player where the player has no balance,
    ///   and as invalid for an amount above the balance; else the amount
    ///   becomes the player's wager, and the round opens if it is the wager
    ///   that opens it.
    pub open spec fn act(self, action: GameAction, player: PlayerID) -> Step {
        match action {
            GameAction::Hit => if self.current_player == Some(player) {
                let (table, events) = self.hit(player);
                Step { table, result: Ok(events) }
            } else {
                self.refuse(GameError::InvaildAction)
            },
            GameAction::Stand => if self.current_player == Some(player) {
                let (table, events) = self.stand(player);
                Step { table, result: Ok(events) }
            } else {
                self.refuse(GameError::InvaildAction)
            },
            GameAction::Double => if self.may_double(player) {
                let (table, events) = self.double(player);
                Step { table, result: Ok(events) }
            } else {
                Step { table: self, result: Ok(Seq::empty()) }
            },
            GameAction::AddMoney(amount) => if amount <= 0 {
                self.refuse(GameError::InvaildAction)
            } else if !self.money.contains_key(player) {
                self.refuse(GameError::MissingPlayerID)
            } else {
                Step {
                    table: self.pay_in(player, amount),
                    result: Ok(seq![ClientEvent::Betting(player, amount)]),
                }
            },
            GameAction::StartingBet(amount) => if amount <= 0 {
                self.refuse(GameError::InvaildAction)
            } else if !self.money.contains_key(player) {
                self.refuse(GameError::MissingPlayerID)
            } else if amount > self.money[player] {
                self.refuse(GameError::InvaildAction)
            } else {
                let placed = seq![ClientEvent::Betting(player, amount)];
                if self.opens_round(player, amount) {
                    let (table, events) = self.stake(player, amount).open_round();
                    Step { table, result: Ok(placed + events) }
                } else {
                    Step { table: self.stake(player, amount), result: Ok(placed) }
                }
            },
        }
    }

    /// `after` is this table after `player` has drawn exactly one card: the
    /// card at the head of the deck is the last of the player's hand, which
    /// raises the raw total of the hand by the points of the card, and no
    /// other hand has changed. The hand is worth no more than twenty-one
    /// unless it would exceed that with every ace counted as one; the player
    /// has finished exactly if it does, and else nothing but the draw has
    /// happened.
    pub open spec fn drew_one_card(self, after: Table, player: PlayerID) -> bool {
        let card = self.deck[0];
        let hand = after.hands[player];
        &&& after.hands == self.hands.insert(player, self.hands[player].push(card))
        &&& hand.len() == self.hands[player].len() + 1
        &&& raw_total(hand) == raw_total(self.hands[player]) + card.points()
        &&& hand_value(hand) <= 21 || raw_total(hand) - 10 * ace_count(hand) > 21
        &&& hand_value(hand) > 21 <==> after.finished.contains(player)
        &&& hand_value(hand) <= 21 ==> after == self.draw_to(player)
    }

    /// `after` is this table after the turn has passed on from `player`: the
    /// seats are as they were and the player has finished. The turn is with
    /// a player who sits behind `player` and has not finished, and all who
    /// sit between the two have; or all who sit behind `player` have
    /// finished, the turn is nobody's and no wager is left.
    pub open spec fn passed_turn_on(self, after: Table, player: PlayerID) -> bool {
        let place = self.seats.index_of(player);
        &&& after.seats == self.seats
        &&& after.finished == self.finished.push(player)
        &&& 0 <= place < self.seats.len() && self.seats[place] == player
        &&& match after.current_player {
            Some(next) => exists|j: int|
                {
                    &&& place < j < self.seats.len()
                    &&& #[trigger] self.seats[j] == next
                    &&& !after.finished.contains(next)
                    &&& forall|k: int|
                        place < k < j ==> after.finished.contains(#[trigger] self.seats[k])
                },
            None => {
                &&& forall|k: int|
                    place < k < self.seats.len() ==> after.finished.contains(
                        #[trigger] self.seats[k],
                    )
                &&& after.bets == Map::<PlayerID, ChipPile>::empty()
            },
        }
    }

    /// The step to `after` with `result` settles the round at most once: if
    /// it tells that the round is over, the round was not closed before, is
    /// closed after, and no wager is left; and a round that was closed stays
    /// closed and is not told to be over again.
    pub open spec fn settles_once(
        self,
        after: Table,
        result: Result<Seq<ClientEvent>, GameError>,
    ) -> bool {
        let told = result is Ok && result.unwrap().contains(ClientEvent::RoundOver);
        &&& told ==> !self.closed() && after.closed() && after.bets == Map::<
            PlayerID,
            ChipPile,
        >::empty()
        &&& self.closed() ==> after.closed() && !told
    }

    /// What holds of the step to `after` with `result` that the action of
    /// `player` makes: a hit in turn draws exactly one card, a stand in turn
    /// passes the turn on, doubling without its conditions and adding an
    /// amount that is not positive change nothing, and the round is settled
    /// at most once.
    pub open spec fn keeps_rules(
        self,
        action: GameAction,
        player: PlayerID,
        after: Table,
        result: Result<Seq<ClientEvent>, GameError>,
    ) -> bool {
        &&& self.settles_once(after, result)
        &&& match action {
            GameAction::Hit => self.current_player == Some(player) ==> {
                &&& result is Ok
                &&& result.unwrap()[0] == ClientEvent::CardRevealed(
                    FromPlayer::Player(player),
                    self.deck[0],
                )
                &&& self.drew_one_card(after, player)
            },
            GameAction::Stand => self.current_player == Some(player) ==> {
                &&& result is Ok
                &&& result.unwrap()[0] == ClientEvent::PlayerRoundOver
                &&& self.passed_turn_on(after, player)
            },
            GameAction::Double => self.current_player != Some(player) || self.hands[player].len()
                != 2 || hand_value(self.hands[player]) < 9 || hand_value(self.hands[player]) > 11
                || self.money[player] < self.bets[player] ==> after == self && result == Ok::<
                Seq<ClientEvent>,
                GameError,
            >(Seq::empty()),
            GameAction::AddMoney(amount) => amount <= 0 ==> after == self && result == Err::<
                Seq<ClientEvent>,
                GameError,
            >(GameError::InvaildAction),
            GameAction::StartingBet(_) => true,
        }
    }

    /// The table after every seated player has been given an empty hand and
    /// a balance of nothing.
    pub open spec fn with_new_hands(self) -> Table {
        Table {
            hands: Map::new(|p: PlayerID| self.seats.contains(p), |p: PlayerID| Seq::empty()),
            money: Map::new(|p: PlayerID| self.seats.contains(p), |p: PlayerID| 0i64),
            ..self
        }
    }

    /// The table after `player` has left it: the player has no seat, hand,
    /// balance or wager any more and is not among the finished, and the turn
    /// is nobody's if it was the player's.
    pub open spec fn leave(self, player: PlayerID) -> Table {
        Table {
            current_player: if self.current_player == Some(player) {
                None
            } else {
                self.current_player
            },
            seats: without(self.seats, player),
            hands: self.hands.remove(player),
            money: self.money.remove(player),
            bets: self.bets.remove(player),
            finished: without(self.finished, player),
            ..self
        }
    }
}

} // verus!
