//! One blackjack table: its players, their hands, balances and wagers, the
//! dealer's hand and the deck, and the actions that move a round from the
//! first wager to the settlement.

use crate::card::Card;
use crate::chips::{credit, settle};
use crate::hand::{
    hand_value, is_natural, lemma_two_cards_stay, lemma_value_at_least_len, lemma_value_push,
    value_of,
};
use crate::invariants::{
    lemma_dealer_play, lemma_distinct, lemma_naturals, lemma_push_keeps_distinct, lemma_take_next,
};
use crate::table::{
    dealer_play, distinct, naturals, reveals_by_dealer, reveals_to, round_overs, without, Table,
};
use std::collections::HashMap;
use vstd::prelude::*;

pub use crate::chips::ChipPile;

verus! {

broadcast use vstd::std_specs::hash::group_hash_axioms;

/// The cards of a player or of the dealer, in the order they were drawn.
pub type Hand = Vec<Card>;

/// The identifier of a player: the 128 bits of the identifier minted when
/// the player connected.
pub type PlayerID = u128;

/// What a player asks the table to do.
#[derive(Debug, Clone, Copy, PartialEq, Eq, Structural)]
pub enum GameAction {
    Hit,
    Stand,
    Double,
    AddMoney(ChipPile),
    StartingBet(ChipPile),
}

/// Why the table refused an action.
#[derive(Debug, Clone, Copy, PartialEq, Eq, Structural)]
pub enum GameError {
    MissingPlayerID,
    InvaildAction,
}

/// Whose card an event shows.
#[derive(Debug, Clone, Copy, PartialEq, Eq, Structural)]
pub enum FromPlayer {
    Dealer,
    Player(PlayerID),
}

/// What the table tells its players.
#[derive(Debug, Clone, Copy, PartialEq, Eq, Structural)]
pub enum ClientEvent {
    PlayerRoundOver,
    RoundOver,
    CardRevealed(FromPlayer, Card),
    Betting(PlayerID, ChipPile),
}


/// The state of one table.
#[derive(Debug)]
pub struct GameState {
    current_player: Option<PlayerID>,
    player_list: Vec<PlayerID>,
    player_hand: HashMap<PlayerID, Hand>,
    player_money: HashMap<PlayerID, ChipPile>,
    player_bet: HashMap<PlayerID, ChipPile>,
    player_round_over: Vec<PlayerID>,
    dealer_hand: Hand,
    deck: Vec<Card>,
}

/// The hands of a map, each as the sequence of its cards.
pub open spec fn hands_of(hands: Map<PlayerID, Hand>) -> Map<PlayerID, Seq<Card>> {
    Map::new(|p: PlayerID| hands.contains_key(p), |p: PlayerID| hands[p]@)
}

/// Whether `player` is in `players`.
pub fn has_player(players: &Vec<PlayerID>, player: PlayerID) -> (found: bool)
    ensures
        found == players@.contains(player),
{
    let mut i: usize = 0;
    while i < players.len()
        invariant
            i <= players@.len(),
            forall|j: int| 0 <= j < i ==> players@[j] != player,
        decreases players@.len() - i,
    {
        if players[i] == player {
            return true;
        }
        i = i + 1;
    }
    false
}

/// The players of `players` other than `player`, in their order.
pub fn drop_player(players: &Vec<PlayerID>, player: PlayerID) -> (rest: Vec<PlayerID>)
    ensures
        rest@ == without(players@, player),
{
    let mut rest: Vec<PlayerID> = Vec::new();
    let mut i: usize = 0;
    while i < players.len()
        invariant
            i <= players@.len(),
            rest@ == without(players@.take(i as int), player),
        decreases players@.len() - i,
    {
        proof {
            assert(players@.take(i as int + 1).drop_last() =~= players@.take(i as int));
        }
        if players[i] != player {
            rest.push(players[i]);
        }
        i = i + 1;
    }
    proof {
        assert(players@.take(players@.len() as int) =~= players@);
    }
    rest
}

impl View for GameState {
    type V = Table;

    closed spec fn view(&self) -> Table {
        Table {
            current_player: self.current_player,
            seats: self.player_list@,
            hands: hands_of(self.player_hand@),
            money: self.player_money@,
            bets: self.player_bet@,
            finished: self.player_round_over@,
            dealer: self.dealer_hand@,
            deck: self.deck@,
        }
    }
}

impl GameState {
    /// The state is that of a well-formed table.
    pub open spec fn wf(&self) -> bool {
        self@.wf()
    }

    /// A table for `users`, seated in their order, each at the place where
    /// it first occurs. Nothing has happened at it yet.
    pub fn new(users: Vec<PlayerID>) -> (game: Self)
        ensures
            game.wf(),
            game@ == Table::fresh(distinct(users@)),
            users@.no_duplicates() ==> game@.seats == users@,
    {
        let mut seats: Vec<PlayerID> = Vec::new();
        let mut i: usize = 0;
        while i < users.len()
            invariant
                i <= users@.len(),
                seats@ == distinct(users@.take(i as int)),
            decreases users@.len() - i,
        {
            proof {
                assert(users@.take(i as int + 1).drop_last() =~= users@.take(i as int));
            }
            if !has_player(&seats, users[i]) {
                seats.push(users[i]);
            }
            i = i + 1;
        }
        let game = GameState {
            current_player: None,
            player_list: seats,
            player_hand: HashMap::new(),
            player_money: HashMap::new(),
            player_bet: HashMap::new(),
            player_round_over: Vec::new(),
            dealer_hand: Vec::new(),
            deck: Vec::new(),
        };
        proof {
            assert(users@.take(users@.len() as int) =~= users@);
            lemma_distinct(users@);
            assert(game@.hands =~= Map::empty());
            assert(game@ == Table::fresh(distinct(users@)));
            Table::lemma_fresh_wf(distinct(users@));
        }
        game
    }

    /// Gives every seated player an empty hand and a balance of nothing.
    pub fn create_users_hand(&mut self)
        requires
            old(self).wf(),
        ensures
            final(self).wf(),
            final(self)@ == old(self)@.with_new_hands(),
    {
        let mut i: usize = 0;
        while i < self.player_list.len()
            invariant
                i <= self.player_list@.len(),
                old(self)@.wf(),
                self.current_player == old(self).current_player,
                self.player_list == old(self).player_list,
                self.player_bet == old(self).player_bet,
                self.player_round_over == old(self).player_round_over,
                self.dealer_hand == old(self).dealer_hand,
                self.deck == old(self).deck,
                forall|p: PlayerID| #[trigger]
                    self.player_hand@.contains_key(p) <==> old(self).player_hand@.contains_key(p)
                        || self.player_list@.take(i as int).contains(p),
                forall|p: PlayerID| #[trigger]
                    self.player_money@.contains_key(p) <==> old(self).player_money@.contains_key(p)
                        || self.player_list@.take(i as int).contains(p),
                forall|p: PlayerID| #[trigger]
                    self.player_list@.take(i as int).contains(p) ==> self.player_hand@[p]@.len()
                        == 0 && self.player_money@[p] == 0,
            decreases self.player_list@.len() - i,
        {
            let id = self.player_list[i];
            self.player_hand.insert(id, Vec::new());
            self.player_money.insert(id, 0);
            proof {
                lemma_take_next(self.player_list@, i as int);
            }
            i = i + 1;
        }
        proof {
            assert(self.player_list@.take(self.player_list@.len() as int) =~= self.player_list@);
            let target = old(self)@.with_new_hands();
            assert forall|p: PlayerID| self@.hands.contains_key(p) <==> target.hands.contains_key(
                p,
            ) by {
                assert(old(self)@.hands.contains_key(p) ==> old(self)@.money.contains_key(p));
            }
            assert forall|p: PlayerID| self@.hands.contains_key(p) implies self@.hands[p]
                == target.hands[p] by {
                assert(self.player_hand@.contains_key(p));
                if old(self).player_hand@.contains_key(p) {
                    assert(old(self)@.hands.contains_key(p));
                    assert(old(self)@.money.contains_key(p));
                }
                assert(self.player_list@.contains(p));
                assert(self.player_hand@[p]@ =~= Seq::<Card>::empty());
            }
            assert(self@.hands =~= target.hands);
            assert forall|p: PlayerID| self@.money.contains_key(p) <==> target.money.contains_key(
                p,
            ) by {
                assert(old(self)@.money.contains_key(p) ==> old(self)@.seats.contains(p));
            }
            assert(self@.money =~= target.money);
            old(self)@.lemma_with_new_hands_wf();
        }
    }

    /// Takes `player` from the table, and hands the identifier back.
    pub fn remove_user(&mut self, player: PlayerID) -> (removed: PlayerID)
        requires
            old(self).wf(),
        ensures
            final(self).wf(),
            final(self)@ == old(self)@.leave(player),
            removed == player,
    {
        self.player_list = drop_player(&self.player_list, player);
        self.player_hand.remove(&player);
        self.player_money.remove(&player);
        self.player_bet.remove(&player);
        self.player_round_over = drop_player(&self.player_round_over, player);
        if self.current_player == Some(player) {
            self.current_player = None;
        }
        proof {
            assert(self@.hands =~= old(self)@.leave(player).hands);
            old(self)@.lemma_leave_wf(player);
        }
        player
    }

    /// The player whose turn it is.
    pub fn get_current_player(&self) -> (player: Option<PlayerID>)
        ensures
            player == self@.current_player,
    {
        self.current_player
    }

    /// The player whose turn it is, or the error that no player is there.
    pub fn get_result_current_player(&self) -> (player: Result<PlayerID, GameError>)
        ensures
            player == match self@.current_player {
                Some(p) => Ok::<PlayerID, GameError>(p),
                None => Err(GameError::MissingPlayerID),
            },
    {
        match self.current_player {
            Some(p) => Ok(p),
            None => Err(GameError::MissingPlayerID),
        }
    }

    /// The cards still to be drawn.
    pub fn get_deck(&self) -> (deck: &Vec<Card>)
        ensures
            deck@ == self@.deck,
    {
        &self.deck
    }

    /// The cards still to be drawn, to put cards on the deck or take them
    /// off. Nothing else of the table changes with them.
    pub fn get_mut_deck(&mut self) -> (deck: &mut Vec<Card>)
        ensures
            deck@ == old(self)@.deck,
            final(self)@ == (Table { deck: final(deck)@, ..old(self)@ }),
    {
        &mut self.deck
    }

    /// The seated players, in the order of their turns.
    pub fn get_player_list(&self) -> (players: &Vec<PlayerID>)
        ensures
            players@ == self@.seats,
    {
        &self.player_list
    }

    /// The dealer's hand.
    pub fn get_dealer_hand(&self) -> (hand: &Hand)
        ensures
            hand@ == self@.dealer,
    {
        &self.dealer_hand
    }

    /// The hand of `player`, or the error that the player has none.
    pub fn get_player_hand(&self, player: PlayerID) -> (hand: Result<&Hand, GameError>)
        ensures
            match hand {
                Ok(cards) => self@.hands.contains_key(player) && cards@ == self@.hands[player],
                Err(error) => !self@.hands.contains_key(player) && error
                    == GameError::MissingPlayerID,
            },
    {
        match self.player_hand.get(&player) {
            Some(cards) => Ok(cards),
            None => Err(GameError::MissingPlayerID),
        }
    }

    /// The balance of `player`, or the error that the player has none.
    pub fn get_player_money(&self, player: PlayerID) -> (money: Result<ChipPile, GameError>)
        ensures
            money == if self@.money.contains_key(player) {
                Ok::<ChipPile, GameError>(self@.money[player])
            } else {
                Err(GameError::MissingPlayerID)
            },
    {
        match self.player_money.get(&player) {
            Some(money) => Ok(*money),
            None => Err(GameError::MissingPlayerID),
        }
    }

    /// The wager of `player`, or the error that the player has none.
    pub fn get_player_bet(&self, player: PlayerID) -> (bet: Result<ChipPile, GameError>)
        ensures
            bet == if self@.bets.contains_key(player) {
                Ok::<ChipPile, GameError>(self@.bets[player])
            } else {
                Err(GameError::MissingPlayerID)
            },
    {
        match self.player_bet.get(&player) {
            Some(bet) => Ok(*bet),
            None => Err(GameError::MissingPlayerID),
        }
    }

    /// The players whose turn is over.
    pub fn get_player_round_over(&self) -> (players: &Vec<PlayerID>)
        ensures
            players@ == self@.finished,
    {
        &self.player_round_over
    }
}


impl GameState {
    /// Moves the card at the head of the deck to the hand of `player`.
    fn draw_card(&mut self, player: PlayerID) -> (card: Card)
        requires
            old(self)@.deck.len() > 0,
            old(self)@.hands.contains_key(player),
        ensures
            final(self)@ == old(self)@.draw_to(player),
            card == old(self)@.deck[0],
    {
        let card = self.deck.remove(0);
        let held = self.player_hand.remove(&player);
        let mut hand = held.unwrap();
        hand.push(card);
        self.player_hand.insert(player, hand);
        proof {
            assert(self@.deck =~= old(self)@.deck.skip(1));
            assert(self@.hands =~= old(self)@.draw_to(player).hands);
        }
        card
    }

    /// Moves the card at the head of the deck to the dealer's hand.
    fn dealer_draw(&mut self) -> (card: Card)
        requires
            old(self)@.deck.len() > 0,
        ensures
            final(self)@ == (Table {
                dealer: old(self)@.dealer.push(old(self)@.deck[0]),
                deck: old(self)@.deck.skip(1),
                ..old(self)@
            }),
            card == old(self)@.deck[0],
    {
        let card = self.deck.remove(0);
        self.dealer_hand.push(card);
        proof {
            assert(self@.deck =~= old(self)@.deck.skip(1));
        }
        card
    }

    /// The dealer shows the second card and draws while the hand is worth
    /// less than seventeen. Nothing is handed back where the deck runs out
    /// before that.
    fn dealer_draw_final(&mut self) -> (shown: Option<Vec<ClientEvent>>)
        requires
            old(self)@.dealer.len() >= 2,
            hand_value(old(self)@.dealer) <= 32,
        ensures
            shown is Some <==> old(self)@.dealer_served(),
            shown is Some ==> {
                let (dealer, deck) = dealer_play(old(self)@.dealer, old(self)@.deck);
                &&& final(self)@ == (Table { dealer, deck, ..old(self)@ })
                &&& shown.unwrap()@ == seq![
                    ClientEvent::CardRevealed(FromPlayer::Dealer, old(self)@.dealer[1]),
                ] + reveals_by_dealer(dealer.skip(old(self)@.dealer.len() as int))
            },
    {
        let ghost before = self@;
        let mut events: Vec<ClientEvent> = Vec::new();
        events.push(ClientEvent::CardRevealed(FromPlayer::Dealer, self.dealer_hand[1]));
        proof {
            lemma_value_at_least_len(self.dealer_hand@);
            assert(self.dealer_hand@.take(before.dealer.len() as int) =~= before.dealer);
            assert(events@ =~= seq![
                ClientEvent::CardRevealed(FromPlayer::Dealer, before.dealer[1]),
            ] + reveals_by_dealer(self.dealer_hand@.skip(before.dealer.len() as int)));
        }
        while value_of(&self.dealer_hand) < 17
            invariant
                before == old(self)@,
                self@ == (Table { dealer: self.dealer_hand@, deck: self.deck@, ..before }),
                dealer_play(self.dealer_hand@, self.deck@) == dealer_play(
                    before.dealer,
                    before.deck,
                ),
                self.dealer_hand@.len() >= before.dealer.len() >= 2,
                self.dealer_hand@.take(before.dealer.len() as int) == before.dealer,
                self.dealer_hand@.len() <= 32,
                hand_value(self.dealer_hand@) <= 32,
                events@ == seq![ClientEvent::CardRevealed(FromPlayer::Dealer, before.dealer[1])]
                    + reveals_by_dealer(self.dealer_hand@.skip(before.dealer.len() as int)),
            decreases self.deck@.len(),
        {
            if self.deck.len() == 0 {
                return None;
            }
            let ghost hand = self.dealer_hand@;
            let card = self.dealer_draw();
            events.push(ClientEvent::CardRevealed(FromPlayer::Dealer, card));
            proof {
                lemma_value_push(hand, card);
                lemma_value_at_least_len(self.dealer_hand@);
                assert(self.dealer_hand@.take(before.dealer.len() as int) =~= hand.take(
                    before.dealer.len() as int,
                ));
                assert(events@ =~= seq![
                    ClientEvent::CardRevealed(FromPlayer::Dealer, before.dealer[1]),
                ] + reveals_by_dealer(self.dealer_hand@.skip(before.dealer.len() as int)));
            }
        }
        Some(events)
    }

    /// Replaces every wager by what it is worth against the dealer's hand:
    /// nothing, whatever the dealer holds, for a hand worth more than
    /// twenty-one.
    fn compare_hands(&mut self)
        requires
            old(self)@.inv(),
        ensures
            final(self)@ == (Table { bets: old(self)@.settled_bets(), ..old(self)@ }),
            forall|p: PlayerID|
                old(self)@.bets.contains_key(p) && hand_value(old(self)@.hands[p]) > 21
                    ==> #[trigger] final(self)@.bets[p] == 0,
    {
        let ghost before = self@;
        proof {
            lemma_value_at_least_len(self.dealer_hand@);
        }
        let dealer_sum = value_of(&self.dealer_hand);
        let mut i: usize = 0;
        while i < self.player_list.len()
            invariant
                before == old(self)@,
                before.inv(),
                i <= self.player_list@.len(),
                self@ == (Table { bets: self.player_bet@, ..before }),
                dealer_sum == hand_value(before.dealer),
                forall|p: PlayerID| #[trigger]
                    self.player_bet@.contains_key(p) <==> before.bets.contains_key(p),
                forall|p: PlayerID|
                    before.bets.contains_key(p) ==> #[trigger] self.player_bet@[p] == if before.seats.take(
                        i as int,
                    ).contains(p) {
                        before.winnings(p)
                    } else {
                        before.bets[p]
                    },
            decreases self.player_list@.len() - i,
        {
            let player = self.player_list[i];
            proof {
                lemma_take_next(before.seats, i as int);
                if before.seats.take(i as int).contains(player) {
                    let j = choose|j: int|
                        0 <= j < i && before.seats.take(i as int)[j] == player;
                    assert(before.seats[j] == before.seats[i as int]);
                }
            }
            let placed = match self.player_bet.get(&player) {
                Some(bet) => Some(*bet),
                None => None,
            };
            if let Some(bet) = placed {
                proof {
                    assert(before.bets.contains_key(player));
                    assert(before.money.contains_key(player));
                    assert(before.hands.contains_key(player));
                    lemma_value_at_least_len(before.hands[player]);
                }
                let hand = self.player_hand.get(&player).unwrap();
                let worth = settle(bet, value_of(hand), hand.len(), dealer_sum);
                self.player_bet.insert(player, worth);
            }
            i = i + 1;
        }
        proof {
            assert(before.seats.take(before.seats.len() as int) =~= before.seats);
            assert(self@.bets =~= before.settled_bets());
        }
    }

    /// Adds every wager to the balance of its player, and clears the wagers.
    fn return_bet(&mut self)
        requires
            old(self)@.seats.no_duplicates(),
            forall|p: PlayerID| #[trigger]
                old(self)@.bets.contains_key(p) ==> old(self)@.money.contains_key(p),
            forall|p: PlayerID| #[trigger]
                old(self)@.money.contains_key(p) ==> old(self)@.seats.contains(p),
        ensures
            final(self)@ == (Table {
                money: old(self)@.credited_money(),
                bets: Map::empty(),
                ..old(self)@
            }),
    {
        let ghost before = self@;
        let mut i: usize = 0;
        while i < self.player_list.len()
            invariant
                before == old(self)@,
                before.seats.no_duplicates(),
                forall|p: PlayerID| #[trigger]
                    before.bets.contains_key(p) ==> before.money.contains_key(p),
                i <= self.player_list@.len(),
                self@ == (Table { money: self.player_money@, ..before }),
                forall|p: PlayerID| #[trigger]
                    self.player_money@.contains_key(p) <==> before.money.contains_key(p),
                forall|p: PlayerID|
                    before.money.contains_key(p) ==> #[trigger] self.player_money@[p] == if before.seats.take(
                        i as int,
                    ).contains(p) {
                        before.credited_money()[p]
                    } else {
                        before.money[p]
                    },
            decreases self.player_list@.len() - i,
        {
            let player = self.player_list[i];
            proof {
                lemma_take_next(before.seats, i as int);
                if before.seats.take(i as int).contains(player) {
                    let j = choose|j: int|
                        0 <= j < i && before.seats.take(i as int)[j] == player;
                    assert(before.seats[j] == before.seats[i as int]);
                }
            }
            let placed = match self.player_bet.get(&player) {
                Some(bet) => Some(*bet),
                None => None,
            };
            if let Some(bet) = placed {
                let money = *self.player_money.get(&player).unwrap();
                self.player_money.insert(player, credit(money, bet));
            }
            i = i + 1;
        }
        self.player_bet.clear();
        proof {
            assert(before.seats.take(before.seats.len() as int) =~= before.seats);
            assert(self@.money =~= before.credited_money());
        }
    }

    /// The dealer's turn. Nothing is handed back where the deck runs out.
    fn dealer_turn(&mut self) -> (shown: Option<Vec<ClientEvent>>)
        requires
            old(self)@.inv(),
            old(self)@.dealt(),
        ensures
            shown is Some <==> old(self)@.dealer_served(),
            shown is Some ==> final(self)@ == old(self)@.dealer_turn().0 && shown.unwrap()@
                == old(self)@.dealer_turn().1,
    {
        proof {
            lemma_dealer_play(self@.dealer, self@.deck);
        }
        match self.dealer_draw_final() {
            None => None,
            Some(mut events) => {
                self.compare_hands();
                self.return_bet();
                self.current_player = None;
                events.push(ClientEvent::RoundOver);
                Some(events)
            },
        }
    }
}


/// The events or the error of a result, the events as a sequence.
pub open spec fn events_of(result: Result<Vec<ClientEvent>, GameError>) -> Result<
    Seq<ClientEvent>,
    GameError,
> {
    match result {
        Ok(events) => Ok(events@),
        Err(error) => Err(error),
    }
}

impl GameState {
    /// The place of a seated player among the seats.
    fn seat_of(&self, player: PlayerID) -> (place: usize)
        requires
            self@.seats.contains(player),
            self@.seats.no_duplicates(),
        ensures
            place == self@.seats.index_of(player),
            place < self@.seats.len(),
    {
        let mut i: usize = 0;
        while i < self.player_list.len()
            invariant
                i <= self.player_list@.len(),
                self@.seats.contains(player),
                self@.seats.no_duplicates(),
                forall|j: int| 0 <= j < i ==> self.player_list@[j] != player,
            decreases self.player_list@.len() - i,
        {
            if self.player_list[i] == player {
                proof {
                    let k = self@.seats.index_of(player);
                    assert(0 <= k < self@.seats.len() && self@.seats[k] == player);
                }
                return i;
            }
            i = i + 1;
        }
        proof {
            let k = self@.seats.index_of(player);
            assert(0 <= k < self@.seats.len() && self@.seats[k] == player);
        }
        0
    }

    /// The place of the first seat at or after `from` whose player has not
    /// finished, or the number of seats.
    fn open_seat_from(&self, from: usize) -> (seat: usize)
        ensures
            seat == self@.next_open_seat(from as int),
            seat <= self@.seats.len(),
    {
        let mut i: usize = from;
        while i < self.player_list.len()
            invariant
                from <= i,
                self@.next_open_seat(i as int) == self@.next_open_seat(from as int),
            decreases self.player_list@.len() - i,
        {
            if !has_player(&self.player_round_over, self.player_list[i]) {
                return i;
            }
            i = i + 1;
        }
        self.player_list.len()
    }

    /// Gives the turn to the first seat at or after `from` whose player has
    /// not finished, or to the dealer where there is none.
    fn next_current_player(&mut self, from: usize) -> (shown: Option<Vec<ClientEvent>>)
        requires
            old(self)@.inv(),
            old(self)@.dealt(),
        ensures
            shown is Some <==> old(self)@.turn_served(from as int),
            shown is Some ==> final(self)@ == old(self)@.seek_turn(from as int).0
                && shown.unwrap()@ == old(self)@.seek_turn(from as int).1,
    {
        let seat = self.open_seat_from(from);
        if seat < self.player_list.len() {
            self.current_player = Some(self.player_list[seat]);
            Some(Vec::new())
        } else {
            self.dealer_turn()
        }
    }

    /// `player` stands.
    fn stand(&mut self, player: PlayerID) -> (shown: Option<Vec<ClientEvent>>)
        requires
            old(self)@.mark_finished(player).inv(),
            old(self)@.dealt(),
            old(self)@.seats.contains(player),
        ensures
            shown is Some <==> old(self)@.stand_served(player),
            shown is Some ==> final(self)@ == old(self)@.stand(player).0 && shown.unwrap()@
                == old(self)@.stand(player).1,
    {
        self.player_round_over.push(player);
        let place = self.seat_of(player);
        let seats = self.player_list.len();
        assert(place < seats);
        let mut events: Vec<ClientEvent> = Vec::new();
        events.push(ClientEvent::PlayerRoundOver);
        match self.next_current_player(place + 1) {
            None => None,
            Some(mut more) => {
                events.append(&mut more);
                Some(events)
            },
        }
    }

    /// `player`, whose turn it is, hits.
    fn hit(&mut self, player: PlayerID) -> (shown: Option<Vec<ClientEvent>>)
        requires
            old(self).wf(),
            old(self)@.current_player == Some(player),
        ensures
            shown is Some <==> old(self)@.hit_served(player),
            shown is Some ==> final(self)@ == old(self)@.hit(player).0 && shown.unwrap()@
                == old(self)@.hit(player).1,
    {
        if self.deck.len() == 0 {
            return None;
        }
        proof {
            assert(self@.bets.contains_key(player));
            assert(self@.money.contains_key(player));
            assert(self@.hands.contains_key(player));
        }
        let card = self.draw_card(player);
        let mut events: Vec<ClientEvent> = Vec::new();
        events.push(ClientEvent::CardRevealed(FromPlayer::Player(player), card));
        proof {
            assert(hand_value(old(self)@.hands[player]) <= 21);
            lemma_value_push(old(self)@.hands[player], card);
            assert(self@.hands.contains_key(player));
            assert(self.player_hand@.contains_key(player));
            lemma_value_at_least_len(self@.hands[player]);
        }
        let value = value_of(self.player_hand.get(&player).unwrap());
        if value > 21 {
            proof {
                lemma_push_keeps_distinct(old(self)@.finished, player);
                assert(self@.mark_finished(player).inv());
            }
            match self.stand(player) {
                None => None,
                Some(mut more) => {
                    events.append(&mut more);
                    Some(events)
                },
            }
        } else {
            Some(events)
        }
    }

    /// Whether `player` may double.
    fn can_double(&self, player: PlayerID) -> (may: bool)
        requires
            self.wf(),
        ensures
            may == self@.may_double(player),
    {
        if self.current_player != Some(player) {
            return false;
        }
        proof {
            assert(self@.bets.contains_key(player));
            assert(self@.money.contains_key(player));
            assert(self@.hands.contains_key(player));
            lemma_value_at_least_len(self@.hands[player]);
        }
        let hand = self.player_hand.get(&player).unwrap();
        if hand.len() != 2 {
            return false;
        }
        let value = value_of(hand);
        let bet = *self.player_bet.get(&player).unwrap();
        let money = *self.player_money.get(&player).unwrap();
        9 <= value && value <= 11 && bet <= money
    }

    /// `player`, who may double, doubles.
    fn double(&mut self, player: PlayerID) -> (shown: Option<Vec<ClientEvent>>)
        requires
            old(self).wf(),
            old(self)@.may_double(player),
        ensures
            shown is Some <==> old(self)@.double_served(player),
            shown is Some ==> final(self)@ == old(self)@.double(player).0 && shown.unwrap()@
                == old(self)@.double(player).1,
    {
        if self.deck.len() == 0 {
            return None;
        }
        proof {
            assert(self@.bets.contains_key(player));
            assert(self@.money.contains_key(player));
            assert(self@.hands.contains_key(player));
        }
        let bet = *self.player_bet.get(&player).unwrap();
        let money = *self.player_money.get(&player).unwrap();
        self.player_money.insert(player, money - bet);
        self.player_bet.insert(player, credit(bet, bet));
        proof {
            assert(self@.hands =~= old(self)@.hands);
            assert(self@ == old(self)@.raise(player));
        }
        let card = self.draw_card(player);
        let mut events: Vec<ClientEvent> = Vec::new();
        events.push(ClientEvent::CardRevealed(FromPlayer::Player(player), card));
        proof {
            lemma_value_push(old(self)@.hands[player], card);
            lemma_push_keeps_distinct(old(self)@.finished, player);
            assert(self@.mark_finished(player).inv());
        }
        match self.stand(player) {
            None => None,
            Some(mut more) => {
                events.append(&mut more);
                Some(events)
            },
        }
    }

    /// One round of the deal: every seat, in turn, draws a card, which is
    /// shown.
    fn deal_pass(&mut self) -> (events: Vec<ClientEvent>)
        requires
            old(self)@.seats.no_duplicates(),
            old(self)@.deck.len() >= old(self)@.seats.len(),
            forall|p: PlayerID|
                old(self)@.seats.contains(p) ==> #[trigger] old(self)@.hands.contains_key(p),
        ensures
            final(self)@ == old(self)@.deal_pass().0,
            events@ == old(self)@.deal_pass().1,
    {
        let ghost before = self@;
        let mut events: Vec<ClientEvent> = Vec::new();
        let mut i: usize = 0;
        proof {
            assert(before.deck.skip(0) =~= before.deck);
        }
        while i < self.player_list.len()
            invariant
                before == old(self)@,
                before.seats.no_duplicates(),
                before.deck.len() >= before.seats.len(),
                forall|p: PlayerID|
                    before.seats.contains(p) ==> #[trigger] before.hands.contains_key(p),
                i <= self.player_list@.len(),
                self@ == (Table { hands: self@.hands, deck: before.deck.skip(i as int), ..before }),
                forall|p: PlayerID| #[trigger]
                    self@.hands.contains_key(p) <==> before.hands.contains_key(p),
                forall|p: PlayerID|
                    before.hands.contains_key(p) ==> #[trigger] self@.hands[p] == if before.seats.take(
                        i as int,
                    ).contains(p) {
                        before.hands[p].push(before.deck[before.seats.index_of(p)])
                    } else {
                        before.hands[p]
                    },
                events@ == reveals_to(before.seats.take(i as int), before.deck.subrange(0, i as int)),
            decreases self.player_list@.len() - i,
        {
            let player = self.player_list[i];
            let ghost held = self@;
            proof {
                lemma_take_next(before.seats, i as int);
                assert(before.seats.contains(player));
                if before.seats.take(i as int).contains(player) {
                    let j = choose|j: int|
                        0 <= j < i && before.seats.take(i as int)[j] == player;
                    assert(before.seats[j] == before.seats[i as int]);
                }
                let k = before.seats.index_of(player);
                assert(0 <= k < before.seats.len() && before.seats[k] == player);
                assert(k == i);
            }
            let card = self.draw_card(player);
            events.push(ClientEvent::CardRevealed(FromPlayer::Player(player), card));
            proof {
                assert(self@.deck =~= before.deck.skip(i as int + 1));
                assert(card == before.deck[i as int]);
                assert(events@ =~= reveals_to(
                    before.seats.take(i as int + 1),
                    before.deck.subrange(0, i as int + 1),
                ));
            }
            i = i + 1;
        }
        proof {
            assert(before.seats.take(before.seats.len() as int) =~= before.seats);
            assert(self@.hands =~= before.deal_pass().0.hands);
        }
        events
    }

    /// The deal.
    fn start_game(&mut self) -> (events: Vec<ClientEvent>)
        requires
            old(self)@.seats.no_duplicates(),
            old(self)@.deck.len() >= 2 * old(self)@.seats.len() + 2,
            forall|p: PlayerID|
                old(self)@.seats.contains(p) ==> #[trigger] old(self)@.hands.contains_key(p),
        ensures
            final(self)@ == old(self)@.deal().0,
            events@ == old(self)@.deal().1,
    {
        proof {
            old(self)@.lemma_deal_in_passes();
        }
        let mut events = self.deal_pass();
        let card = self.dealer_draw();
        events.push(ClientEvent::CardRevealed(FromPlayer::Dealer, card));
        let mut more = self.deal_pass();
        events.append(&mut more);
        self.dealer_draw();
        events
    }

    /// Marks every seated player with a natural as finished.
    fn check_natural_blackjack(&mut self) -> (events: Vec<ClientEvent>)
        requires
            forall|p: PlayerID|
                old(self)@.seats.contains(p) ==> #[trigger] old(self)@.hands.contains_key(p),
            forall|p: PlayerID|
                old(self)@.hands.contains_key(p) ==> hand_value(#[trigger] old(self)@.hands[p])
                    <= 32,
        ensures
            final(self)@ == old(self)@.mark_naturals(),
            events@ == round_overs(naturals(old(self)@.seats, old(self)@.hands).len()),
    {
        let ghost before = self@;
        let mut events: Vec<ClientEvent> = Vec::new();
        let mut i: usize = 0;
        proof {
            assert(self@.finished =~= before.finished + naturals(
                before.seats.take(0),
                before.hands,
            ));
        }
        while i < self.player_list.len()
            invariant
                before == old(self)@,
                forall|p: PlayerID|
                    before.seats.contains(p) ==> #[trigger] before.hands.contains_key(p),
                forall|p: PlayerID|
                    before.hands.contains_key(p) ==> hand_value(#[trigger] before.hands[p]) <= 32,
                i <= self.player_list@.len(),
                self@ == (Table {
                    finished: before.finished + naturals(before.seats.take(i as int), before.hands),
                    ..before
                }),
                events@ == round_overs(naturals(before.seats.take(i as int), before.hands).len()),
            decreases self.player_list@.len() - i,
        {
            let player = self.player_list[i];
            proof {
                lemma_take_next(before.seats, i as int);
                assert(before.seats.take(i as int + 1).drop_last() =~= before.seats.take(i as int));
                assert(before.seats.contains(player));
                assert(before.hands.contains_key(player));
                assert(self@.hands.contains_key(player));
                assert(self.player_hand@.contains_key(player));
                assert(self.player_hand@[player]@ == before.hands[player]);
                lemma_value_at_least_len(before.hands[player]);
            }
            let hand = self.player_hand.get(&player).unwrap();
            let natural = hand.len() == 2 && value_of(hand) == 21;
            assert(natural == is_natural(before.hands[player]));
            if natural {
                self.player_round_over.push(player);
                events.push(ClientEvent::PlayerRoundOver);
            }
            proof {
                assert(before.seats.take(i as int + 1).last() == player);
                assert(self@.finished =~= before.finished + naturals(
                    before.seats.take(i as int + 1),
                    before.hands,
                ));
                assert(events@ =~= round_overs(
                    naturals(before.seats.take(i as int + 1), before.hands).len(),
                ));
            }
            i = i + 1;
        }
        proof {
            assert(before.seats.take(before.seats.len() as int) =~= before.seats);
        }
        events
    }

    /// Whether every seated player has placed a wager.
    fn all_have_bet(&self) -> (all: bool)
        ensures
            all == self@.all_bets_in(),
    {
        let mut i: usize = 0;
        while i < self.player_list.len()
            invariant
                i <= self.player_list@.len(),
                forall|j: int| 0 <= j < i ==> self@.bets.contains_key(self.player_list@[j]),
            decreases self.player_list@.len() - i,
        {
            if !self.player_bet.contains_key(&self.player_list[i]) {
                proof {
                    assert(self@.seats.contains(self.player_list@[i as int]));
                    assert(!self@.bets.contains_key(self.player_list@[i as int]));
                }
                return false;
            }
            i = i + 1;
        }
        true
    }

    /// The round opens.
    fn open_round(&mut self) -> (shown: Option<Vec<ClientEvent>>)
        requires
            old(self).wf(),
            !old(self)@.dealt(),
            old(self)@.all_bets_in(),
        ensures
            shown is Some <==> old(self)@.round_served(),
            shown is Some ==> final(self)@ == old(self)@.open_round().0 && shown.unwrap()@
                == old(self)@.open_round().1,
    {
        let seats = self.player_list.len();
        if self.deck.len() < 2 || (self.deck.len() - 2) / 2 < seats {
            return None;
        }
        proof {
            assert forall|p: PlayerID| self@.seats.contains(p) implies #[trigger]
                self@.hands.contains_key(p) by {
                assert(self@.bets.contains_key(p));
                assert(self@.money.contains_key(p));
            }
        }
        let mut events = self.start_game();
        proof {
            let dealt = old(self)@.deal().0;
            assert forall|p: PlayerID| dealt.hands.contains_key(p) implies hand_value(
                #[trigger] dealt.hands[p],
            ) <= 21 by {
                assert(old(self)@.hands.contains_key(p));
                assert(old(self)@.money.contains_key(p));
                assert(old(self)@.seats.contains(p));
                assert(old(self)@.hands[p].len() == 0);
                lemma_two_cards_stay(dealt.hands[p]);
            }
            lemma_two_cards_stay(dealt.dealer);
            lemma_naturals(dealt.seats, dealt.hands);
            assert(old(self)@.finished + naturals(dealt.seats, dealt.hands) =~= naturals(
                dealt.seats,
                dealt.hands,
            ));
        }
        let mut marked = self.check_natural_blackjack();
        events.append(&mut marked);
        assert(self@.inv());
        match self.next_current_player(0) {
            None => None,
            Some(mut more) => {
                events.append(&mut more);
                Some(events)
            },
        }
    }

    /// The action of `player`. Nothing is handed back where the deck runs
    /// out of cards; the state is then not to be used.
    fn step(&mut self, action: GameAction, player: PlayerID) -> (outcome: Option<
        Result<Vec<ClientEvent>, GameError>,
    >)
        requires
            old(self).wf(),
        ensures
            outcome is Some <==> old(self)@.serves(action, player),
            outcome is Some ==> {
                &&& final(self).wf()
                &&& final(self)@ == old(self)@.act(action, player).table
                &&& events_of(outcome.unwrap()) == old(self)@.act(action, player).result
            },
    {
        proof {
            old(self)@.lemma_act_wf(action, player);
        }
        match action {
            GameAction::Hit => {
                if self.current_player == Some(player) {
                    match self.hit(player) {
                        None => None,
                        Some(events) => Some(Ok(events)),
                    }
                } else {
                    Some(Err(GameError::InvaildAction))
                }
            },
            GameAction::Stand => {
                if self.current_player == Some(player) {
                    proof {
                        lemma_push_keeps_distinct(self@.finished, player);
                        assert(self@.mark_finished(player).inv());
                    }
                    match self.stand(player) {
                        None => None,
                        Some(events) => Some(Ok(events)),
                    }
                } else {
                    Some(Err(GameError::InvaildAction))
                }
            },
            GameAction::Double => {
                if self.can_double(player) {
                    match self.double(player) {
                        None => None,
                        Some(events) => Some(Ok(events)),
                    }
                } else {
                    Some(Ok(Vec::new()))
                }
            },
            GameAction::AddMoney(amount) => {
                if amount <= 0 {
                    return Some(Err(GameError::InvaildAction));
                }
                let money = match self.player_money.get(&player) {
                    Some(money) => *money,
                    None => {
                        return Some(Err(GameError::MissingPlayerID));
                    },
                };
                self.player_money.insert(player, credit(money, amount));
                let mut events: Vec<ClientEvent> = Vec::new();
                events.push(ClientEvent::Betting(player, amount));
                proof {
                    assert(self@.hands =~= old(self)@.hands);
                    assert(events@ =~= seq![ClientEvent::Betting(player, amount)]);
                }
                Some(Ok(events))
            },
            GameAction::StartingBet(amount) => {
                if amount <= 0 {
                    return Some(Err(GameError::InvaildAction));
                }
                let money = match self.player_money.get(&player) {
                    Some(money) => *money,
                    None => {
                        return Some(Err(GameError::MissingPlayerID));
                    },
                };
                if amount > money {
                    return Some(Err(GameError::InvaildAction));
                }
                self.player_bet.insert(player, amount);
                self.player_money.insert(player, money - amount);
                let mut events: Vec<ClientEvent> = Vec::new();
                events.push(ClientEvent::Betting(player, amount));
                proof {
                    assert(self@.hands =~= old(self)@.hands);
                    assert(self@ == old(self)@.stake(player, amount));
                    assert(events@ =~= seq![ClientEvent::Betting(player, amount)]);
                }
                if self.dealer_hand.len() == 0 && self.all_have_bet() {
                    proof {
                        assert(self@.inv());
                    }
                    match self.open_round() {
                        None => None,
                        Some(mut more) => {
                            events.append(&mut more);
                            Some(Ok(events))
                        },
                    }
                } else {
                    Some(Ok(events))
                }
            },
        }
    }
}


impl Clone for GameState {
    fn clone(&self) -> (copy: Self)
        ensures
            copy@ == self@,
    {
        let copy = GameState {
            current_player: self.current_player,
            player_list: self.player_list.clone(),
            player_hand: self.player_hand.clone(),
            player_money: self.player_money.clone(),
            player_bet: self.player_bet.clone(),
            player_round_over: self.player_round_over.clone(),
            dealer_hand: self.dealer_hand.clone(),
            deck: self.deck.clone(),
        };
        proof {
            assert(copy.player_list@ =~= self.player_list@);
            assert(copy.player_round_over@ =~= self.player_round_over@);
            assert(copy.dealer_hand@ =~= self.dealer_hand@);
            assert(copy.deck@ =~= self.deck@);
        }
        copy
    }
}

impl GameState {
    /// The action `event` of `player`, on a table whose deck holds every card
    /// that the action draws.
    pub fn action(&mut self, event: GameAction, player: PlayerID) -> (result: Result<
        Vec<ClientEvent>,
        GameError,
    >)
        requires
            old(self).wf(),
            old(self)@.serves(event, player),
        ensures
            final(self).wf(),
            final(self)@ == old(self)@.act(event, player).table,
            events_of(result) == old(self)@.act(event, player).result,
            old(self)@.keeps_rules(event, player, final(self)@, events_of(result)),
    {
        proof {
            old(self)@.law_act_keeps_rules(event, player);
        }
        self.step(event, player).unwrap()
    }

    /// The action `event` of `player` if the deck holds every card that it
    /// draws; else nothing happens and nothing is handed back.
    pub fn try_action(&mut self, event: GameAction, player: PlayerID) -> (outcome: Option<
        Result<Vec<ClientEvent>, GameError>,
    >)
        requires
            old(self).wf(),
        ensures
            final(self).wf(),
            outcome is Some <==> old(self)@.serves(event, player),
            outcome is Some ==> final(self)@ == old(self)@.act(event, player).table && events_of(
                outcome.unwrap(),
            ) == old(self)@.act(event, player).result,
            outcome is Some ==> old(self)@.keeps_rules(
                event,
                player,
                final(self)@,
                events_of(outcome.unwrap()),
            ),
            outcome is None ==> final(self)@ == old(self)@,
    {
        proof {
            old(self)@.law_act_keeps_rules(event, player);
        }
        let kept = self.clone();
        let outcome = self.step(event, player);
        if outcome.is_none() {
            *self = kept;
        }
        outcome
    }

    /// Whether `event` holds the notice that the round is over.
    pub fn is_round_over(&self, event: Vec<ClientEvent>) -> (over: bool)
        ensures
            over == event@.contains(ClientEvent::RoundOver),
    {
        let mut i: usize = 0;
        while i < event.len()
            invariant
                i <= event@.len(),
                forall|j: int| 0 <= j < i ==> event@[j] != ClientEvent::RoundOver,
            decreases event@.len() - i,
        {
            if event[i] == ClientEvent::RoundOver {
                return true;
            }
            i = i + 1;
        }
        false
    }

    /// The value of the hand of `player`, or the error that the player has
    /// none.
    pub fn sum_hand(&self, player: PlayerID) -> (sum: Result<i8, GameError>)
        requires
            self.wf(),
        ensures
            match sum {
                Ok(value) => self@.hands.contains_key(player) && value == hand_value(
                    self@.hands[player],
                ),
                Err(error) => !self@.hands.contains_key(player) && error
                    == GameError::MissingPlayerID,
            },
    {
        match self.player_hand.get(&player) {
            Some(hand) => {
                proof {
                    assert(self@.hands.contains_key(player));
                    assert(hand@ == self@.hands[player]);
                    lemma_value_at_least_len(hand@);
                }
                Ok(value_of(hand) as i8)
            },
            None => Err(GameError::MissingPlayerID),
        }
    }

    /// The value of the dealer's hand.
    pub fn sum_dealer(&self) -> (sum: i8)
        requires
            self.wf(),
        ensures
            sum == hand_value(self@.dealer),
    {
        proof {
            lemma_value_at_least_len(self.dealer_hand@);
        }
        value_of(&self.dealer_hand) as i8
    }
}

} // verus!
