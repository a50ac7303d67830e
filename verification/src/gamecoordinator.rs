//! The coordinator: the room in which players wait for a table, the tables
//! that are open, and the events that wait to be sent to each player.

use crate::gamestate::{
    drop_player, has_player, ChipPile, ClientEvent, GameAction, GameError, GameState, PlayerID,
};
use crate::invariants::{lemma_take_next, lemma_without};
use crate::outside::fresh_identifier;
use crate::table::{distinct, without, Table};
use std::collections::HashMap;
use vstd::prelude::*;

verus! {

broadcast use vstd::std_specs::hash::group_hash_axioms;

/// The number of waiting players at which a table opens for them.
pub const TABLE_SIZE: usize = 4;

/// Why the coordinator refused an action.
#[derive(Debug, Clone, Copy, PartialEq, Eq, Structural)]
pub enum CoordinatorError {
    GameError(GameError),
    PlayerNotFound,
}

impl From<GameError> for CoordinatorError {
    fn from(error: GameError) -> (wrapped: Self) {
        CoordinatorError::GameError(error)
    }
}

impl vstd::std_specs::convert::FromSpecImpl<GameError> for CoordinatorError {
    open spec fn obeys_from_spec() -> bool {
        true
    }

    open spec fn from_spec(error: GameError) -> Self {
        CoordinatorError::GameError(error)
    }
}

/// The events that wait for `seats` after `events` have been put behind
/// those that waited already for every seat but that of `player`.
pub open spec fn fan_out(
    outbound: Map<PlayerID, Seq<ClientEvent>>,
    seats: Seq<PlayerID>,
    player: PlayerID,
    events: Seq<ClientEvent>,
) -> Map<PlayerID, Seq<ClientEvent>> {
    Map::new(
        |q: PlayerID| outbound.contains_key(q) || (seats.contains(q) && q != player),
        |q: PlayerID|
            {
                let queued = if outbound.contains_key(q) {
                    outbound[q]
                } else {
                    Seq::empty()
                };
                if seats.contains(q) && q != player {
                    queued + events
                } else {
                    queued
                }
            },
    )
}

/// The coordinator as a mathematical value.
pub struct Floor {
    /// The players that wait for a table, in the order of their arrival.
    pub waiting: Seq<PlayerID>,
    /// The open tables, in the order in which they opened.
    pub tables: Seq<Table>,
    /// The events that wait to be sent, for each player that has any.
    pub outbound: Map<PlayerID, Seq<ClientEvent>>,
}

impl Floor {
    /// Fewer players wait than make a table, and every table is well formed.
    pub open spec fn wf(self) -> bool {
        &&& self.waiting.len() < TABLE_SIZE
        &&& forall|i: int| 0 <= i < self.tables.len() ==> (#[trigger] self.tables[i]).wf()
    }

    /// The coordinator after `id` has arrived: it waits behind the others,
    /// or, as the last of a table's players, sits down with them at a new
    /// table.
    pub open spec fn arrive(self, id: PlayerID) -> Floor {
        let waiting = self.waiting.push(id);
        if waiting.len() == TABLE_SIZE {
            Floor {
                waiting: Seq::empty(),
                tables: self.tables.push(Table::fresh(distinct(waiting))),
                ..self
            }
        } else {
            Floor { waiting, ..self }
        }
    }

    /// The coordinator after `player` has gone: from the waiting room if the
    /// player waited, else from every table.
    pub open spec fn release(self, player: PlayerID) -> Floor {
        if self.waiting.contains(player) {
            Floor { waiting: without(self.waiting, player), ..self }
        } else {
            Floor {
                tables: Seq::new(self.tables.len(), |i: int| self.tables[i].leave(player)),
                ..self
            }
        }
    }

    /// The place of the first table at or after `from` at which `player`
    /// sits; the number of tables if there is none.
    pub open spec fn first_table(self, player: PlayerID, from: int) -> int
        decreases self.tables.len() - from,
    {
        if from < 0 || from >= self.tables.len() {
            self.tables.len() as int
        } else if self.tables[from].seats.contains(player) {
            from
        } else {
            self.first_table(player, from + 1)
        }
    }

    /// The place of the table of `player`; the number of tables if the
    /// player sits at none.
    pub open spec fn table_of(self, player: PlayerID) -> int {
        self.first_table(player, 0)
    }

    /// `player` sits at a table.
    pub open spec fn seated(self, player: PlayerID) -> bool {
        self.table_of(player) < self.tables.len()
    }

    /// The deck of the table of `player`, if there is one, holds every card
    /// that the action draws.
    pub open spec fn serves(self, player: PlayerID, action: GameAction) -> bool {
        self.seated(player) ==> self.tables[self.table_of(player)].serves(action, player)
    }

    /// The action of `player`, passed on to the player's table. A player
    /// without a table is not found, and nothing changes. What the table
    /// refuses is refused, and nothing changes. Else the table takes the
    /// step, and its events wait from then on for every other player at it.
    pub open spec fn dispatch(self, player: PlayerID, action: GameAction) -> (
        Floor,
        Result<Seq<ClientEvent>, CoordinatorError>,
    ) {
        if !self.seated(player) {
            (self, Err(CoordinatorError::PlayerNotFound))
        } else {
            let place = self.table_of(player);
            let step = self.tables[place].act(action, player);
            match step.result {
                Err(error) => (self, Err(CoordinatorError::GameError(error))),
                Ok(events) => (
                    Floor {
                        tables: self.tables.update(place, step.table),
                        outbound: fan_out(self.outbound, step.table.seats, player, events),
                        ..self
                    },
                    Ok(events),
                ),
            }
        }
    }

    /// The coordinator after the waiting events have been taken.
    pub open spec fn drained(self) -> Floor {
        Floor { outbound: Map::empty(), ..self }
    }
}

/// The tables of a list of games.
pub open spec fn tables_of(games: Seq<GameState>) -> Seq<Table> {
    Seq::new(games.len(), |i: int| games[i]@)
}

/// The events of a map of queues, each queue as a sequence.
pub open spec fn queues_of(queues: Map<PlayerID, Vec<ClientEvent>>) -> Map<
    PlayerID,
    Seq<ClientEvent>,
> {
    Map::new(|p: PlayerID| queues.contains_key(p), |p: PlayerID| queues[p]@)
}

/// The events or the error of a result, the events as a sequence.
pub open spec fn answer_of(result: Result<Vec<ClientEvent>, CoordinatorError>) -> Result<
    Seq<ClientEvent>,
    CoordinatorError,
> {
    match result {
        Ok(events) => Ok(events@),
        Err(error) => Err(error),
    }
}

/// The state of the coordinator.
#[derive(Debug, Clone)]
pub struct GameCoordinator {
    available_players: Vec<PlayerID>,
    current_games: Vec<GameState>,
    last_player_input: HashMap<PlayerID, time::Time>,
    player_money: HashMap<PlayerID, ChipPile>,
    events_to_send: HashMap<PlayerID, Vec<ClientEvent>>,
}

impl View for GameCoordinator {
    type V = Floor;

    closed spec fn view(&self) -> Floor {
        Floor {
            waiting: self.available_players@,
            tables: tables_of(self.current_games@),
            outbound: queues_of(self.events_to_send@),
        }
    }
}

impl GameCoordinator {
    /// No time of an action and no balance is noted with the coordinator.
    pub closed spec fn nothing_noted(&self) -> bool {
        self.last_player_input@ == Map::<PlayerID, time::Time>::empty() && self.player_money@
            == Map::<PlayerID, ChipPile>::empty()
    }

    /// The state is that of a well-formed coordinator, with which nothing
    /// is noted.
    pub open spec fn wf(&self) -> bool {
        self@.wf() && self.nothing_noted()
    }

    /// A coordinator with nobody waiting, no table and no event.
    pub fn new() -> (coordinator: Self)
        ensures
            coordinator.wf(),
            coordinator@ == (Floor {
                waiting: Seq::empty(),
                tables: Seq::empty(),
                outbound: Map::empty(),
            }),
    {
        let coordinator = Self {
            available_players: Vec::new(),
            current_games: Vec::new(),
            last_player_input: HashMap::new(),
            player_money: HashMap::new(),
            events_to_send: HashMap::new(),
        };
        proof {
            assert(coordinator@.tables =~= Seq::empty());
            assert(coordinator@.outbound =~= Map::empty());
        }
        coordinator
    }

    /// Takes in the player `id`.
    pub fn seat_player(&mut self, id: PlayerID)
        requires
            old(self).wf(),
        ensures
            final(self).wf(),
            final(self)@ == old(self)@.arrive(id),
    {
        self.available_players.push(id);
        if self.available_players.len() == TABLE_SIZE {
            let mut players: Vec<PlayerID> = Vec::new();
            std::mem::swap(&mut players, &mut self.available_players);
            let game = GameState::new(players);
            self.current_games.push(game);
            proof {
                assert(self@.tables =~= old(self)@.tables.push(
                    Table::fresh(distinct(old(self)@.waiting.push(id))),
                ));
                assert forall|i: int| 0 <= i < self@.tables.len() implies (
                #[trigger] self@.tables[i]).wf() by {
                    if i < old(self)@.tables.len() {
                        assert(self@.tables[i] == old(self)@.tables[i]);
                    }
                }
            }
        } else {
            proof {
                assert(self@.tables =~= old(self)@.tables);
            }
        }
    }

    /// Mints a random identifier for a new player and takes the player in.
    /// The identifier carries the version and the variant of its kind.
    pub fn on_new_user(&mut self) -> (id: PlayerID)
        requires
            old(self).wf(),
        ensures
            final(self).wf(),
            final(self)@ == old(self)@.arrive(id),
            id & 0xF000_C000_0000_0000_0000u128 == 0x4000_8000_0000_0000_0000u128,
    {
        let id = fresh_identifier();
        self.seat_player(id);
        id
    }

    /// Lets the player `player_id` go.
    pub fn on_dropped_user(&mut self, player_id: PlayerID)
        requires
            old(self).wf(),
        ensures
            final(self).wf(),
            final(self)@ == old(self)@.release(player_id),
    {
        if has_player(&self.available_players, player_id) {
            self.available_players = drop_player(&self.available_players, player_id);
            proof {
                lemma_without(old(self)@.waiting, player_id);
                assert(self@.tables =~= old(self)@.tables);
            }
        } else {
            let mut i: usize = 0;
            proof {
                assert forall|j: int| 0 <= j < self.current_games@.len() implies (
                #[trigger] self.current_games@[j]).wf() by {
                    assert(self@.tables[j].wf());
                }
            }
            while i < self.current_games.len()
                invariant
                    i <= self.current_games@.len(),
                    self.current_games@.len() == old(self).current_games@.len(),
                    self.available_players == old(self).available_players,
                    self.events_to_send == old(self).events_to_send,
                    self.nothing_noted(),
                    old(self)@.wf(),
                    forall|j: int|
                        0 <= j < self.current_games@.len() ==> (#[trigger] self.current_games@[j])@
                            == if j < i {
                            old(self).current_games@[j]@.leave(player_id)
                        } else {
                            old(self).current_games@[j]@
                        },
                    forall|j: int|
                        0 <= j < self.current_games@.len() ==> (#[trigger] self.current_games@[j]).wf(),
                decreases self.current_games@.len() - i,
            {
                self.current_games[i].remove_user(player_id);
                i = i + 1;
            }
            proof {
                assert(self@.tables =~= old(self)@.release(player_id).tables);
            }
        }
    }

    /// The players that wait for a table.
    pub fn get_available_players(&self) -> (players: &Vec<PlayerID>)
        ensures
            players@ == self@.waiting,
    {
        &self.available_players
    }

    /// The open tables.
    pub fn get_current_games(&self) -> (games: &Vec<GameState>)
        ensures
            tables_of(games@) == self@.tables,
    {
        &self.current_games
    }

    /// The open tables, to work at them. Nothing else of the coordinator
    /// changes with them.
    pub fn get_mut_current_games(&mut self) -> (games: &mut Vec<GameState>)
        ensures
            tables_of(games@) == old(self)@.tables,
            final(self)@ == (Floor { tables: tables_of(final(games)@), ..old(self)@ }),
            final(self).nothing_noted() == old(self).nothing_noted(),
    {
        &mut self.current_games
    }

    /// The time at which each player last sent an action. None is noted.
    pub fn get_last_player_input(&self) -> (times: &HashMap<PlayerID, time::Time>)
        requires
            self.wf(),
        ensures
            times@ == Map::<PlayerID, time::Time>::empty(),
    {
        &self.last_player_input
    }

    /// The balances that the coordinator keeps. None is noted.
    pub fn get_player_money(&self) -> (balances: &HashMap<PlayerID, ChipPile>)
        requires
            self.wf(),
        ensures
            balances@ == Map::<PlayerID, ChipPile>::empty(),
    {
        &self.player_money
    }

    /// The events that wait to be sent.
    pub fn get_events_to_send(&self) -> (queues: &HashMap<PlayerID, Vec<ClientEvent>>)
        ensures
            queues_of(queues@) == self@.outbound,
    {
        &self.events_to_send
    }
}


/// Puts a copy of `events` behind the events of `queue`.
fn extend_events(queue: &mut Vec<ClientEvent>, events: &Vec<ClientEvent>)
    ensures
        final(queue)@ == old(queue)@ + events@,
{
    let mut i: usize = 0;
    proof {
        assert(queue@ =~= old(queue)@ + events@.take(0));
    }
    while i < events.len()
        invariant
            i <= events@.len(),
            queue@ == old(queue)@ + events@.take(i as int),
        decreases events@.len() - i,
    {
        queue.push(events[i]);
        proof {
            assert(queue@ =~= old(queue)@ + events@.take(i as int + 1));
        }
        i = i + 1;
    }
    proof {
        assert(events@.take(events@.len() as int) =~= events@);
    }
}

impl GameCoordinator {
    /// The place of the table of `player`, or the number of tables.
    fn find_table(&self, player: PlayerID) -> (place: usize)
        ensures
            place == self@.table_of(player),
            place <= self.current_games@.len(),
            place < self.current_games@.len() ==> self@.seated(player),
    {
        let mut i: usize = 0;
        while i < self.current_games.len()
            invariant
                i <= self.current_games@.len(),
                self@.first_table(player, i as int) == self@.first_table(player, 0),
            decreases self.current_games@.len() - i,
        {
            if has_player(self.current_games[i].get_player_list(), player) {
                return i;
            }
            i = i + 1;
        }
        self.current_games.len()
    }

    /// Puts `events` behind the events that wait for every player at the
    /// table at `place` but `player`.
    fn queue_for_others(&mut self, place: usize, player: PlayerID, events: &Vec<ClientEvent>)
        requires
            place < old(self).current_games@.len(),
            old(self).current_games@[place as int]@.seats.no_duplicates(),
        ensures
            final(self).current_games == old(self).current_games,
            final(self).nothing_noted() == old(self).nothing_noted(),
            final(self)@ == (Floor {
                outbound: fan_out(
                    old(self)@.outbound,
                    old(self)@.tables[place as int].seats,
                    player,
                    events@,
                ),
                ..old(self)@
            }),
    {
        let ghost seats = self@.tables[place as int].seats;
        let ghost waiting = self@.outbound;
        let count = self.current_games[place].get_player_list().len();
        let mut i: usize = 0;
        proof {
            assert(self@.outbound =~= fan_out(waiting, seats.take(0), player, events@));
        }
        while i < count
            invariant
                i <= count == seats.len(),
                place < self.current_games@.len(),
                seats.no_duplicates(),
                seats == self.current_games@[place as int]@.seats,
                self.current_games == old(self).current_games,
                self.available_players == old(self).available_players,
                self.nothing_noted() == old(self).nothing_noted(),
                self@.outbound == fan_out(waiting, seats.take(i as int), player, events@),
            decreases count - i,
        {
            let other = self.current_games[place].get_player_list()[i];
            let ghost queued = self@.outbound;
            proof {
                lemma_take_next(seats, i as int);
                if seats.take(i as int).contains(other) {
                    let j = choose|j: int| 0 <= j < i && seats.take(i as int)[j] == other;
                    assert(seats[j] == seats[i as int]);
                }
            }
            if other != player {
                let ghost stored = self.events_to_send@;
                let mut queue = match self.events_to_send.remove(&other) {
                    Some(queue) => queue,
                    None => Vec::new(),
                };
                proof {
                    assert(!seats.take(i as int).contains(other));
                    assert(queued.contains_key(other) == waiting.contains_key(other));
                    assert(queued.contains_key(other) == stored.contains_key(other));
                    if stored.contains_key(other) {
                        assert(queue == stored[other]);
                        assert(queued[other] == stored[other]@);
                        assert(queued[other] =~= waiting[other]);
                    }
                    assert(queue@ == if waiting.contains_key(other) {
                        waiting[other]
                    } else {
                        Seq::<ClientEvent>::empty()
                    });
                }
                extend_events(&mut queue, events);
                self.events_to_send.insert(other, queue);
            }
            proof {
                let target = fan_out(waiting, seats.take(i as int + 1), player, events@);
                assert forall|q: PlayerID| self@.outbound.contains_key(q) <==> target.contains_key(
                    q,
                ) by {
                    assert(queued.contains_key(q) <==> waiting.contains_key(q) || (seats.take(
                        i as int,
                    ).contains(q) && q != player));
                }
                assert forall|q: PlayerID| self@.outbound.contains_key(q) implies self@.outbound[q]
                    == target[q] by {
                    if q == other && other != player {
                        assert(self.events_to_send@[q]@ =~= target[q]);
                    } else {
                        assert(queued.contains_key(q));
                        assert(self@.outbound[q] == queued[q]);
                    }
                }
                assert(self@.outbound =~= target);
            }
            i = i + 1;
        }
        proof {
            assert(seats.take(seats.len() as int) =~= seats);
        }
    }

    /// Passes the action of `player_id` on to the player's table, whose deck
    /// holds every card that the action draws.
    pub fn handle_action(&mut self, player_id: PlayerID, action: GameAction) -> (result: Result<
        Vec<ClientEvent>,
        CoordinatorError,
    >)
        requires
            old(self).wf(),
            old(self)@.serves(player_id, action),
        ensures
            final(self).wf(),
            final(self)@ == old(self)@.dispatch(player_id, action).0,
            answer_of(result) == old(self)@.dispatch(player_id, action).1,
            !old(self)@.seated(player_id) ==> final(self)@ == old(self)@ && result == Err::<
                Vec<ClientEvent>,
                CoordinatorError,
            >(CoordinatorError::PlayerNotFound),
    {
        let place = self.find_table(player_id);
        if place >= self.current_games.len() {
            return Err(CoordinatorError::PlayerNotFound);
        }
        proof {
            assert(self@.tables[place as int].wf());
        }
        let outcome = self.current_games[place].action(action, player_id);
        proof {
            self.lemma_after_step(old(self), place as int, player_id, action);
        }
        self.settle_outcome(place, player_id, outcome)
    }

    /// What holds of the coordinator once the table at `place` has taken the
    /// step of `player`: the other tables are as before, every table is
    /// well formed, and a step that was refused has changed nothing.
    proof fn lemma_after_step(
        &self,
        before: &GameCoordinator,
        place: int,
        player: PlayerID,
        action: GameAction,
    )
        requires
            before.wf(),
            0 <= place < before.current_games@.len(),
            self.current_games@.len() == before.current_games@.len(),
            forall|i: int|
                0 <= i < before.current_games@.len() && i != place ==> self.current_games@[i]
                    == before.current_games@[i],
            self.current_games@[place].wf(),
            self.current_games@[place]@ == before.current_games@[place]@.act(action, player).table,
            self.available_players == before.available_players,
            self.events_to_send == before.events_to_send,
            self.nothing_noted(),
        ensures
            self.wf(),
            self@ == (Floor {
                tables: before@.tables.update(
                    place,
                    before@.tables[place].act(action, player).table,
                ),
                ..before@
            }),
            before@.tables[place].act(action, player).result is Err ==> self@ == before@,
            self.current_games@[place]@.seats.no_duplicates(),
    {
        let step = before@.tables[place].act(action, player);
        assert(self@.tables =~= before@.tables.update(place, step.table));
        assert forall|i: int| 0 <= i < self@.tables.len() implies (#[trigger] self@.tables[i]).wf() by {
            if i != place {
                assert(before@.tables[i].wf());
            }
        }
        if step.result is Err {
            assert(step.table == before@.tables[place]);
            assert(self@.tables =~= before@.tables);
        }
    }

    /// Passes the action of `player_id` on to the player's table if its deck
    /// holds every card that the action draws; else nothing happens and
    /// nothing is handed back.
    pub fn try_handle_action(&mut self, player_id: PlayerID, action: GameAction) -> (outcome: Option<
        Result<Vec<ClientEvent>, CoordinatorError>,
    >)
        requires
            old(self).wf(),
        ensures
            final(self).wf(),
            outcome is Some <==> old(self)@.serves(player_id, action),
            outcome is Some ==> final(self)@ == old(self)@.dispatch(player_id, action).0
                && answer_of(outcome.unwrap()) == old(self)@.dispatch(player_id, action).1,
            outcome is None ==> final(self)@ == old(self)@,
            !old(self)@.seated(player_id) ==> final(self)@ == old(self)@ && outcome == Some(
                Err::<Vec<ClientEvent>, CoordinatorError>(CoordinatorError::PlayerNotFound),
            ),
    {
        let place = self.find_table(player_id);
        if place >= self.current_games.len() {
            return Some(Err(CoordinatorError::PlayerNotFound));
        }
        proof {
            assert(self@.tables[place as int].wf());
        }
        match self.current_games[place].try_action(action, player_id) {
            None => {
                proof {
                    assert(self@.tables =~= old(self)@.tables);
                    assert forall|i: int| 0 <= i < self@.tables.len() implies (
                    #[trigger] self@.tables[i]).wf() by {
                        assert(old(self)@.tables[i].wf());
                    }
                }
                None
            },
            Some(outcome) => {
                proof {
                    self.lemma_after_step(old(self), place as int, player_id, action);
                }
                Some(self.settle_outcome(place, player_id, outcome))
            },
        }
    }

    /// What follows the step of the table at `place`: its events are put
    /// behind those that wait for the other players at it, and its error is
    /// passed on.
    fn settle_outcome(
        &mut self,
        place: usize,
        player: PlayerID,
        outcome: Result<Vec<ClientEvent>, GameError>,
    ) -> (result: Result<Vec<ClientEvent>, CoordinatorError>)
        requires
            place < old(self).current_games@.len(),
            old(self).current_games@[place as int]@.seats.no_duplicates(),
        ensures
            final(self).current_games == old(self).current_games,
            final(self).nothing_noted() == old(self).nothing_noted(),
            match outcome {
                Ok(events) => final(self)@ == (Floor {
                    outbound: fan_out(
                        old(self)@.outbound,
                        old(self)@.tables[place as int].seats,
                        player,
                        events@,
                    ),
                    ..old(self)@
                }) && answer_of(result) == Ok::<Seq<ClientEvent>, CoordinatorError>(events@),
                Err(error) => final(self)@ == old(self)@ && result == Err::<
                    Vec<ClientEvent>,
                    CoordinatorError,
                >(CoordinatorError::GameError(error)),
            },
    {
        match outcome {
            Err(error) => Err(CoordinatorError::from(error)),
            Ok(events) => {
                self.queue_for_others(place, player, &events);
                Ok(events)
            },
        }
    }

    /// Takes the events that wait to be sent: they are handed back, and none
    /// waits any more.
    pub fn get_other_events(&mut self) -> (events: HashMap<PlayerID, Vec<ClientEvent>>)
        ensures
            queues_of(events@) == old(self)@.outbound,
            events@.dom() == old(self)@.outbound.dom(),
            final(self)@ == old(self)@.drained(),
            final(self)@.outbound == Map::<PlayerID, Seq<ClientEvent>>::empty(),
            old(self).wf() ==> final(self).wf(),
    {
        let mut taken: HashMap<PlayerID, Vec<ClientEvent>> = HashMap::new();
        std::mem::swap(&mut taken, &mut self.events_to_send);
        proof {
            assert(self@.outbound =~= Map::empty());
            assert(taken@.dom() =~= old(self)@.outbound.dom());
        }
        taken
    }
}

} // verus!
