use blackjack::card::{Card, CardSuit, Value};
use blackjack::gamecoordinator::{CoordinatorError, GameCoordinator};
use blackjack::gamestate::{ClientEvent, FromPlayer, GameAction, GameError, PlayerID};
use blackjack::worker::{on_received, Fault, Next, Received};

fn card(rank: Value) -> Card {
    Card::new(CardSuit::Hearts, rank)
}

fn two_tables() -> GameCoordinator {
    let mut coordinator = GameCoordinator::new();
    for id in 1..=8u128 {
        coordinator.seat_player(id);
    }
    for game in coordinator.get_mut_current_games().iter_mut() {
        game.create_users_hand();
        let mut cards: Vec<Card> = vec![
            Value::Two,
            Value::Three,
            Value::Four,
            Value::Five,
            Value::Six,
            Value::Seven,
            Value::Eight,
            Value::Nine,
            Value::Ten,
            Value::Jack,
            Value::Queen,
            Value::King,
        ]
        .into_iter()
        .map(card)
        .collect();
        game.get_mut_deck().append(&mut cards);
    }
    coordinator
}

fn snapshot(coordinator: &GameCoordinator) -> Vec<(Vec<PlayerID>, Vec<i64>, Vec<usize>, usize)> {
    coordinator
        .get_current_games()
        .iter()
        .map(|game| {
            let players = game.get_player_list().clone();
            let money = players.iter().map(|p| game.get_player_money(*p).unwrap_or(-1)).collect();
            let hands = players
                .iter()
                .map(|p| game.get_player_hand(*p).map(|h| h.len()).unwrap_or(0))
                .collect();
            (players, money, hands, game.get_deck().len())
        })
        .collect()
}

#[test]
fn a_table_opens_for_every_four_players() {
    let mut coordinator = GameCoordinator::new();
    assert!(coordinator.get_available_players().is_empty());
    assert!(coordinator.get_current_games().is_empty());
    assert!(coordinator.get_events_to_send().is_empty());
    assert!(coordinator.get_last_player_input().is_empty());
    assert!(coordinator.get_player_money().is_empty());
    coordinator.seat_player(10);
    coordinator.seat_player(11);
    coordinator.seat_player(12);
    assert_eq!(*coordinator.get_available_players(), vec![10, 11, 12]);
    assert_eq!(coordinator.get_current_games().len(), 0);
    coordinator.seat_player(13);
    assert!(coordinator.get_available_players().is_empty());
    assert_eq!(coordinator.get_current_games().len(), 1);
    assert_eq!(*coordinator.get_current_games()[0].get_player_list(), vec![10, 11, 12, 13]);
    coordinator.seat_player(14);
    assert_eq!(*coordinator.get_available_players(), vec![14]);
    assert_eq!(coordinator.get_current_games().len(), 1);
}

#[test]
fn new_users_get_random_identifiers() {
    let mut coordinator = GameCoordinator::new();
    let first = coordinator.on_new_user();
    let second = coordinator.on_new_user();
    assert_ne!(first, second);
    assert_eq!(*coordinator.get_available_players(), vec![first, second]);
    // Version four, variant one.
    assert_eq!((first >> 76) & 0xF, 4);
    assert_eq!((first >> 62) & 0x3, 2);
    assert_eq!(second & 0xF000_C000_0000_0000_0000u128, 0x4000_8000_0000_0000_0000u128);
    assert_eq!(uuid::Uuid::from_u128(second).get_version_num(), 4);
}

#[test]
fn a_dropped_player_leaves_the_room_or_the_table() {
    let mut coordinator = two_tables();
    coordinator.seat_player(20);
    coordinator.seat_player(21);
    coordinator.on_dropped_user(20);
    assert_eq!(*coordinator.get_available_players(), vec![21]);
    coordinator.on_dropped_user(6);
    assert_eq!(*coordinator.get_current_games()[0].get_player_list(), vec![1, 2, 3, 4]);
    assert_eq!(*coordinator.get_current_games()[1].get_player_list(), vec![5, 7, 8]);
    assert_eq!(coordinator.get_current_games().len(), 2);
    coordinator.on_dropped_user(99);
    assert_eq!(*coordinator.get_available_players(), vec![21]);
    assert_eq!(coordinator.get_current_games().len(), 2);
}

#[test]
fn an_unseated_player_is_not_found() {
    let mut coordinator = two_tables();
    coordinator.seat_player(20);
    let before = snapshot(&coordinator);
    assert_eq!(
        coordinator.handle_action(20, GameAction::AddMoney(5)),
        Err(CoordinatorError::PlayerNotFound)
    );
    assert_eq!(
        coordinator.handle_action(99, GameAction::Hit),
        Err(CoordinatorError::PlayerNotFound)
    );
    assert_eq!(
        coordinator.try_handle_action(99, GameAction::Stand),
        Some(Err(CoordinatorError::PlayerNotFound))
    );
    assert_eq!(snapshot(&coordinator), before);
    assert!(coordinator.get_events_to_send().is_empty());
}

#[test]
fn a_refused_action_is_passed_on_and_tells_nobody() {
    let mut coordinator = two_tables();
    assert_eq!(
        coordinator.handle_action(1, GameAction::AddMoney(-5)),
        Err(CoordinatorError::GameError(GameError::InvaildAction))
    );
    assert_eq!(
        coordinator.handle_action(1, GameAction::Hit),
        Err(CoordinatorError::GameError(GameError::InvaildAction))
    );
    let mut bare = GameCoordinator::new();
    for id in 1..=4u128 {
        bare.seat_player(id);
    }
    assert_eq!(
        bare.handle_action(1, GameAction::AddMoney(5)),
        Err(CoordinatorError::GameError(GameError::MissingPlayerID))
    );
    assert!(coordinator.get_events_to_send().is_empty());
    assert_eq!(
        CoordinatorError::from(GameError::MissingPlayerID),
        CoordinatorError::GameError(GameError::MissingPlayerID)
    );
}

#[test]
fn events_wait_for_the_other_players_of_the_table() {
    let mut coordinator = two_tables();
    assert_eq!(
        coordinator.handle_action(2, GameAction::AddMoney(50)),
        Ok(vec![ClientEvent::Betting(2, 50)])
    );
    assert_eq!(
        coordinator.handle_action(3, GameAction::AddMoney(7)),
        Ok(vec![ClientEvent::Betting(3, 7)])
    );
    let queues = coordinator.get_events_to_send();
    assert_eq!(queues.len(), 4);
    assert_eq!(queues[&1], vec![ClientEvent::Betting(2, 50), ClientEvent::Betting(3, 7)]);
    assert_eq!(queues[&2], vec![ClientEvent::Betting(3, 7)]);
    assert_eq!(queues[&3], vec![ClientEvent::Betting(2, 50)]);
    assert_eq!(queues[&4], vec![ClientEvent::Betting(2, 50), ClientEvent::Betting(3, 7)]);
    assert!(!queues.contains_key(&5));
    // An action without events still opens the queues of the others.
    assert_eq!(coordinator.handle_action(6, GameAction::Double), Ok(vec![]));
    let queues = coordinator.get_events_to_send();
    assert_eq!(queues.len(), 7);
    assert_eq!(queues[&5], vec![]);
    assert!(!queues.contains_key(&6));
}

#[test]
fn taking_the_events_twice_gives_nothing_the_second_time() {
    let mut coordinator = two_tables();
    coordinator.handle_action(2, GameAction::AddMoney(50)).unwrap();
    let first = coordinator.get_other_events();
    assert_eq!(first.len(), 3);
    assert_eq!(first[&1], vec![ClientEvent::Betting(2, 50)]);
    assert!(coordinator.get_events_to_send().is_empty());
    let second = coordinator.get_other_events();
    assert!(second.is_empty());
    coordinator.handle_action(2, GameAction::AddMoney(1)).unwrap();
    assert_eq!(coordinator.get_other_events().len(), 3);
}

#[test]
fn actions_at_two_tables_do_not_depend_on_their_order() {
    let mut one = two_tables();
    let mut other = two_tables();
    for coordinator in [&mut one, &mut other] {
        for id in 1..=8u128 {
            coordinator.handle_action(id, GameAction::AddMoney(100)).unwrap();
            coordinator.handle_action(id, GameAction::StartingBet(10)).unwrap();
        }
    }
    let first = one.handle_action(1, GameAction::Hit);
    let second = one.handle_action(5, GameAction::Stand);
    let second_again = other.handle_action(5, GameAction::Stand);
    let first_again = other.handle_action(1, GameAction::Hit);
    assert_eq!(first, first_again);
    assert_eq!(second, second_again);
    assert_eq!(
        first,
        Ok(vec![ClientEvent::CardRevealed(FromPlayer::Player(1), card(Value::Queen))])
    );
    assert_eq!(snapshot(&one), snapshot(&other));
    assert_eq!(one.get_current_games()[0].get_current_player(), Some(1));
    assert_eq!(one.get_current_games()[1].get_current_player(), Some(6));
    assert_eq!(other.get_current_games()[1].get_current_player(), Some(6));
}

#[test]
fn the_deck_must_serve_the_action() {
    let mut coordinator = two_tables();
    coordinator.get_mut_current_games()[1].get_mut_deck().clear();
    for id in 5..=7u128 {
        coordinator.handle_action(id, GameAction::AddMoney(100)).unwrap();
        coordinator.handle_action(id, GameAction::StartingBet(10)).unwrap();
    }
    coordinator.handle_action(8, GameAction::AddMoney(100)).unwrap();
    coordinator.get_other_events();
    assert_eq!(coordinator.try_handle_action(8, GameAction::StartingBet(10)), None);
    assert!(coordinator.get_events_to_send().is_empty());
    assert_eq!(coordinator.get_current_games()[1].get_player_money(8), Ok(100));
    assert!(coordinator.get_current_games()[1].get_player_bet(8).is_err());
    let events = coordinator.try_handle_action(1, GameAction::AddMoney(3)).unwrap().unwrap();
    assert_eq!(events, vec![ClientEvent::Betting(1, 3)]);
}

#[test]
fn a_worker_polls_again_after_nothing() {
    let mut coordinator = two_tables();
    let before = snapshot(&coordinator);
    assert_eq!(on_received(&mut coordinator, 1, Received::Nothing), Next::Continue);
    assert_eq!(snapshot(&coordinator), before);
}

#[test]
fn a_worker_sends_what_an_action_produced() {
    let mut coordinator = two_tables();
    assert_eq!(
        on_received(&mut coordinator, 1, Received::Action(GameAction::AddMoney(9))),
        Next::Send(vec![ClientEvent::Betting(1, 9)])
    );
    assert_eq!(coordinator.get_current_games()[0].get_player_money(1), Ok(9));
    assert_eq!(coordinator.get_events_to_send().len(), 3);
    // No events, nothing to send.
    assert_eq!(
        on_received(&mut coordinator, 1, Received::Action(GameAction::Double)),
        Next::Continue
    );
    // A refused action is not sent and does not end the worker.
    assert_eq!(
        on_received(&mut coordinator, 1, Received::Action(GameAction::Hit)),
        Next::Continue
    );
    assert_eq!(
        on_received(&mut coordinator, 99, Received::Action(GameAction::Hit)),
        Next::Continue
    );
    assert_eq!(*coordinator.get_current_games()[0].get_player_list(), vec![1, 2, 3, 4]);
}

#[test]
fn a_worker_reports_a_message_that_is_no_frame() {
    let mut coordinator = two_tables();
    assert_eq!(
        on_received(&mut coordinator, 3, Received::NotBinary),
        Next::Report(Fault::BadMessage(3))
    );
    assert_eq!(*coordinator.get_current_games()[0].get_player_list(), vec![1, 2, 3, 4]);
}

#[test]
fn a_worker_that_ends_takes_its_player_along() {
    let mut coordinator = two_tables();
    coordinator.seat_player(30);
    assert_eq!(
        on_received(&mut coordinator, 3, Received::TransportFault),
        Next::Quit(Fault::Transport)
    );
    assert_eq!(*coordinator.get_current_games()[0].get_player_list(), vec![1, 2, 4]);
    assert_eq!(
        on_received(&mut coordinator, 30, Received::Malformed),
        Next::Quit(Fault::Decode(30))
    );
    assert!(coordinator.get_available_players().is_empty());
    assert_eq!(*coordinator.get_current_games()[1].get_player_list(), vec![5, 6, 7, 8]);
}

#[test]
fn a_worker_ends_where_the_deck_runs_out() {
    let mut coordinator = two_tables();
    coordinator.get_mut_current_games()[0].get_mut_deck().clear();
    for id in 1..=3u128 {
        coordinator.handle_action(id, GameAction::AddMoney(100)).unwrap();
        coordinator.handle_action(id, GameAction::StartingBet(10)).unwrap();
    }
    coordinator.handle_action(4, GameAction::AddMoney(100)).unwrap();
    assert_eq!(
        on_received(&mut coordinator, 4, Received::Action(GameAction::StartingBet(10))),
        Next::Quit(Fault::OutOfCards(4))
    );
    assert_eq!(*coordinator.get_current_games()[0].get_player_list(), vec![1, 2, 3]);
    assert!(coordinator.get_current_games()[0].get_dealer_hand().is_empty());
}
