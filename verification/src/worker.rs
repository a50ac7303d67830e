//! The decisions of the worker that serves one connection: what it does with
//! what it found on the connection, one poll at a time.

use crate::gamecoordinator::{Floor, GameCoordinator};
use crate::gamestate::{ClientEvent, GameAction, PlayerID};
use vstd::prelude::*;

verus! {

/// What a worker found when it polled its connection.
#[derive(Debug, Clone, Copy, PartialEq, Eq, Structural)]
pub enum Received {
    /// No data was there.
    Nothing,
    /// The transport failed, on reading or on sending.
    TransportFault,
    /// A binary frame that holds an action.
    Action(GameAction),
    /// A binary frame that holds no action.
    Malformed,
    /// A message that is no binary frame.
    NotBinary,
}

/// What a worker reports.
#[derive(Debug, Clone, Copy, PartialEq, Eq, Structural)]
pub enum Fault {
    /// The transport failed.
    Transport,
    /// The frame of this player held no action.
    Decode(PlayerID),
    /// The message of this player was no binary frame.
    BadMessage(PlayerID),
    /// The table of this player has run out of cards.
    OutOfCards(PlayerID),
}

/// What a worker does next.
#[derive(Debug, PartialEq, Eq)]
pub enum Next {
    /// It polls again.
    Continue,
    /// It sends the events on its connection, then polls again.
    Send(Vec<ClientEvent>),
    /// It reports the fault, then polls again.
    Report(Fault),
    /// It reports the fault and ends. Its player has left the coordinator.
    Quit(Fault),
}

/// The fault that ends a worker which found `received`, if it ends it.
pub open spec fn fatal(coordinator: Floor, player: PlayerID, received: Received) -> Option<Fault> {
    match received {
        Received::TransportFault => Some(Fault::Transport),
        Received::Malformed => Some(Fault::Decode(player)),
        Received::Action(action) => if coordinator.serves(player, action) {
            None
        } else {
            Some(Fault::OutOfCards(player))
        },
        _ => None,
    }
}

/// The coordinator after a worker has dealt with what it found: an action is
/// dispatched, and the player of a worker that ends has left.
pub open spec fn after(coordinator: Floor, player: PlayerID, received: Received) -> Floor {
    if fatal(coordinator, player, received) is Some {
        coordinator.release(player)
    } else {
        match received {
            Received::Action(action) => coordinator.dispatch(player, action).0,
            _ => coordinator,
        }
    }
}

/// The worker of `player` deals with what it found on its connection.
///
/// - Nothing there: it polls again.
/// - A fault of the transport, or a frame that holds no action: it reports
///   that and ends.
/// - A message that is no binary frame: it reports that and polls again.
/// - An action: the coordinator dispatches it. Events that result are sent
///   back; where none result, or the action is refused, nothing is sent.
///   Either way the worker polls again. Where the deck of the table cannot
///   serve the action, nothing is dispatched, and the worker reports that
///   and ends.
///
/// The player of a worker that ends leaves the coordinator.
pub fn on_received(coordinator: &mut GameCoordinator, player: PlayerID, received: Received) -> (next:
    Next)
    requires
        old(coordinator).wf(),
    ensures
        final(coordinator).wf(),
        final(coordinator)@ == after(old(coordinator)@, player, received),
        match fatal(old(coordinator)@, player, received) {
            Some(fault) => next == Next::Quit(fault),
            None => match received {
                Received::Action(action) => match old(coordinator)@.dispatch(player, action).1 {
                    Ok(events) => if events.len() > 0 {
                        next matches Next::Send(sent) && sent@ == events
                    } else {
                        next == Next::Continue
                    },
                    Err(_) => next == Next::Continue,
                },
                Received::NotBinary => next == Next::Report(Fault::BadMessage(player)),
                _ => next == Next::Continue,
            },
        },
{
    match received {
        Received::Nothing => Next::Continue,
        Received::TransportFault => {
            coordinator.on_dropped_user(player);
            Next::Quit(Fault::Transport)
        },
        Received::Malformed => {
            coordinator.on_dropped_user(player);
            Next::Quit(Fault::Decode(player))
        },
        Received::NotBinary => Next::Report(Fault::BadMessage(player)),
        Received::Action(action) => match coordinator.try_handle_action(player, action) {
            None => {
                coordinator.on_dropped_user(player);
                Next::Quit(Fault::OutOfCards(player))
            },
            Some(Ok(events)) => if events.len() >= 1 {
                Next::Send(events)
            } else {
                Next::Continue
            },
            Some(Err(_)) => Next::Continue,
        },
    }
}

} // verus!
