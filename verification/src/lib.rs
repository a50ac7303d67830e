//! A multiplayer blackjack table engine: cards and hand values, the round
//! state machine of one table, the coordinator that seats players and routes
//! their actions, and the decisions of a connection worker.

pub mod card;
pub mod hand;
pub mod chips;
pub mod gamestate;
pub mod table;
pub mod invariants;
pub mod outside;
pub mod gamecoordinator;
pub mod worker;
pub mod laws;
