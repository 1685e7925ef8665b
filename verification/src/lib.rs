//! A server for the card game Poker Banting: the rules of the game, the bots,
//! the rooms in which it is played, and what each client is told.
use crate::rooms::RoomManager;
use crate::store::InMemoryStore;
use vstd::prelude::*;
use vstd::string::*;

pub mod config;
pub mod driver;
pub mod game;
pub mod guard;
pub mod protocol;
pub mod pubsub;
pub mod rooms;
pub mod store;
pub mod text;
pub mod ws;

verus! {

/// What somebody who asks after the server's health is told.
#[derive(Debug)]
pub struct HealthResponse {
    pub status: String,
    pub rooms: usize,
}

/// What is told of a server that is well and holds so many rooms.
pub fn health_report(rooms: usize) -> (r: HealthResponse)
    ensures
        r.status@ == "ok"@,
        r.rooms == rooms,
{
    HealthResponse { status: "ok".to_owned(), rooms }
}

/// The server is well and holds so many rooms.
pub fn health(rooms: &InMemoryStore) -> (r: HealthResponse)
    ensures
        r.status@ == "ok"@,
        r.rooms == rooms@.len(),
{
    health_report(RoomManager::room_count(rooms))
}

} // verus!
