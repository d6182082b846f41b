//! Membership messages of the reliable channel, as plain data.

use crate::state::ConnectionUpdate;
use vstd::prelude::*;

verus! {

/// A connected player as other players see it.
#[derive(Debug)]
pub struct PlayerInfo {
    pub id: u32,
    pub color: [u8; 3],
    pub name: String,
}

impl PlayerInfo {
    /// An identical copy.
    pub fn duplicate(&self) -> (r: PlayerInfo)
        ensures
            r == *self,
    {
        PlayerInfo { id: self.id, color: self.color, name: self.name.clone() }
    }
}

/// What the server sends on the reliable channel.
#[derive(Debug)]
pub enum ServerMessage {
    /// Sent once to a new player: its id and every other connected player.
    Connected { id: u32, players: Vec<PlayerInfo> },
    /// Another player has connected.
    PlayerJoined { id: u32, color: [u8; 3], name: String },
    /// Another player has disconnected.
    PlayerLeft { id: u32 },
}

impl ServerMessage {
    /// The message that tells a player of a membership change.
    pub fn from_update(update: ConnectionUpdate) -> (r: ServerMessage)
        ensures
            match update {
                ConnectionUpdate::Connected(p) => r == (ServerMessage::PlayerJoined {
                    id: p.id,
                    color: p.color,
                    name: p.name,
                }),
                ConnectionUpdate::Disconnected(id) => r == (ServerMessage::PlayerLeft { id }),
            },
    {
        match update {
            ConnectionUpdate::Connected(p) => ServerMessage::PlayerJoined {
                id: p.id,
                color: p.color,
                name: p.name,
            },
            ConnectionUpdate::Disconnected(id) => ServerMessage::PlayerLeft { id },
        }
    }
}

/// The attributes a client chooses for itself when it connects.
#[derive(Debug)]
pub struct ConnectInfo {
    pub color: [u8; 3],
    pub name: String,
}

/// What a client sends on the reliable channel.
#[derive(Debug)]
pub enum ClientMessage {
    Connect(ConnectInfo),
}

} // verus!
