//! The messages exchanged between clients and the server.
use vstd::prelude::*;

use crate::game::{BoardIndex, Color, GameState};
use crate::id::{Id, ServerId};

verus! {

/// Every message of the protocol, tagged by its kind.
#[derive(Debug, Clone)]
pub enum MachMessage {
    Handshake(Handshake),
    HandshakeOk(HandshakeOk),
    HandshakeFailure(HandshakeFailure),
    CreateGameRequest(CreateGameRequest),
    CreateGameResponse(CreateGameResponse),
    GetInviteTokenRequest(GetInviteTokenRequest),
    GetInviteTokenResponse(GetInviteTokenResponse),
    JoinGameRequest(JoinGameRequest),
    JoinGameResponse(JoinGameResponse),
    GetGameStateRequest(GetGameStateRequest),
    GetGameStateResponse(GetGameStateResponse),
    GameMoveRequest(GameMoveRequest),
    GameMoveResponse(GameMoveResponse),
    GameMoveHappened(GameMoveHappened),
}

/// Sent by the server on a new connection: the protocol versions it supports, ascending.
#[derive(Debug, Clone)]
pub struct Handshake {
    pub versions: Vec<u32>,
}

#[derive(Debug, Clone)]
pub struct HandshakeOk {
    pub version: u32,
}

#[derive(Debug, Clone)]
pub struct HandshakeFailure {
    pub reason: String,
}

#[derive(Debug, Clone)]
pub struct CreateGameRequest {
    pub id: Id,
    pub color: Color,
}

#[derive(Debug, Clone)]
pub struct CreateGameResponse {
    pub id: Id,
    pub game_id: ServerId,
    pub color: Color,
}

#[derive(Debug, Clone)]
pub struct GetInviteTokenRequest {
    pub id: Id,
    pub game_id: Id,
}

#[derive(Debug, Clone)]
pub struct GetInviteTokenResponse {
    pub id: Id,
    pub invite_token: String,
}

#[derive(Debug, Clone)]
pub struct JoinGameRequest {
    pub id: Id,
    pub game_id: Id,
    pub invite_token: String,
}

#[derive(Debug, Clone)]
pub struct JoinGameResponse {
    pub id: Id,
    pub success: bool,
}

#[derive(Debug, Clone)]
pub struct GetGameStateRequest {
    pub id: Id,
    pub game_id: Id,
}

#[derive(Debug, Clone)]
pub struct GetGameStateResponse {
    pub id: Id,
    pub game_state: GameState,
}

#[derive(Debug, Clone)]
pub struct GameMoveRequest {
    pub id: Id,
    pub game_id: Id,
    pub move_start: BoardIndex,
    pub move_end: BoardIndex,
}

#[derive(Debug, Clone)]
pub struct GameMoveResponse {
    pub id: Id,
    pub success: bool,
}

#[derive(Debug, Clone)]
pub struct GameMoveHappened {
    pub game_id: ServerId,
    pub move_start: BoardIndex,
    pub move_end: BoardIndex,
}

} // verus!
