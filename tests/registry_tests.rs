use mach::connection::{handshake_message, on_inbound, supported_versions, Action, Inbound, Phase};
use mach::game::{BoardIndex, Color, Column, GameBoard, GamePiece, Piece, Row};
use mach::id::Id;
use mach::proto::{
    CreateGameRequest, GameMoveRequest, GetGameStateRequest, GetInviteTokenRequest, HandshakeFailure, HandshakeOk,
    JoinGameRequest, MachMessage,
};
use mach::registry::GlobalState;

fn standard_board() -> GameBoard {
    let mut board = GameBoard::new();
    board.set_standard();
    board
}

fn create(state: &mut GlobalState, handle: u64, id: i32, color: Color) -> Vec<MachMessage> {
    state
        .handle_message(handle, MachMessage::CreateGameRequest(CreateGameRequest { id: Id::new(id), color }))
        .unwrap()
}

#[test]
fn create_game_answers_with_first_server_id() {
    let mut state = GlobalState::new();
    let out = create(&mut state, 1, 1, Color::White);
    assert_eq!(out.len(), 1);
    match &out[0] {
        MachMessage::CreateGameResponse(res) => {
            assert_eq!(res.id, Id::new(1));
            assert_eq!(res.game_id.as_id(), Id::new(-1));
            assert_eq!(res.color, Color::White);
        }
        m => panic!("unexpected {:?}", m),
    }
}

#[test]
fn invite_token_for_new_session() {
    let mut state = GlobalState::new();
    create(&mut state, 1, 1, Color::White);
    let req = GetInviteTokenRequest { id: Id::new(2), game_id: (Id::new(-1)) };
    let out = state.handle_message(1, MachMessage::GetInviteTokenRequest(req)).unwrap();
    assert_eq!(out.len(), 1);
    match &out[0] {
        MachMessage::GetInviteTokenResponse(res) => {
            assert_eq!(res.id, Id::new(2));
            assert_eq!(res.invite_token, "aaaaaaaa");
        }
        m => panic!("unexpected {:?}", m),
    }
    let req = GetInviteTokenRequest { id: Id::new(3), game_id: (Id::new(-1)) };
    let out = state.handle_message(1, MachMessage::GetInviteTokenRequest(req)).unwrap();
    match &out[0] {
        MachMessage::GetInviteTokenResponse(res) => assert_eq!(res.invite_token, "aaaaaaab"),
        m => panic!("unexpected {:?}", m),
    }
}

#[test]
fn invite_token_for_unknown_session_allocates_nothing() {
    let mut state = GlobalState::new();
    create(&mut state, 1, 1, Color::White);
    let req = GetInviteTokenRequest { id: Id::new(2), game_id: Id::new(-9) };
    let out = state.handle_message(1, MachMessage::GetInviteTokenRequest(req)).unwrap();
    assert!(out.is_empty());
    assert_eq!(state.next_invite_token(), "aaaaaaaa");
}

#[test]
fn invite_token_by_creators_own_id() {
    let mut state = GlobalState::new();
    create(&mut state, 1, 4, Color::White);
    let req = GetInviteTokenRequest { id: Id::new(5), game_id: Id::new(4) };
    let out = state.handle_message(1, MachMessage::GetInviteTokenRequest(req)).unwrap();
    assert_eq!(out.len(), 1);
    match &out[0] {
        MachMessage::GetInviteTokenResponse(res) => {
            assert_eq!(res.id, Id::new(5));
            assert_eq!(res.invite_token, "aaaaaaaa");
        }
        m => panic!("unexpected {:?}", m),
    }
    // Another connection cannot name the session by the creator's id.
    let req = GetInviteTokenRequest { id: Id::new(6), game_id: Id::new(4) };
    let out = state.handle_message(2, MachMessage::GetInviteTokenRequest(req)).unwrap();
    assert!(out.is_empty());
}

#[test]
fn positive_game_id_matches_no_state_or_move() {
    let mut state = GlobalState::new();
    create(&mut state, 1, 1, Color::White);
    let req = GetGameStateRequest { id: Id::new(2), game_id: Id::new(1) };
    assert!(state.handle_message(1, MachMessage::GetGameStateRequest(req)).unwrap().is_empty());
    let req = GameMoveRequest {
        id: Id::new(3),
        game_id: Id::new(1),
        move_start: BoardIndex::new(Column::A, Row::R2),
        move_end: BoardIndex::new(Column::A, Row::R3),
    };
    assert!(state.handle_message(1, MachMessage::GameMoveRequest(req)).unwrap().is_empty());
}

#[test]
fn join_reports_inverted_success() {
    let mut state = GlobalState::new();
    create(&mut state, 1, 1, Color::White);
    let req = GetInviteTokenRequest { id: Id::new(2), game_id: (Id::new(-1)) };
    state.handle_message(1, MachMessage::GetInviteTokenRequest(req)).unwrap();
    let join = |state: &mut GlobalState, handle: u64| {
        let req = JoinGameRequest { id: Id::new(3), game_id: Id::new(1), invite_token: String::from("aaaaaaaa") };
        state.handle_message(handle, MachMessage::JoinGameRequest(req)).unwrap()
    };
    let out = join(&mut state, 2);
    assert_eq!(out.len(), 1);
    match &out[0] {
        MachMessage::JoinGameResponse(res) => {
            assert_eq!(res.id, Id::new(3));
            assert!(!res.success);
        }
        m => panic!("unexpected {:?}", m),
    }
    let out = join(&mut state, 3);
    assert_eq!(out.len(), 1);
    match &out[0] {
        MachMessage::JoinGameResponse(res) => {
            assert_eq!(res.id, Id::new(3));
            assert!(res.success);
        }
        m => panic!("unexpected {:?}", m),
    }
}

#[test]
fn join_with_unknown_token_gets_no_answer() {
    let mut state = GlobalState::new();
    create(&mut state, 1, 1, Color::White);
    let req = JoinGameRequest { id: Id::new(3), game_id: Id::new(1), invite_token: String::from("aaaaaaaa") };
    let out = state.handle_message(2, MachMessage::JoinGameRequest(req)).unwrap();
    assert!(out.is_empty());
}

#[test]
fn create_then_read_gives_standard_layout() {
    let mut state = GlobalState::new();
    let sid = state.create_session(1, Id::new(7), Color::Black);
    let states = state.read_game_state(sid.as_id());
    assert_eq!(states.len(), 1);
    assert_eq!(states[0].board, standard_board());
    assert_eq!(states[0].turn, Color::White);
    let req = GetGameStateRequest { id: Id::new(8), game_id: sid.as_id() };
    let out = state.handle_message(1, MachMessage::GetGameStateRequest(req)).unwrap();
    assert_eq!(out.len(), 1);
    match &out[0] {
        MachMessage::GetGameStateResponse(res) => {
            assert_eq!(res.id, Id::new(8));
            assert_eq!(res.game_state.board, standard_board());
        }
        m => panic!("unexpected {:?}", m),
    }
}

#[test]
fn state_of_unknown_session_gets_no_answer() {
    let mut state = GlobalState::new();
    create(&mut state, 1, 1, Color::White);
    let req = GetGameStateRequest { id: Id::new(8), game_id: (Id::new(-2)) };
    let out = state.handle_message(1, MachMessage::GetGameStateRequest(req)).unwrap();
    assert!(out.is_empty());
}

#[test]
fn move_relocates_pawn_backward() {
    let mut state = GlobalState::new();
    create(&mut state, 1, 1, Color::White);
    let from = BoardIndex::new(Column::E, Row::R2);
    let to = BoardIndex::new(Column::E, Row::R1);
    let empty_from = BoardIndex::new(Column::E, Row::R3);
    let req = GameMoveRequest { id: Id::new(4), game_id: (Id::new(-1)), move_start: from, move_end: empty_from };
    let out = state.handle_message(1, MachMessage::GameMoveRequest(req)).unwrap();
    assert_eq!(out.len(), 1);
    match &out[0] {
        MachMessage::GameMoveResponse(res) => {
            assert_eq!(res.id, Id::new(4));
            assert!(res.success);
        }
        m => panic!("unexpected {:?}", m),
    }
    let req = GameMoveRequest { id: Id::new(5), game_id: (Id::new(-1)), move_start: empty_from, move_end: from };
    state.handle_message(1, MachMessage::GameMoveRequest(req)).unwrap();
    let req = GameMoveRequest { id: Id::new(6), game_id: (Id::new(-1)), move_start: from, move_end: to };
    let out = state.handle_message(1, MachMessage::GameMoveRequest(req)).unwrap();
    match &out[0] {
        MachMessage::GameMoveResponse(res) => assert!(res.success),
        m => panic!("unexpected {:?}", m),
    }
    let states = state.read_game_state(Id::new(-1));
    let board = &states[0].board;
    assert_eq!(board.get_board_index(from), None);
    assert_eq!(board.get_board_index(empty_from), None);
    assert_eq!(board.get_board_index(to), Some(GamePiece::new(Piece::Pawn, Color::White)));
}

#[test]
fn move_on_unknown_session_gets_no_answer() {
    let mut state = GlobalState::new();
    let req = GameMoveRequest {
        id: Id::new(4),
        game_id: (Id::new(-1)),
        move_start: BoardIndex::new(Column::A, Row::R1),
        move_end: BoardIndex::new(Column::A, Row::R2),
    };
    let out = state.handle_message(1, MachMessage::GameMoveRequest(req)).unwrap();
    assert!(out.is_empty());
}

#[test]
fn sequential_creates_get_decreasing_ids() {
    let mut state = GlobalState::new();
    let mut ids: Vec<i32> = Vec::new();
    for handle in 1..=5u64 {
        let out = create(&mut state, handle, 1, Color::Black);
        match &out[0] {
            MachMessage::CreateGameResponse(res) => ids.push(res.game_id.as_id().value()),
            m => panic!("unexpected {:?}", m),
        }
    }
    assert_eq!(ids, vec![-1, -2, -3, -4, -5]);
}

#[test]
fn handles_start_at_one_and_increase() {
    let mut state = GlobalState::new();
    assert_eq!(state.next_client_handle(), 1);
    assert_eq!(state.next_client_handle(), 2);
    assert_eq!(state.next_server_id().as_id(), Id::new(-1));
    assert_eq!(state.next_server_id().as_id(), Id::new(-2));
}

#[test]
fn unexpected_message_gets_no_answer() {
    let mut state = GlobalState::new();
    let out = state.handle_message(1, handshake_message()).unwrap();
    assert!(out.is_empty());
}

#[test]
fn handshake_lists_version_zero() {
    assert_eq!(supported_versions(), vec![0]);
    match handshake_message() {
        MachMessage::Handshake(h) => assert_eq!(h.versions, vec![0]),
        m => panic!("unexpected {:?}", m),
    }
}

#[test]
fn handshake_ok_makes_connection_ready() {
    let (phase, action) = on_inbound(
        Phase::AwaitingHandshakeAck,
        Inbound::Message(MachMessage::HandshakeOk(HandshakeOk { version: 0 })),
    );
    assert_eq!(phase, Phase::Ready(0));
    assert!(matches!(action, Action::Continue));
}

#[test]
fn handshake_failure_closes_connection() {
    let failure = MachMessage::HandshakeFailure(HandshakeFailure { reason: String::from("no") });
    let (phase, action) = on_inbound(Phase::AwaitingHandshakeAck, Inbound::Message(failure));
    assert_eq!(phase, Phase::Closed);
    assert!(matches!(action, Action::Abort));
    let (phase, action) = on_inbound(Phase::AwaitingHandshakeAck, Inbound::Close);
    assert_eq!(phase, Phase::Closed);
    assert!(matches!(action, Action::Abort));
}

#[test]
fn ready_connection_dispatches_and_stops() {
    let (phase, action) = on_inbound(Phase::Ready(0), Inbound::Message(handshake_message()));
    assert_eq!(phase, Phase::Ready(0));
    assert!(matches!(action, Action::Dispatch(MachMessage::Handshake(_))));
    let (phase, action) = on_inbound(Phase::Ready(0), Inbound::Close);
    assert_eq!(phase, Phase::Closed);
    assert!(matches!(action, Action::Stop));
    let (phase, action) = on_inbound(Phase::Ready(0), Inbound::Other);
    assert_eq!(phase, Phase::Closed);
    assert!(matches!(action, Action::CloseTransport));
    let (_, action) = on_inbound(Phase::Ready(0), Inbound::Error);
    assert!(matches!(action, Action::Stop));
}

#[test]
fn requests_act_on_every_matching_session() {
    let mut state = GlobalState::new();
    // The first session was requested with id -2, the second is named -2 by the server.
    create(&mut state, 1, -2, Color::White);
    create(&mut state, 1, 5, Color::Black);
    let req = GetInviteTokenRequest { id: Id::new(6), game_id: Id::new(-2) };
    let out = state.handle_message(1, MachMessage::GetInviteTokenRequest(req)).unwrap();
    assert_eq!(out.len(), 2);
    let expected = ["aaaaaaaa", "aaaaaaab"];
    for (m, token) in out.iter().zip(expected.iter()) {
        match m {
            MachMessage::GetInviteTokenResponse(res) => {
                assert_eq!(res.id, Id::new(6));
                assert_eq!(res.invite_token, *token);
            }
            m => panic!("unexpected {:?}", m),
        }
    }
    // Another connection does not select the first session by its request id.
    let req = GetInviteTokenRequest { id: Id::new(7), game_id: Id::new(-2) };
    let out = state.handle_message(2, MachMessage::GetInviteTokenRequest(req)).unwrap();
    assert_eq!(out.len(), 1);
    match &out[0] {
        MachMessage::GetInviteTokenResponse(res) => assert_eq!(res.invite_token, "aaaaaaac"),
        m => panic!("unexpected {:?}", m),
    }
    // Moves reach every session named by the server id.
    let req = GameMoveRequest {
        id: Id::new(8),
        game_id: Id::new(-1),
        move_start: BoardIndex::new(Column::A, Row::R2),
        move_end: BoardIndex::new(Column::A, Row::R4),
    };
    assert_eq!(state.handle_message(1, MachMessage::GameMoveRequest(req)).unwrap().len(), 1);
    let req = JoinGameRequest { id: Id::new(9), game_id: Id::new(1), invite_token: String::from("aaaaaaab") };
    let out = state.handle_message(3, MachMessage::JoinGameRequest(req)).unwrap();
    assert_eq!(out.len(), 1);
    match &out[0] {
        MachMessage::JoinGameResponse(res) => assert!(!res.success),
        m => panic!("unexpected {:?}", m),
    }
}
