//! Maps one inbound message, from a given connection, to a registry update
//! and the messages to send back on that connection.
use vstd::prelude::*;

use crate::game::Color;
use crate::id::Id;
use crate::proto::{
    CreateGameResponse, GameMoveResponse, GetGameStateResponse, GetInviteTokenResponse, JoinGameResponse, MachMessage,
};
use crate::registry::{
    create_session_post, has_token, issue_post, join_outcomes, join_post, move_post, selected_count, sessions_on,
    ClientHandle, Game, GlobalState, RegistryError,
};
use crate::token::{advance, ascii_chars, tokens_suffice};

verus! {

/// `m` answers a create request `id` with the session `sid` and colour `color`.
pub open spec fn is_create_response(m: MachMessage, id: Id, sid: i32, color: Color) -> bool {
    &&& m is CreateGameResponse
    &&& m->CreateGameResponse_0.id == id
    &&& m->CreateGameResponse_0.game_id.value_spec() == sid
    &&& m->CreateGameResponse_0.color == color
}

/// `out` holds `n` answers to the token request `id`, carrying in order the
/// successive values of the token counter from `cursor`.
pub open spec fn are_token_responses(out: Seq<MachMessage>, id: Id, cursor: Seq<u8>, n: nat) -> bool {
    &&& out.len() == n
    &&& forall|k: int|
        0 <= k < out.len() ==> (#[trigger] out[k]) is GetInviteTokenResponse
            && out[k]->GetInviteTokenResponse_0.id == id && out[k]->GetInviteTokenResponse_0.invite_token@
            == ascii_chars(advance(cursor, k as nat))
}

/// `out` answers the join request `id` with one flag per entry of `flags`, in order.
pub open spec fn are_join_responses(out: Seq<MachMessage>, id: Id, flags: Seq<bool>) -> bool {
    &&& out.len() == flags.len()
    &&& forall|k: int|
        0 <= k < out.len() ==> (#[trigger] out[k]) is JoinGameResponse && out[k]->JoinGameResponse_0.id == id
            && out[k]->JoinGameResponse_0.success == flags[k]
}

/// `out` answers the state request `id` with the state of each of `games`, in order.
pub open spec fn are_state_responses(out: Seq<MachMessage>, id: Id, games: Seq<Game>) -> bool {
    &&& out.len() == games.len()
    &&& forall|k: int|
        0 <= k < out.len() ==> (#[trigger] out[k]) is GetGameStateResponse && out[k]->GetGameStateResponse_0.id
            == id && out[k]->GetGameStateResponse_0.game_state.board.wf()
            && out[k]->GetGameStateResponse_0.game_state.board@ == games[k].game_state.board@
            && out[k]->GetGameStateResponse_0.game_state.turn == games[k].game_state.turn
}

/// `out` holds `n` successful answers to the move request `id`.
pub open spec fn are_move_responses(out: Seq<MachMessage>, id: Id, n: nat) -> bool {
    &&& out.len() == n
    &&& forall|k: int|
        0 <= k < out.len() ==> (#[trigger] out[k]) is GameMoveResponse && out[k]->GameMoveResponse_0.id == id
            && out[k]->GameMoveResponse_0.success
}

/// What handling `message` from `handle` does, given the registry before and
/// after and the result.
pub open spec fn dispatch_post(
    before: GlobalState,
    after: GlobalState,
    handle: ClientHandle,
    message: MachMessage,
    r: Result<Vec<MachMessage>, RegistryError>,
) -> bool {
    match message {
        MachMessage::CreateGameRequest(c) => if before.next_server_value() == i32::MIN {
            r == Err::<Vec<MachMessage>, RegistryError>(RegistryError::ServerIdsExhausted) && after == before
        } else {
            &&& r is Ok
            &&& r->Ok_0@.len() == 1
            &&& is_create_response(r->Ok_0@[0], c.id, before.next_server_value(), c.color)
            &&& create_session_post(before, after, handle, c.id, c.color)
        },
        MachMessage::GetInviteTokenRequest(g) => {
            let c = before.token_cursor();
            let gid = g.game_id.0;
            let n = selected_count(before.games(), handle, gid);
            if !tokens_suffice(c, n) {
                r == Err::<Vec<MachMessage>, RegistryError>(RegistryError::TokenSpaceExhausted) && after == before
            } else {
                &&& r is Ok
                &&& are_token_responses(r->Ok_0@, g.id, c, n)
                &&& forall|k: int, i: int| 0 <= k < n && 0 <= i < before.games().len() ==>
                    !#[trigger] has_token(before.games()[i], r->Ok_0@[k]->GetInviteTokenResponse_0.invite_token@)
                &&& issue_post(before.games(), after.games(), handle, gid, c)
                &&& after.token_cursor() == advance(c, n)
                &&& after.next_handle() == before.next_handle()
                &&& after.next_server_value() == before.next_server_value()
            }
        },
        MachMessage::JoinGameRequest(j) => {
            &&& r is Ok
            &&& are_join_responses(r->Ok_0@, j.id, join_outcomes(before.games(), j.invite_token@))
            &&& join_post(before.games(), after.games(), j.invite_token@, handle)
            &&& after.token_cursor() == before.token_cursor()
            &&& after.next_handle() == before.next_handle()
            &&& after.next_server_value() == before.next_server_value()
        },
        MachMessage::GetGameStateRequest(g) => {
            &&& r is Ok
            &&& are_state_responses(r->Ok_0@, g.id, sessions_on(before.games(), g.game_id.0))
            &&& after == before
        },
        MachMessage::GameMoveRequest(m) => {
            let sid = m.game_id.0;
            &&& r is Ok
            &&& are_move_responses(r->Ok_0@, m.id, sessions_on(before.games(), sid).len())
            &&& move_post(before.games(), after.games(), sid, m.move_start, m.move_end)
            &&& after.token_cursor() == before.token_cursor()
            &&& after.next_handle() == before.next_handle()
            &&& after.next_server_value() == before.next_server_value()
        },
        _ => r is Ok && r->Ok_0@.len() == 0 && after == before,
    }
}

impl GlobalState {
    /// Handles one message received on the connection `handle`: updates the
    /// registry and returns the messages to send back, in order. Each answer
    /// carries the request's `id`. Messages that are not requests get no answer.
    pub fn handle_message(&mut self, handle: ClientHandle, message: MachMessage) -> (r: Result<
        Vec<MachMessage>,
        RegistryError,
    >)
        requires
            old(self).wf(),
        ensures
            final(self).wf(),
            dispatch_post(*old(self), *final(self), handle, message, r),
    {
        match message {
            MachMessage::CreateGameRequest(create) => {
                if !self.has_server_ids() {
                    return Err(RegistryError::ServerIdsExhausted);
                }
                let server_id = self.create_session(handle, create.id, create.color);
                let mut out: Vec<MachMessage> = Vec::new();
                out.push(
                    MachMessage::CreateGameResponse(
                        CreateGameResponse { id: create.id, game_id: server_id, color: create.color },
                    ),
                );
                Ok(out)
            },
            MachMessage::GetInviteTokenRequest(get) => {
                let ghost before = self.games();
                let ghost c = self.token_cursor();
                let tokens = match self.issue_invite_token(handle, get.game_id) {
                    Ok(tokens) => tokens,
                    Err(e) => return Err(e),
                };
                let mut out: Vec<MachMessage> = Vec::new();
                let mut k: usize = 0;
                while k < tokens.len()
                    invariant
                        k <= tokens@.len(),
                        out@.len() == k,
                        forall|m: int|
                            0 <= m < k ==> (#[trigger] out@[m]) is GetInviteTokenResponse
                                && out@[m]->GetInviteTokenResponse_0.id == get.id
                                && out@[m]->GetInviteTokenResponse_0.invite_token@ == tokens@[m]@,
                    decreases tokens@.len() - k,
                {
                    out.push(
                        MachMessage::GetInviteTokenResponse(
                            GetInviteTokenResponse { id: get.id, invite_token: tokens[k].clone() },
                        ),
                    );
                    k = k + 1;
                }
                proof {
                    assert forall|m: int, i: int| 0 <= m < out@.len() && 0 <= i < before.len() implies !#[trigger] has_token(
                        before[i],
                        out@[m]->GetInviteTokenResponse_0.invite_token@,
                    ) by {
                        assert(out@[m]->GetInviteTokenResponse_0.invite_token@ == tokens@[m]@);
                    }
                }
                Ok(out)
            },
            MachMessage::JoinGameRequest(join) => {
                let outcomes = self.mark_joined(&join.invite_token, handle);
                let mut out: Vec<MachMessage> = Vec::new();
                let mut k: usize = 0;
                while k < outcomes.len()
                    invariant
                        k <= outcomes@.len(),
                        are_join_responses(out@, join.id, outcomes@.take(k as int)),
                    decreases outcomes@.len() - k,
                {
                    out.push(
                        MachMessage::JoinGameResponse(JoinGameResponse { id: join.id, success: outcomes[k] }),
                    );
                    k = k + 1;
                }
                assert(outcomes@.take(outcomes@.len() as int) =~= outcomes@);
                Ok(out)
            },
            MachMessage::GetGameStateRequest(get) => {
                let states = self.read_game_state(get.game_id);
                let mut out: Vec<MachMessage> = Vec::new();
                let mut states = states;
                let ghost all = states@;
                let ghost matching = sessions_on(self.games(), get.game_id.0);
                while states.len() > 0
                    invariant
                        all.len() == matching.len(),
                        forall|k: int|
                            0 <= k < all.len() ==> (#[trigger] all[k]).board.wf() && all[k].board@
                                == matching[k].game_state.board@ && all[k].turn == matching[k].game_state.turn,
                        out@.len() + states@.len() == all.len(),
                        states@ == all.subrange(out@.len() as int, all.len() as int),
                        are_state_responses(out@, get.id, matching.take(out@.len() as int)),
                    decreases states@.len(),
                {
                    let state = states.remove(0);
                    out.push(MachMessage::GetGameStateResponse(GetGameStateResponse { id: get.id, game_state: state }));
                }
                assert(matching.take(matching.len() as int) =~= matching);
                Ok(out)
            },
            MachMessage::GameMoveRequest(req) => {
                let count = self.apply_move(req.game_id, req.move_start, req.move_end);
                let mut out: Vec<MachMessage> = Vec::new();
                let mut k: usize = 0;
                while k < count
                    invariant
                        k <= count,
                        are_move_responses(out@, req.id, k as nat),
                    decreases count - k,
                {
                    out.push(MachMessage::GameMoveResponse(GameMoveResponse { id: req.id, success: true }));
                    k = k + 1;
                }
                Ok(out)
            },
            _ => Ok(Vec::new()),
        }
    }
}

} // verus!
