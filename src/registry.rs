//! The shared registry of game sessions and the counters that name sessions,
//! connections and invite tokens. Every operation here takes the registry by
//! `&mut`, so a caller that holds it behind one lock runs them one at a time.
use vstd::prelude::*;

use crate::game::{standard_layout, BoardIndex, Color, GamePiece, GameState};
use crate::id::{Id, ServerId};
use crate::token::{
    advance, ascii_chars, first_token, increment, is_exhausted, is_lowercase, issued_before, next_invite_token,
    tokens_suffice, LETTER_A, LETTER_Z,
};

verus! {

/// Names one accepted connection for the life of the process.
pub type ClientHandle = u64;

/// Length of an invite token.
pub const TOKEN_LEN: usize = 8;

/// One game between a creating connection and, once joined, a second one.
#[derive(Debug)]
pub struct Game {
    pub client_handle: ClientHandle,
    pub client_color: Color,
    pub other_client_handle: Option<ClientHandle>,
    /// The identifier the creator chose in its request.
    pub id: Id,
    /// The identifier the registry allocated; negative.
    pub server_id: Id,
    pub game_state: GameState,
    pub invite_tokens: Vec<String>,
}

/// The invite tokens of a game, as character sequences.
pub open spec fn tokens_of(g: Game) -> Seq<Seq<char>> {
    g.invite_tokens@.map_values(|t: String| t@)
}

/// A session just made by `creator` from its request `id` and `color`, named `sid`.
pub open spec fn is_new_session(g: Game, creator: ClientHandle, id: Id, color: Color, sid: i32) -> bool {
    &&& g.client_handle == creator
    &&& g.client_color == color
    &&& g.other_client_handle is None
    &&& g.id == id
    &&& g.server_id.0 == sid
    &&& g.game_state.board.wf()
    &&& g.game_state.board@ == standard_layout()
    &&& g.game_state.turn == Color::White
    &&& g.invite_tokens@.len() == 0
}

/// Why a registry operation could not be carried out.
#[derive(Debug, Clone, Copy, PartialEq, Eq, Structural)]
pub enum RegistryError {
    /// Every negative `i32` has been handed out as a server identifier.
    ServerIdsExhausted,
    /// The invite-token counter would have to run past `zzzzzzzz`.
    TokenSpaceExhausted,
}

/// The registry: all sessions, and the next connection handle, server
/// identifier and invite token to hand out.
#[derive(Debug)]
pub struct GlobalState {
    games: Vec<Game>,
    client_handle_tracker: ClientHandle,
    id_tracker: i32,
    invite_token_tracker: Vec<u8>,
}

impl GlobalState {
    /// The sessions, oldest first.
    pub closed spec fn games(&self) -> Seq<Game> {
        self.games@
    }

    /// The connection handle that will be handed out next.
    pub closed spec fn next_handle(&self) -> ClientHandle {
        self.client_handle_tracker
    }

    /// The server identifier that will be handed out next.
    pub closed spec fn next_server_value(&self) -> i32 {
        self.id_tracker
    }

    /// The invite token that will be handed out next, as bytes.
    pub closed spec fn token_cursor(&self) -> Seq<u8> {
        self.invite_token_tracker@
    }

    /// Counters in range, each board whole, server identifiers negative,
    /// above the next one to hand out and strictly decreasing along the list
    /// (so no two sessions share one), and every token a session holds handed
    /// out before the token counter's current value.
    pub open spec fn wf(&self) -> bool {
        &&& self.next_handle() >= 1
        &&& self.next_server_value() < 0
        &&& self.token_cursor().len() == TOKEN_LEN
        &&& is_lowercase(self.token_cursor())
        &&& forall|i: int| 0 <= i < self.games().len() ==> (#[trigger] self.games()[i]).game_state.board.wf()
        &&& forall|i: int| 0 <= i < self.games().len() ==>
            self.next_server_value() < (#[trigger] self.games()[i]).server_id.0 < 0
        &&& forall|i: int, j: int| 0 <= i < j < self.games().len() ==>
            (#[trigger] self.games()[i]).server_id.0 > (#[trigger] self.games()[j]).server_id.0
        &&& forall|i: int, k: int| 0 <= i < self.games().len() && 0 <= k < tokens_of(self.games()[i]).len() ==>
            issued_before(#[trigger] tokens_of(self.games()[i])[k], self.token_cursor())
    }

    /// An empty registry: handles start at 1, server identifiers at -1 and
    /// invite tokens at `aaaaaaaa`.
    pub fn new() -> (r: GlobalState)
        ensures
            r.wf(),
            r.games().len() == 0,
            r.next_handle() == 1,
            r.next_server_value() == -1,
            r.token_cursor() == first_token(),
    {
        let mut tracker: Vec<u8> = Vec::new();
        let mut i: usize = 0;
        while i < TOKEN_LEN
            invariant
                i <= TOKEN_LEN,
                tracker@ == Seq::new(i as nat, |j: int| LETTER_A),
            decreases TOKEN_LEN - i,
        {
            tracker.push(LETTER_A);
            i = i + 1;
        }
        let r = GlobalState {
            games: Vec::new(),
            client_handle_tracker: 1,
            id_tracker: -1,
            invite_token_tracker: tracker,
        };
        assert(r.token_cursor() =~= first_token());
        r
    }

    /// Whether a connection handle is left to hand out.
    pub fn has_client_handles(&self) -> (r: bool)
        ensures
            r == (self.next_handle() < u64::MAX),
    {
        self.client_handle_tracker < u64::MAX
    }

    /// Whether a server identifier is left to hand out.
    pub fn has_server_ids(&self) -> (r: bool)
        ensures
            r == (self.next_server_value() > i32::MIN),
    {
        self.id_tracker > i32::MIN
    }

    /// Whether the token counter can hand out `n` more tokens.
    pub fn has_invite_tokens_for(&self, n: usize) -> (r: bool)
        requires
            self.wf(),
        ensures
            r == tokens_suffice(self.token_cursor(), n as nat),
    {
        let ghost c0 = self.token_cursor();
        let mut scratch: Vec<u8> = Vec::new();
        let mut i: usize = 0;
        while i < self.invite_token_tracker.len()
            invariant
                i <= c0.len(),
                c0 == self.invite_token_tracker@,
                scratch@ == c0.subrange(0, i as int),
            decreases c0.len() - i,
        {
            scratch.push(self.invite_token_tracker[i]);
            i = i + 1;
        }
        assert(scratch@ =~= advance(c0, 0));
        let mut j: usize = 0;
        while j < n
            invariant
                j <= n,
                scratch@ == advance(c0, j as nat),
                scratch@.len() == TOKEN_LEN,
                is_lowercase(scratch@),
                forall|k: nat| k < j ==> !is_exhausted(#[trigger] advance(c0, k)),
                c0 == self.token_cursor(),
            decreases n - j,
        {
            if all_last_letter(&scratch) {
                assert(is_exhausted(advance(c0, j as nat)));
                assert(!tokens_suffice(c0, n as nat));
                return false;
            }
            proof {
                crate::token::lemma_increment(scratch@);
            }
            let _ = next_invite_token(&mut scratch);
            assert(scratch@ == advance(c0, (j + 1) as nat));
            j = j + 1;
        }
        true
    }

    /// Hands out the next connection handle.
    pub fn next_client_handle(&mut self) -> (r: ClientHandle)
        requires
            old(self).wf(),
            old(self).next_handle() < u64::MAX,
        ensures
            final(self).wf(),
            r == old(self).next_handle(),
            final(self).next_handle() == old(self).next_handle() + 1,
            final(self).games() == old(self).games(),
            final(self).next_server_value() == old(self).next_server_value(),
            final(self).token_cursor() == old(self).token_cursor(),
    {
        let current = self.client_handle_tracker;
        self.client_handle_tracker = self.client_handle_tracker + 1;
        current
    }

    /// Hands out the next server identifier.
    pub fn next_server_id(&mut self) -> (r: ServerId)
        requires
            old(self).wf(),
            old(self).next_server_value() > i32::MIN,
        ensures
            final(self).wf(),
            r.value_spec() == old(self).next_server_value(),
            final(self).next_server_value() == old(self).next_server_value() - 1,
            server_id_step(*old(self), *final(self), r.value_spec()),
            final(self).games() == old(self).games(),
            final(self).next_handle() == old(self).next_handle(),
            final(self).token_cursor() == old(self).token_cursor(),
    {
        let current = self.id_tracker;
        self.id_tracker = self.id_tracker - 1;
        ServerId::new(Id::new(current))
    }

    /// Hands out the next invite token.
    pub fn next_invite_token(&mut self) -> (r: String)
        requires
            old(self).wf(),
            !is_exhausted(old(self).token_cursor()),
        ensures
            final(self).wf(),
            r@ == ascii_chars(old(self).token_cursor()),
            final(self).token_cursor() == increment(old(self).token_cursor()),
            final(self).games() == old(self).games(),
            final(self).next_handle() == old(self).next_handle(),
            final(self).next_server_value() == old(self).next_server_value(),
    {
        let ghost c0 = self.invite_token_tracker@;
        proof {
            crate::token::lemma_increment(c0);
        }
        let r = next_invite_token(&mut self.invite_token_tracker);
        proof {
            assert forall|i: int, k: int|
                0 <= i < self.games().len() && 0 <= k < tokens_of(self.games()[i]).len() implies issued_before(
                #[trigger] tokens_of(self.games()[i])[k],
                self.token_cursor(),
            ) by {
                crate::token::lemma_issued_before_grows(tokens_of(self.games()[i])[k], c0, self.token_cursor());
            }
        }
        r
    }

    /// Makes a session for `creator` with the standard layout and White to move,
    /// names it with a fresh server identifier and appends it.
    pub fn create_session(&mut self, creator: ClientHandle, id: Id, color: Color) -> (r: ServerId)
        requires
            old(self).wf(),
            old(self).next_server_value() > i32::MIN,
        ensures
            final(self).wf(),
            r.value_spec() == old(self).next_server_value(),
            server_id_step(*old(self), *final(self), r.value_spec()),
            create_session_post(*old(self), *final(self), creator, id, color),
    {
        let mut game_state = GameState::new();
        game_state.board.set_standard();
        let server_id = self.next_server_id();
        let game = Game {
            client_handle: creator,
            client_color: color,
            other_client_handle: None,
            id,
            server_id: server_id.as_id(),
            game_state,
            invite_tokens: Vec::new(),
        };
        self.games.push(game);
        server_id
    }
}

/// What `create_session` does: one new session at the end, named by the next
/// server identifier, which moves down by one; nothing else changes.
pub open spec fn create_session_post(
    before: GlobalState,
    after: GlobalState,
    creator: ClientHandle,
    id: Id,
    color: Color,
) -> bool {
    &&& after.games().len() == before.games().len() + 1
    &&& forall|i: int| 0 <= i < before.games().len() ==> after.games()[i] == before.games()[i]
    &&& is_new_session(after.games().last(), creator, id, color, before.next_server_value())
    &&& after.next_server_value() == before.next_server_value() - 1
    &&& after.next_handle() == before.next_handle()
    &&& after.token_cursor() == before.token_cursor()
}

/// Whether a request from `requester` naming `game_id` selects the session:
/// by the creator's handle and its chosen identifier, or by the server identifier.
pub open spec fn selects(g: Game, requester: ClientHandle, game_id: i32) -> bool {
    (g.client_handle == requester && g.id.0 == game_id) || g.server_id.0 == game_id
}

/// How many of the sessions a request selects.
pub open spec fn selected_count(games: Seq<Game>, requester: ClientHandle, game_id: i32) -> nat
    decreases games.len(),
{
    if games.len() == 0 {
        0
    } else {
        selected_count(games.drop_last(), requester, game_id) + if selects(games.last(), requester, game_id) {
            1nat
        } else {
            0nat
        }
    }
}

/// `b` is `a` with the invite token `t` added.
pub open spec fn with_token(a: Game, b: Game, t: Seq<char>) -> bool {
    &&& b.client_handle == a.client_handle
    &&& b.client_color == a.client_color
    &&& b.other_client_handle == a.other_client_handle
    &&& b.id == a.id
    &&& b.server_id == a.server_id
    &&& b.game_state == a.game_state
    &&& tokens_of(b) == tokens_of(a).push(t)
}

/// What issuing tokens from the counter at `cursor` does to the sessions:
/// the selected ones gain, in order, the counter's successive values.
pub open spec fn issue_post(
    before: Seq<Game>,
    after: Seq<Game>,
    requester: ClientHandle,
    game_id: i32,
    cursor: Seq<u8>,
) -> bool {
    &&& after.len() == before.len()
    &&& forall|i: int|
        0 <= i < before.len() ==> if selects(before[i], requester, game_id) {
            with_token(
                before[i],
                #[trigger] after[i],
                ascii_chars(advance(cursor, selected_count(before.take(i), requester, game_id))),
            )
        } else {
            after[i] == before[i]
        }
}

/// Whether the session accepts the invite token `t`.
pub open spec fn has_token(g: Game, t: Seq<char>) -> bool {
    tokens_of(g).contains(t)
}

/// For each session that accepts `t`, in order, whether its second slot was
/// already taken: the flag that a join with `t` reports for it.
pub open spec fn join_outcomes(games: Seq<Game>, t: Seq<char>) -> Seq<bool>
    decreases games.len(),
{
    if games.len() == 0 {
        Seq::empty()
    } else {
        let p = join_outcomes(games.drop_last(), t);
        if has_token(games.last(), t) {
            p.push(games.last().other_client_handle is Some)
        } else {
            p
        }
    }
}

/// `b` is `a` after `joiner` joined it: an empty second slot now holds
/// `joiner`, a taken one stays as it was.
pub open spec fn joined(a: Game, b: Game, joiner: ClientHandle) -> bool {
    &&& b.client_handle == a.client_handle
    &&& b.client_color == a.client_color
    &&& b.other_client_handle == if a.other_client_handle is Some {
        a.other_client_handle
    } else {
        Some(joiner)
    }
    &&& b.id == a.id
    &&& b.server_id == a.server_id
    &&& b.game_state == a.game_state
    &&& b.invite_tokens == a.invite_tokens
}

/// What a join with token `t` does to the sessions: each that accepts `t` is joined.
pub open spec fn join_post(before: Seq<Game>, after: Seq<Game>, t: Seq<char>, joiner: ClientHandle) -> bool {
    &&& after.len() == before.len()
    &&& forall|i: int|
        0 <= i < before.len() ==> if has_token(before[i], t) {
            joined(before[i], #[trigger] after[i], joiner)
        } else {
            after[i] == before[i]
        }
}

/// The sessions named by the server identifier `sid`, in order.
pub open spec fn sessions_on(games: Seq<Game>, sid: i32) -> Seq<Game>
    decreases games.len(),
{
    if games.len() == 0 {
        Seq::empty()
    } else {
        let p = sessions_on(games.drop_last(), sid);
        if games.last().server_id.0 == sid {
            p.push(games.last())
        } else {
            p
        }
    }
}

/// The board after the piece on `from` is moved to `to`.
pub open spec fn moved_board(
    board: Seq<Option<GamePiece>>,
    from: BoardIndex,
    to: BoardIndex,
) -> Seq<Option<GamePiece>> {
    board.update(from.linear(), None).update(to.linear(), board[from.linear()])
}

/// `b` is `a` after the move from `from` to `to`.
pub open spec fn moved(a: Game, b: Game, from: BoardIndex, to: BoardIndex) -> bool {
    &&& b.client_handle == a.client_handle
    &&& b.client_color == a.client_color
    &&& b.other_client_handle == a.other_client_handle
    &&& b.id == a.id
    &&& b.server_id == a.server_id
    &&& b.game_state.turn == a.game_state.turn
    &&& b.game_state.board.wf()
    &&& b.game_state.board@ == moved_board(a.game_state.board@, from, to)
    &&& b.invite_tokens == a.invite_tokens
}

/// What a move does to the sessions: each named by `sid` has it applied.
pub open spec fn move_post(
    before: Seq<Game>,
    after: Seq<Game>,
    sid: i32,
    from: BoardIndex,
    to: BoardIndex,
) -> bool {
    &&& after.len() == before.len()
    &&& forall|i: int|
        0 <= i < before.len() ==> if before[i].server_id.0 == sid {
            moved(before[i], #[trigger] after[i], from, to)
        } else {
            after[i] == before[i]
        }
}

proof fn lemma_selected_count_bound(games: Seq<Game>, requester: ClientHandle, game_id: i32)
    ensures
        selected_count(games, requester, game_id) <= games.len(),
    decreases games.len(),
{
    if games.len() > 0 {
        lemma_selected_count_bound(games.drop_last(), requester, game_id);
    }
}

proof fn lemma_selected_count_prefix(games: Seq<Game>, requester: ClientHandle, game_id: i32, i: int)
    requires
        0 <= i <= games.len(),
    ensures
        selected_count(games.take(i), requester, game_id) <= selected_count(games, requester, game_id),
    decreases games.len(),
{
    if i < games.len() {
        let p = games.drop_last();
        assert(p.take(i) =~= games.take(i));
        lemma_selected_count_prefix(p, requester, game_id, i);
    } else {
        assert(games.take(i) =~= games);
    }
}

/// Whether every byte is `z`.
fn all_last_letter(v: &Vec<u8>) -> (r: bool)
    ensures
        r == is_exhausted(v@),
{
    let mut i: usize = 0;
    while i < v.len()
        invariant
            i <= v@.len(),
            forall|k: int| 0 <= k < i ==> #[trigger] v@[k] == LETTER_Z,
        decreases v@.len() - i,
    {
        if v[i] != LETTER_Z {
            return false;
        }
        i = i + 1;
    }
    true
}

proof fn lemma_join_outcomes_bound(games: Seq<Game>, t: Seq<char>)
    ensures
        join_outcomes(games, t).len() <= games.len(),
    decreases games.len(),
{
    if games.len() > 0 {
        lemma_join_outcomes_bound(games.drop_last(), t);
    }
}

proof fn lemma_sessions_on_bound(games: Seq<Game>, sid: i32)
    ensures
        sessions_on(games, sid).len() <= games.len(),
    decreases games.len(),
{
    if games.len() > 0 {
        lemma_sessions_on_bound(games.drop_last(), sid);
    }
}

/// Whether `tokens` holds a string equal to `token`.
fn holds_token(tokens: &Vec<String>, token: &String) -> (r: bool)
    ensures
        r == tokens@.map_values(|t: String| t@).contains(token@),
{
    let mut i: usize = 0;
    while i < tokens.len()
        invariant
            i <= tokens@.len(),
            forall|k: int| 0 <= k < i ==> (#[trigger] tokens@[k])@ != token@,
        decreases tokens@.len() - i,
    {
        if tokens[i] == *token {
            assert(tokens@.map_values(|t: String| t@)[i as int] == token@);
            return true;
        }
        i = i + 1;
    }
    let ghost views = tokens@.map_values(|t: String| t@);
    assert forall|k: int| 0 <= k < views.len() implies #[trigger] views[k] != token@ by {
        assert(tokens@[k]@ != token@);
    }
    false
}

impl GlobalState {
    /// How many sessions the request of `requester` naming `game_id` selects.
    pub fn count_selected(&self, requester: ClientHandle, game_id: Id) -> (r: usize)
        ensures
            r == selected_count(self.games(), requester, game_id.0),
    {
        let ghost games = self.games@;
        let mut count: usize = 0;
        let mut i: usize = 0;
        while i < self.games.len()
            invariant
                games == self.games@,
                i <= games.len(),
                count == selected_count(games.take(i as int), requester, game_id.0),
            decreases games.len() - i,
        {
            proof {
                assert(games.take(i + 1).drop_last() =~= games.take(i as int));
                assert(games.take(i + 1).last() == games[i as int]);
                lemma_selected_count_bound(games.take(i as int), requester, game_id.0);
            }
            let game = &self.games[i];
            if (game.client_handle == requester && game.id == game_id) || game.server_id == game_id {
                count = count + 1;
            }
            i = i + 1;
        }
        assert(games.take(games.len() as int) =~= games);
        count
    }

    /// Gives every session that the request of `requester` naming `game_id`
    /// selects a fresh invite token of its own, in list order, and returns
    /// them. Fails, changing nothing, when the counter would run out first.
    pub fn issue_invite_token(&mut self, requester: ClientHandle, game_id: Id) -> (r: Result<Vec<String>, RegistryError>)
        requires
            old(self).wf(),
        ensures
            final(self).wf(),
            ({
                let c0 = old(self).token_cursor();
                let n = selected_count(old(self).games(), requester, game_id.0);
                if tokens_suffice(c0, n) {
                    &&& r is Ok
                    &&& r->Ok_0@.len() == n
                    &&& forall|k: int| 0 <= k < n ==> (#[trigger] r->Ok_0@[k])@ == ascii_chars(advance(c0, k as nat))
                    &&& forall|k: int, i: int| 0 <= k < n && 0 <= i < old(self).games().len() ==>
                        !#[trigger] has_token(old(self).games()[i], r->Ok_0@[k]@)
                    &&& issue_post(old(self).games(), final(self).games(), requester, game_id.0, c0)
                    &&& final(self).token_cursor() == advance(c0, n)
                    &&& final(self).next_handle() == old(self).next_handle()
                    &&& final(self).next_server_value() == old(self).next_server_value()
                } else {
                    r == Err::<Vec<String>, RegistryError>(RegistryError::TokenSpaceExhausted) && *final(self)
                        == *old(self)
                }
            }),
    {
        let count = self.count_selected(requester, game_id);
        if !self.has_invite_tokens_for(count) {
            return Err(RegistryError::TokenSpaceExhausted);
        }
        let ghost before = self.games@;
        let ghost c0 = self.token_cursor();
        let mut tokens: Vec<String> = Vec::new();
        let mut i: usize = 0;
        while i < self.games.len()
            invariant
                self.wf(),
                before.len() == self.games@.len(),
                i <= before.len(),
                count == selected_count(before, requester, game_id.0),
                tokens@.len() == selected_count(before.take(i as int), requester, game_id.0),
                forall|k: int| 0 <= k < tokens@.len() ==> (#[trigger] tokens@[k])@ == ascii_chars(advance(c0, k as nat)),
                self.token_cursor() == advance(c0, tokens@.len()),
                tokens_suffice(c0, count as nat),
                forall|k: int|
                    0 <= k < i ==> if selects(before[k], requester, game_id.0) {
                        with_token(
                            before[k],
                            #[trigger] self.games@[k],
                            ascii_chars(advance(c0, selected_count(before.take(k), requester, game_id.0))),
                        )
                    } else {
                        self.games@[k] == before[k]
                    },
                forall|k: int| i <= k < before.len() ==> #[trigger] self.games@[k] == before[k],
                self.next_handle() == old(self).next_handle(),
                self.next_server_value() == old(self).next_server_value(),
                before == old(self).games(),
                c0 == old(self).token_cursor(),
            decreases before.len() - i,
        {
            proof {
                assert(before.take(i + 1).drop_last() =~= before.take(i as int));
                assert(before.take(i + 1).last() == before[i as int]);
                lemma_selected_count_prefix(before, requester, game_id.0, i + 1);
            }
            let game = &self.games[i];
            if (game.client_handle == requester && game.id == game_id) || game.server_id == game_id {
                let ghost cur = self.token_cursor();
                let ghost g0 = self.games@[i as int];
                proof {
                    assert(!is_exhausted(advance(c0, tokens@.len())));
                    crate::token::lemma_increment(cur);
                }
                let token = self.next_invite_token();
                self.games[i].invite_tokens.push(token.clone());
                proof {
                    assert(tokens_of(self.games@[i as int]) =~= tokens_of(g0).push(token@));
                    assert(issued_before(token@, self.token_cursor())) by {
                        assert(ascii_chars(cur) == token@);
                    }
                    assert forall|a: int, k: int|
                        0 <= a < self.games().len() && 0 <= k < tokens_of(self.games()[a]).len() implies issued_before(
                        #[trigger] tokens_of(self.games()[a])[k],
                        self.token_cursor(),
                    ) by {
                        if a == i {
                            if k < tokens_of(g0).len() {
                                assert(tokens_of(self.games()[a])[k] == tokens_of(g0)[k]);
                            }
                        }
                    }
                }
                tokens.push(token);
            }
            i = i + 1;
        }
        proof {
            assert(before.take(before.len() as int) =~= before);
            assert forall|k: int, a: int| 0 <= k < count && 0 <= a < before.len() implies !#[trigger] has_token(before[a], tokens@[k]@) by {
                crate::token::lemma_advance(c0, k as nat, count as nat);
                if has_token(before[a], tokens@[k]@) {
                    let idx = choose|idx: int| 0 <= idx < tokens_of(before[a]).len() && tokens_of(before[a])[idx] == tokens@[k]@;
                    assert(issued_before(tokens_of(old(self).games()[a])[idx], c0));
                    crate::token::lemma_issued_before_differs(tokens_of(before[a])[idx], c0, advance(c0, k as nat));
                }
            }
        }
        Ok(tokens)
    }

    /// Joins `joiner` to every session that accepts `token`. For each such
    /// session, in order, reports whether its second slot was already taken
    /// (then it is left as it was); an empty slot takes `joiner`. So a first
    /// join reports `false` and later ones `true`: the flag is kept with this
    /// polarity on purpose, and a token stays valid after it has been used.
    #[verifier::rlimit(60)]
    pub fn mark_joined(&mut self, token: &String, joiner: ClientHandle) -> (r: Vec<bool>)
        requires
            old(self).wf(),
        ensures
            final(self).wf(),
            r@ == join_outcomes(old(self).games(), token@),
            join_post(old(self).games(), final(self).games(), token@, joiner),
            final(self).token_cursor() == old(self).token_cursor(),
            final(self).next_handle() == old(self).next_handle(),
            final(self).next_server_value() == old(self).next_server_value(),
    {
        let ghost before = self.games@;
        let mut outcomes: Vec<bool> = Vec::new();
        let mut i: usize = 0;
        while i < self.games.len()
            invariant
                self.wf(),
                before.len() == self.games@.len(),
                i <= before.len(),
                outcomes@ == join_outcomes(before.take(i as int), token@),
                forall|k: int|
                    0 <= k < i ==> if has_token(before[k], token@) {
                        joined(before[k], #[trigger] self.games@[k], joiner)
                    } else {
                        self.games@[k] == before[k]
                    },
                forall|k: int| i <= k < before.len() ==> #[trigger] self.games@[k] == before[k],
                self.token_cursor() == old(self).token_cursor(),
                self.next_handle() == old(self).next_handle(),
                self.next_server_value() == old(self).next_server_value(),
                before == old(self).games(),
                old(self).wf(),
            decreases before.len() - i,
        {
            proof {
                assert(before.take(i + 1).drop_last() =~= before.take(i as int));
                assert(before.take(i + 1).last() == before[i as int]);
            }
            if holds_token(&self.games[i].invite_tokens, token) {
                let success = self.games[i].other_client_handle.is_some();
                if !success {
                    self.games[i].other_client_handle = Some(joiner);
                }
                outcomes.push(success);
            }
            proof {
                assert(tokens_of(self.games@[i as int]) == tokens_of(before[i as int]));
                assert forall|a: int, k: int|
                    0 <= a < self.games().len() && 0 <= k < tokens_of(self.games()[a]).len() implies issued_before(
                    #[trigger] tokens_of(self.games()[a])[k],
                    self.token_cursor(),
                ) by {
                    if a <= i {
                        assert(tokens_of(self.games()[a]) == tokens_of(before[a]));
                        assert(issued_before(tokens_of(old(self).games()[a])[k], old(self).token_cursor()));
                    }
                }
            }
            i = i + 1;
        }
        assert(before.take(before.len() as int) =~= before);
        outcomes
    }

    /// Copies of the game states of the sessions named by `server_id`, in order.
    pub fn read_game_state(&self, server_id: Id) -> (r: Vec<GameState>)
        requires
            self.wf(),
        ensures
            r@.len() == sessions_on(self.games(), server_id.0).len(),
            forall|k: int|
                0 <= k < r@.len() ==> (#[trigger] r@[k]).board.wf() && r@[k].board@
                    == sessions_on(self.games(), server_id.0)[k].game_state.board@ && r@[k].turn
                    == sessions_on(self.games(), server_id.0)[k].game_state.turn,
    {
        let ghost games = self.games@;
        let mut states: Vec<GameState> = Vec::new();
        let mut i: usize = 0;
        while i < self.games.len()
            invariant
                games == self.games@,
                self.wf(),
                i <= games.len(),
                states@.len() == sessions_on(games.take(i as int), server_id.0).len(),
                forall|k: int|
                    0 <= k < states@.len() ==> (#[trigger] states@[k]).board.wf() && states@[k].board@
                        == sessions_on(games.take(i as int), server_id.0)[k].game_state.board@
                        && states@[k].turn == sessions_on(games.take(i as int), server_id.0)[k].game_state.turn,
            decreases games.len() - i,
        {
            proof {
                assert(games.take(i + 1).drop_last() =~= games.take(i as int));
                assert(games.take(i + 1).last() == games[i as int]);
            }
            if self.games[i].server_id == server_id {
                let state = self.games[i].game_state.snapshot();
                states.push(state);
            }
            i = i + 1;
        }
        assert(games.take(games.len() as int) =~= games);
        states
    }

    /// Moves whatever stands on `from` to `to` in every session named by
    /// `server_id`, with no check of the game's rules or of whose turn it is.
    /// Returns how many sessions were moved in.
    #[verifier::rlimit(60)]
    pub fn apply_move(&mut self, server_id: Id, from: BoardIndex, to: BoardIndex) -> (r: usize)
        requires
            old(self).wf(),
        ensures
            final(self).wf(),
            r == sessions_on(old(self).games(), server_id.0).len(),
            move_post(old(self).games(), final(self).games(), server_id.0, from, to),
            final(self).token_cursor() == old(self).token_cursor(),
            final(self).next_handle() == old(self).next_handle(),
            final(self).next_server_value() == old(self).next_server_value(),
    {
        let ghost before = self.games@;
        let mut count: usize = 0;
        let mut i: usize = 0;
        while i < self.games.len()
            invariant
                self.wf(),
                before.len() == self.games@.len(),
                i <= before.len(),
                count == sessions_on(before.take(i as int), server_id.0).len(),
                forall|k: int|
                    0 <= k < i ==> if before[k].server_id.0 == server_id.0 {
                        moved(before[k], #[trigger] self.games@[k], from, to)
                    } else {
                        self.games@[k] == before[k]
                    },
                forall|k: int| i <= k < before.len() ==> #[trigger] self.games@[k] == before[k],
                self.token_cursor() == old(self).token_cursor(),
                self.next_handle() == old(self).next_handle(),
                self.next_server_value() == old(self).next_server_value(),
                before == old(self).games(),
                old(self).wf(),
            decreases before.len() - i,
        {
            proof {
                assert(before.take(i + 1).drop_last() =~= before.take(i as int));
                assert(before.take(i + 1).last() == before[i as int]);
                lemma_sessions_on_bound(before.take(i as int), server_id.0);
            }
            if self.games[i].server_id == server_id {
                self.games[i].game_state.board.move_piece(from, to);
                count = count + 1;
            }
            proof {
                assert(tokens_of(self.games@[i as int]) == tokens_of(before[i as int]));
                assert forall|a: int, k: int|
                    0 <= a < self.games().len() && 0 <= k < tokens_of(self.games()[a]).len() implies issued_before(
                    #[trigger] tokens_of(self.games()[a])[k],
                    self.token_cursor(),
                ) by {
                    if a <= i {
                        assert(tokens_of(self.games()[a]) == tokens_of(before[a]));
                        assert(issued_before(tokens_of(old(self).games()[a])[k], old(self).token_cursor()));
                    }
                }
            }
            i = i + 1;
        }
        assert(before.take(before.len() as int) =~= before);
        count
    }
}

proof fn lemma_sessions_on_absent(games: Seq<Game>, sid: i32)
    requires
        forall|i: int| 0 <= i < games.len() ==> (#[trigger] games[i]).server_id.0 != sid,
    ensures
        sessions_on(games, sid) == Seq::<Game>::empty(),
    decreases games.len(),
{
    if games.len() > 0 {
        let p = games.drop_last();
        assert forall|i: int| 0 <= i < p.len() implies (#[trigger] p[i]).server_id.0 != sid by {
            assert(p[i] == games[i]);
        }
        lemma_sessions_on_absent(p, sid);
        assert(games.last() == games[games.len() - 1]);
    }
}

/// Creating a session and then reading the state under the returned server
/// identifier gives exactly one state: the standard layout with White to move.
pub proof fn lemma_create_then_read(
    before: GlobalState,
    after: GlobalState,
    creator: ClientHandle,
    id: Id,
    color: Color,
)
    requires
        before.wf(),
        create_session_post(before, after, creator, id, color),
    ensures
        sessions_on(after.games(), before.next_server_value()).len() == 1,
        sessions_on(after.games(), before.next_server_value())[0].game_state.board@ == standard_layout(),
        sessions_on(after.games(), before.next_server_value())[0].game_state.turn == Color::White,
{
    let sid = before.next_server_value();
    let g = before.games();
    assert forall|i: int| 0 <= i < g.len() implies (#[trigger] g[i]).server_id.0 != sid by {}
    lemma_sessions_on_absent(g, sid);
    assert(after.games().drop_last() =~= g);
}

/// One allocation of a server identifier, as `next_server_id` and
/// `create_session` each make: `result` is the registry's next identifier,
/// which then moves down by one.
pub open spec fn server_id_step(before: GlobalState, after: GlobalState, result: i32) -> bool {
    result == before.next_server_value() && after.next_server_value() == before.next_server_value() - 1
}

/// Server identifiers allocated one after another, in the order the
/// registry's lock runs the requests, start at the registry's next one and go
/// down by exactly one each time: strictly decreasing, so no two are equal,
/// and with no gap.
pub proof fn lemma_allocated_ids_decrease(states: Seq<GlobalState>, results: Seq<i32>)
    requires
        states.len() == results.len() + 1,
        forall|k: int| 0 <= k < results.len() ==> server_id_step(#[trigger] states[k], states[k + 1], results[k]),
    ensures
        forall|k: int| 0 <= k < results.len() ==> #[trigger] results[k] == states[0].next_server_value() - k,
        forall|i: int, j: int| 0 <= i < j < results.len() ==> #[trigger] results[i] > #[trigger] results[j],
{
    assert forall|k: int| 0 <= k < results.len() implies #[trigger] results[k] == states[0].next_server_value() - k by {
        lemma_next_value_after(states, results, k);
    }
}

proof fn lemma_next_value_after(states: Seq<GlobalState>, results: Seq<i32>, k: int)
    requires
        states.len() == results.len() + 1,
        forall|m: int| 0 <= m < results.len() ==> server_id_step(#[trigger] states[m], states[m + 1], results[m]),
        0 <= k <= results.len(),
    ensures
        states[k].next_server_value() == states[0].next_server_value() - k,
    decreases k,
{
    if k > 0 {
        lemma_next_value_after(states, results, k - 1);
        assert(server_id_step(states[k - 1], states[k], results[k - 1]));
    }
}

} // verus!
