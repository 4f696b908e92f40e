//! The connection handler: what a connection in a given state does with a
//! request from its client or with a message that its peer published, and
//! the state it is in afterwards. Reading, writing and publishing are the
//! caller's part; what is decided is decided here.

use vstd::prelude::*;
use crate::packet::status_codes::{
    ERR_MAL_REQ, OK_CHAR_CHOOSING, OK_GM_JOIN, OK_GM_START, OK_TERM_CON,
};
use crate::request::{action_of, Malformed, Request};
use crate::response::{
    CharacterChoosing, GameCreation, GameData, GameJoining, GameStarting, PlayerCreation,
};
use crate::session::error::SessionError;
use crate::session::model::{
    action_code, add_game_result, add_player_result, choose_result, enemy_report, is_roster,
    join_result, member_index, start_result, turn_result, valid_pseudo, StoreView,
};
use crate::session::store::Store;
use crate::map::{rows_of, text_of};

verus! {

/// Where a connection stands.
#[derive(Clone, Copy, Debug, PartialEq, Eq, Structural)]
pub enum ConnectionState {
    /// The stream is open and nothing has been asked.
    Connected,
    /// The client has a player.
    PlayerCreated,
    /// The player hosts a game.
    Hosting,
    /// The player has joined a game.
    Joined,
    /// The player has chosen a character.
    CharacterChosen,
    /// The player has chosen a character and has heard of its peer.
    InLobby,
    /// The game has started.
    InGame,
    /// The connection is over.
    Terminated,
}

/// The kinds of request.
#[derive(Clone, Copy, Debug, PartialEq, Eq, Structural)]
pub enum RequestKind {
    Terminate,
    PlayerCreation,
    GameCreation,
    GameJoining,
    ChooseCharacter,
    GameStarting,
    GameData,
}

/// What is sent back to the client.
#[derive(Debug)]
pub enum Reply {
    /// Nothing is sent.
    Nothing,
    /// A status code alone.
    Status(u64),
    PlayerCreated(PlayerCreation),
    GameCreated(GameCreation),
    GameJoined(GameJoining),
    CharacterChosen(CharacterChoosing),
    GameStarted(GameStarting),
    GameData(GameData),
}

/// What a connection does with a request: the state it goes to, what it
/// answers, and whether the answer is published to the peer as well.
#[derive(Debug)]
pub struct Step {
    pub state: ConnectionState,
    pub reply: Reply,
    pub publish: bool,
}

/// The kind of a request.
pub open spec fn kind_of(request: Request) -> RequestKind {
    match request {
        Request::Terminate => RequestKind::Terminate,
        Request::PlayerCreation(_) => RequestKind::PlayerCreation,
        Request::GameCreation(_) => RequestKind::GameCreation,
        Request::GameJoining(_) => RequestKind::GameJoining,
        Request::ChooseCharacter(_) => RequestKind::ChooseCharacter,
        Request::GameStarting(_) => RequestKind::GameStarting,
        Request::GameData(_) => RequestKind::GameData,
    }
}

/// Whether the player of a connection in this state is in a game.
pub open spec fn in_a_game(state: ConnectionState) -> bool {
    state == ConnectionState::Hosting || state == ConnectionState::Joined || state
        == ConnectionState::CharacterChosen || state == ConnectionState::InLobby || state
        == ConnectionState::InGame
}

/// Whether a connection in this state takes a request of this kind. The
/// first request creates a player; then a game is created or joined; from
/// then on characters are chosen, the game is started and turns are played.
/// A connection can be terminated once it has a player.
pub open spec fn accepts(state: ConnectionState, kind: RequestKind) -> bool {
    match state {
        ConnectionState::Connected => kind == RequestKind::PlayerCreation,
        ConnectionState::PlayerCreated => kind == RequestKind::GameCreation || kind
            == RequestKind::GameJoining || kind == RequestKind::Terminate,
        ConnectionState::Terminated => false,
        _ => kind == RequestKind::ChooseCharacter || kind == RequestKind::GameStarting || kind
            == RequestKind::GameData || kind == RequestKind::Terminate,
    }
}

/// The state after a request of this kind has taken effect.
pub open spec fn state_after(state: ConnectionState, kind: RequestKind) -> ConnectionState {
    match kind {
        RequestKind::Terminate => ConnectionState::Terminated,
        RequestKind::PlayerCreation => ConnectionState::PlayerCreated,
        RequestKind::GameCreation => ConnectionState::Hosting,
        RequestKind::GameJoining => ConnectionState::Joined,
        RequestKind::ChooseCharacter => if state == ConnectionState::InLobby || state
            == ConnectionState::InGame {
            state
        } else {
            ConnectionState::CharacterChosen
        },
        RequestKind::GameStarting => ConnectionState::InGame,
        RequestKind::GameData => state,
    }
}

/// The state after a body that is no request: before the player is in a
/// game the connection is dropped, later it stays as it is.
pub open spec fn state_after_malformed(state: ConnectionState) -> ConnectionState {
    if in_a_game(state) {
        state
    } else {
        ConnectionState::Terminated
    }
}

/// The state after a message of the peer with the given status has come:
/// the start of the game begins the game; news of the peer puts a player
/// who has chosen a character in the lobby.
pub open spec fn state_after_broadcast(state: ConnectionState, status: u64) -> ConnectionState {
    if !in_a_game(state) {
        state
    } else if status == OK_GM_START {
        ConnectionState::InGame
    } else if (status == OK_GM_JOIN || status == OK_CHAR_CHOOSING) && state
        == ConnectionState::CharacterChosen {
        ConnectionState::InLobby
    } else {
        state
    }
}

/// What tells the client of an error: its status code, or nothing for an
/// error passed over in silence.
pub open spec fn reply_of_error(e: SessionError) -> Reply {
    match e.spec_status() {
        Some(code) => Reply::Status(code),
        None => Reply::Nothing,
    }
}

/// The step of a request that the store refused: the connection stays as
/// it is, the client hears of the error, the peer hears nothing.
pub open spec fn is_refusal(step: Step, state: ConnectionState, e: SessionError) -> bool {
    step.state == state && step.reply == reply_of_error(e) && !step.publish
}

/// Whether `step` and the store `new` are what a connection in `state`
/// makes of `request` on the store `old`.
pub open spec fn is_step(
    state: ConnectionState,
    old: StoreView,
    request: Result<Request, Malformed>,
    new: StoreView,
    step: Step,
) -> bool {
    match request {
        Err(_) => new == old && step.state == state_after_malformed(state) && step.reply
            == Reply::Status(ERR_MAL_REQ) && !step.publish,
        Ok(req) => if !accepts(state, kind_of(req)) {
            new == old && step.state == ConnectionState::Terminated && step.reply == Reply::Status(
                ERR_MAL_REQ,
            ) && !step.publish
        } else {
            match req {
                Request::Terminate => new == old && step.state == ConnectionState::Terminated
                    && step.reply == Reply::Status(OK_TERM_CON) && !step.publish,
                Request::PlayerCreation(b) => (valid_pseudo(b.pseudo@) && (forall|t: Seq<char>|
                    !old.players.contains_key(t)) ==> step.reply is PlayerCreated) && match step.reply {
                    Reply::PlayerCreated(r) => add_player_result(old, b.pseudo@, r.player_token@) == Ok::<
                        StoreView,
                        SessionError,
                    >(new) && r.status == crate::packet::status_codes::OK_PL_CREAT && step.state
                        == ConnectionState::PlayerCreated && !step.publish,
                    Reply::Status(code) => new == old && step.state == state && !step.publish && code
                        == if valid_pseudo(b.pseudo@) {
                        SessionError::Internal.spec_status().unwrap()
                    } else {
                        SessionError::InvalidName.spec_status().unwrap()
                    },
                    _ => false,
                },
                Request::GameCreation(b) => (old.players.contains_key(b.player_token@)
                    && !old.players[b.player_token@].hosting && (forall|t: Seq<char>|
                    !old.games.contains_key(t)) ==> step.reply is GameCreated) && match step.reply {
                    Reply::GameCreated(r) => new.games.contains_key(r.game_token@) && add_game_result(
                        old,
                        b.player_token@,
                        r.game_token@,
                        new.games[r.game_token@].turn.0,
                        new.games[r.game_token@].map,
                    ) == Ok::<StoreView, SessionError>(new) && r.status
                        == crate::packet::status_codes::OK_GM_CREAT && step.state
                        == ConnectionState::Hosting && !step.publish,
                    Reply::Status(code) => new == old && step.state == state && !step.publish && (
                    if !old.players.contains_key(b.player_token@) {
                        code == SessionError::InvalidPlayerToken.spec_status().unwrap()
                    } else if old.players[b.player_token@].hosting {
                        code == SessionError::AlreadyHosting.spec_status().unwrap()
                    } else {
                        code == SessionError::Internal.spec_status().unwrap()
                    }),
                    _ => false,
                },
                Request::GameJoining(b) => match join_result(old, b.player_token@, b.game_token@) {
                    Ok(next) => {
                        &&& new == next
                        &&& step.state == ConnectionState::Joined
                        &&& step.publish
                        &&& step.reply matches Reply::GameJoined(r)
                        &&& r.status == OK_GM_JOIN
                        &&& r.pseudo@ == next.players[b.player_token@].pseudo
                        &&& is_roster(next, b.game_token@, r.player_vec@)
                    },
                    Err(e) => new == old && is_refusal(step, state, e),
                },
                Request::ChooseCharacter(b) => match choose_result(
                    old,
                    b.player_token@,
                    b.game_token@,
                    b.character@,
                ) {
                    Ok(next) => {
                        &&& new == next
                        &&& step.state == state_after(state, RequestKind::ChooseCharacter)
                        &&& step.publish
                        &&& step.reply matches Reply::CharacterChosen(r)
                        &&& r.status == OK_CHAR_CHOOSING
                        &&& r.pseudo@ == next.players[b.player_token@].pseudo
                        &&& r.character@ == b.character@
                    },
                    Err(e) => new == old && is_refusal(step, state, e),
                },
                Request::GameStarting(b) => match start_result(old, b.player_token@, b.game_token@) {
                    Ok(next) => {
                        &&& new == next
                        &&& step.state == ConnectionState::InGame
                        &&& step.publish
                        &&& step.reply matches Reply::GameStarted(r)
                        &&& r.status == OK_GM_START
                        &&& r.player_turn@ == next.games[b.game_token@].turn.0.spec_label()
                        &&& r.map@ == text_of(next.games[b.game_token@].map)
                        &&& rows_of(r.map@) == next.games[b.game_token@].map
                    },
                    Err(e) => new == old && is_refusal(step, state, e),
                },
                Request::GameData(b) => match action_of(b.gm_code, b.target) {
                    None => new == old && step.state == state && step.reply == Reply::Status(ERR_MAL_REQ)
                        && !step.publish,
                    Some(action) => match turn_result(old, b.player_token@, b.game_token@, action) {
                        Ok(next) => {
                            let before = old.games[b.game_token@];
                            let after = next.games[b.game_token@];
                            let i = member_index(before, b.player_token@);
                            &&& new == next
                            &&& step.state == state
                            &&& step.publish
                            &&& step.reply matches Reply::GameData(r)
                            &&& r.status == crate::packet::status_codes::OK_GM_DATA
                            &&& r.data_type == action_code(action)
                            &&& r.player_num@ == before.turn.0.spec_label()
                            &&& r.player_turn@ == after.turn.0.spec_label()
                            &&& r.map@ == text_of(after.map)
                            &&& rows_of(r.map@) == after.map
                            &&& r.enemy.0@ == enemy_report(before, after, i, action).0
                            &&& r.enemy.1 == enemy_report(before, after, i, action).1
                        },
                        Err(e) => new == old && is_refusal(step, state, e),
                    },
                },
            }
        },
    }
}

impl Request {
    /// The kind of the request.
    pub fn kind(&self) -> (kind: RequestKind)
        ensures
            kind == kind_of(*self),
    {
        match self {
            Request::Terminate => RequestKind::Terminate,
            Request::PlayerCreation(_) => RequestKind::PlayerCreation,
            Request::GameCreation(_) => RequestKind::GameCreation,
            Request::GameJoining(_) => RequestKind::GameJoining,
            Request::ChooseCharacter(_) => RequestKind::ChooseCharacter,
            Request::GameStarting(_) => RequestKind::GameStarting,
            Request::GameData(_) => RequestKind::GameData,
        }
    }
}

impl ConnectionState {
    /// Whether the player of the connection is in a game.
    pub fn is_in_a_game(&self) -> (b: bool)
        ensures
            b == in_a_game(*self),
    {
        match self {
            ConnectionState::Hosting => true,
            ConnectionState::Joined => true,
            ConnectionState::CharacterChosen => true,
            ConnectionState::InLobby => true,
            ConnectionState::InGame => true,
            _ => false,
        }
    }

    /// Whether the connection takes a request of this kind.
    pub fn takes(&self, kind: RequestKind) -> (b: bool)
        ensures
            b == accepts(*self, kind),
    {
        match self {
            ConnectionState::Connected => kind == RequestKind::PlayerCreation,
            ConnectionState::PlayerCreated => kind == RequestKind::GameCreation || kind
                == RequestKind::GameJoining || kind == RequestKind::Terminate,
            ConnectionState::Terminated => false,
            _ => kind == RequestKind::ChooseCharacter || kind == RequestKind::GameStarting || kind
                == RequestKind::GameData || kind == RequestKind::Terminate,
        }
    }

    /// The state after a request of this kind has taken effect.
    pub fn after(&self, kind: RequestKind) -> (next: ConnectionState)
        ensures
            next == state_after(*self, kind),
    {
        match kind {
            RequestKind::Terminate => ConnectionState::Terminated,
            RequestKind::PlayerCreation => ConnectionState::PlayerCreated,
            RequestKind::GameCreation => ConnectionState::Hosting,
            RequestKind::GameJoining => ConnectionState::Joined,
            RequestKind::ChooseCharacter => match self {
                ConnectionState::InLobby => ConnectionState::InLobby,
                ConnectionState::InGame => ConnectionState::InGame,
                _ => ConnectionState::CharacterChosen,
            },
            RequestKind::GameStarting => ConnectionState::InGame,
            RequestKind::GameData => *self,
        }
    }

    /// The state after a message of the peer with the given status has come.
    /// The message itself goes on to the client as it is.
    pub fn on_broadcast(&self, status: u64) -> (next: ConnectionState)
        ensures
            next == state_after_broadcast(*self, status),
    {
        if !self.is_in_a_game() {
            *self
        } else if status == OK_GM_START {
            ConnectionState::InGame
        } else if (status == OK_GM_JOIN || status == OK_CHAR_CHOOSING) && *self
            == ConnectionState::CharacterChosen {
            ConnectionState::InLobby
        } else {
            *self
        }
    }
}

/// The step of a request that the store refused.
fn refusal(state: ConnectionState, e: SessionError) -> (step: Step)
    ensures
        is_refusal(step, state, e),
{
    let reply = match e.status() {
        Some(code) => Reply::Status(code),
        None => Reply::Nothing,
    };
    Step { state, reply, publish: false }
}

/// What a connection in `state` makes of a request: the store changes as
/// the request asks, if it is one that the state takes and the store
/// accepts, and the step says what to answer, whether to publish the answer
/// to the peer, and where the connection stands afterwards.
pub fn handle_request(state: ConnectionState, store: &mut Store, request: Result<Request, Malformed>) -> (step:
    Step)
    requires
        old(store).wf(),
    ensures
        final(store).wf(),
        is_step(state, old(store)@, request, final(store)@, step),
{
    let req = match request {
        Ok(req) => req,
        Err(_) => {
            let next = if state.is_in_a_game() { state } else { ConnectionState::Terminated };
            return Step { state: next, reply: Reply::Status(ERR_MAL_REQ), publish: false };
        },
    };
    let kind = req.kind();
    if !state.takes(kind) {
        return Step { state: ConnectionState::Terminated, reply: Reply::Status(ERR_MAL_REQ), publish: false };
    }
    match req {
        Request::Terminate => Step {
            state: ConnectionState::Terminated,
            reply: Reply::Status(OK_TERM_CON),
            publish: false,
        },
        Request::PlayerCreation(b) => match store.create_player(b.pseudo.as_str()) {
            Ok(r) => Step { state: state.after(kind), reply: Reply::PlayerCreated(r), publish: false },
            Err(e) => match e.status() {
                Some(code) => Step { state, reply: Reply::Status(code), publish: false },
                None => Step { state, reply: Reply::Status(ERR_MAL_REQ), publish: false },
            },
        },
        Request::GameCreation(b) => match store.create_game(b.player_token.as_str()) {
            Ok(r) => Step { state: state.after(kind), reply: Reply::GameCreated(r), publish: false },
            Err(e) => match e.status() {
                Some(code) => Step { state, reply: Reply::Status(code), publish: false },
                None => Step { state, reply: Reply::Status(ERR_MAL_REQ), publish: false },
            },
        },
        Request::GameJoining(b) => match store.join_game(b.player_token.as_str(), b.game_token.as_str()) {
            Ok(r) => Step { state: state.after(kind), reply: Reply::GameJoined(r), publish: true },
            Err(e) => refusal(state, e),
        },
        Request::ChooseCharacter(b) => match store.choose_character(
            b.player_token.as_str(),
            b.game_token.as_str(),
            b.character.as_str(),
        ) {
            Ok(r) => Step { state: state.after(kind), reply: Reply::CharacterChosen(r), publish: true },
            Err(e) => refusal(state, e),
        },
        Request::GameStarting(b) => match store.start_game(b.player_token.as_str(), b.game_token.as_str()) {
            Ok(r) => Step { state: state.after(kind), reply: Reply::GameStarted(r), publish: true },
            Err(e) => refusal(state, e),
        },
        Request::GameData(b) => match b.action() {
            None => Step { state, reply: Reply::Status(ERR_MAL_REQ), publish: false },
            Some(action) => match store.apply_turn(b.player_token.as_str(), b.game_token.as_str(), action) {
                Ok(r) => Step { state: state.after(kind), reply: Reply::GameData(r), publish: true },
                Err(e) => refusal(state, e),
            },
        },
    }
}

/// The connections of a game that hear what one of them publishes.
#[derive(Clone, Copy, Debug, PartialEq, Eq, Structural)]
pub struct GameChannel {
    pub player_count: u8,
}

impl GameChannel {
    /// The channel of a game that has its host and nobody else.
    pub fn new() -> (channel: Self)
        ensures
            channel.player_count == 1,
    {
        GameChannel { player_count: 1 }
    }

    /// How many connections a published message goes to: every player of
    /// the game but the one who publishes.
    pub open spec fn spec_recipients(self) -> nat {
        if self.player_count == 0 {
            0
        } else {
            (self.player_count - 1) as nat
        }
    }

    /// How many connections a published message goes to.
    pub fn recipients(&self) -> (n: u8)
        ensures
            n == self.spec_recipients(),
    {
        if self.player_count == 0 {
            0
        } else {
            self.player_count - 1
        }
    }

    /// One player more hears what is published. A game has two players at most.
    pub fn join(&mut self)
        ensures
            final(self).player_count == if old(self).player_count < 2 {
                (old(self).player_count + 1) as u8
            } else {
                old(self).player_count
            },
    {
        if self.player_count < 2 {
            self.player_count = self.player_count + 1;
        }
    }
}

} // verus!
