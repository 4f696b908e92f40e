//! The session store and its operations. Each operation either takes
//! effect as a whole or leaves the store as it was.

use vstd::prelude::*;
use vstd::string::StringSliceAdditionalSpecFns;
use crate::action_check::{aim, move_marker, set_cell, PlayerInfos};
use crate::chance::{new_token, shuffle};
use crate::character::{Character, CharacterClass};
use crate::map::{
    check_fresh_map, clone_rows, grid_view, map_vec_to_string, random_grid, rows_of, text_of,
    GameDataType, Slot, EMPTY, SLOT_ONE, SLOT_TWO,
};
use crate::packet::game_data_code::{GM_DATA_ATK, GM_DATA_MOV, GM_DATA_SKIP};
use crate::packet::status_codes::{
    OK_CHAR_CHOOSING, OK_GM_CREAT, OK_GM_DATA, OK_GM_JOIN, OK_GM_START, OK_PL_CREAT,
};
use crate::response::{
    CharacterChoosing, GameCreation, GameData, GameJoining, GamePlayerInfos, GameStarting,
    PlayerCreation,
};
use crate::session::error::SessionError;
use crate::session::index::{
    distinct_games, distinct_players, game_at, games_map, lemma_game_added, lemma_game_lookup,
    lemma_game_replaced, lemma_player_added, lemma_player_lookup, lemma_player_replaced, player_at,
    players_map, Game, Member, Player,
};
use crate::session::model::{
    action_code, add_game_result, add_player_result, choose_result, enemy_report, entry_view,
    is_record_of, is_roster, join_result, lemma_add_game_keeps_wf, lemma_choose_keeps_wf,
    lemma_game_map_reads_back, lemma_join_keeps_wf, lemma_start_keeps_wf, lemma_turn_keeps_wf,
    member_index, roster_entry, start_result, turn_result, valid_pseudo, MemberView, PlayerView,
    StoreView, MAP_HEIGHT, MAP_WIDTH, MAX_PSEUDO, TOKEN_LEN,
};
use crate::text::{all_alphanumeric, chars_of, is_alphanumeric, push_char, same_text};

verus! {

/// How often a fresh token is drawn before the store gives up.
pub const TOKEN_TRIES: usize = 16;

/// The session store.
pub struct Store {
    players: Vec<Player>,
    games: Vec<Game>,
}

impl View for Store {
    type V = StoreView;

    closed spec fn view(&self) -> StoreView {
        StoreView { players: players_map(self.players@), games: games_map(self.games@) }
    }
}

/// Whether a player may take the name.
pub fn check_pseudo(pseudo: &str) -> (ok: bool)
    ensures
        ok == valid_pseudo(pseudo@),
{
    let short = pseudo.as_bytes().len() <= MAX_PSEUDO;
    assert(short == (pseudo.spec_bytes().len() <= MAX_PSEUDO));
    let plain = all_alphanumeric(pseudo);
    assert(plain == forall|i: int| 0 <= i < pseudo@.len() ==> is_alphanumeric(#[trigger] pseudo@[i]));
    short && plain
}

/// The turn order of a new game, as chance has it: the slot that plays
/// first, then the other.
pub fn random_turn_order() -> (turn: (Slot, Slot))
    ensures
        turn.1 == turn.0.spec_other(),
{
    let mut order: Vec<char> = Vec::new();
    order.push(SLOT_ONE);
    order.push(SLOT_TWO);
    shuffle(&mut order);
    let first = if order.len() == 0 {
        Slot::One
    } else {
        match Slot::of_marker(order[0]) {
            Some(slot) => slot,
            None => Slot::One,
        }
    };
    (first, first.other())
}

impl Store {
    /// The invariant of the store: no token stands twice, and what the store
    /// holds is well formed.
    pub closed spec fn wf(&self) -> bool {
        &&& distinct_players(self.players@)
        &&& distinct_games(self.games@)
        &&& self@.wf()
    }

    /// A well-formed store holds a well-formed view.
    pub proof fn lemma_wf_view(&self)
        requires
            self.wf(),
        ensures
            self@.wf(),
    {
    }

    /// The store that holds nothing.
    pub fn new() -> (store: Store)
        ensures
            store.wf(),
            store@ == StoreView::empty(),
    {
        let store = Store { players: Vec::new(), games: Vec::new() };
        assert(store@.players =~= Map::empty());
        assert(store@.games =~= Map::empty());
        store
    }

    /// The place of the player with the given token.
    fn find_player(&self, token: &str) -> (found: Option<usize>)
        ensures
            match found {
                Some(i) => player_at(self.players@, token@, i as int),
                None => !self@.players.contains_key(token@),
            },
    {
        let mut i: usize = 0;
        while i < self.players.len()
            invariant
                i <= self.players.len(),
                forall|j: int| 0 <= j < i ==> !player_at(self.players@, token@, j),
            decreases self.players.len() - i,
        {
            if same_text(self.players[i].token.as_str(), token) {
                return Some(i);
            }
            i += 1;
        }
        None
    }

    /// The place of the game with the given token.
    fn find_game(&self, token: &str) -> (found: Option<usize>)
        ensures
            match found {
                Some(i) => game_at(self.games@, token@, i as int),
                None => !self@.games.contains_key(token@),
            },
    {
        let mut i: usize = 0;
        while i < self.games.len()
            invariant
                i <= self.games.len(),
                forall|j: int| 0 <= j < i ==> !game_at(self.games@, token@, j),
            decreases self.games.len() - i,
        {
            if same_text(self.games[i].token.as_str(), token) {
                return Some(i);
            }
            i += 1;
        }
        None
    }

    /// Whether a player with this token is registered. Only tokens of 36
    /// characters are.
    pub fn verify_player_token(&self, player_token: &str) -> (known: bool)
        ensures
            known == self@.players.contains_key(player_token@),
            self.wf() && known ==> player_token@.len() == TOKEN_LEN,
    {
        match self.find_player(player_token) {
            Some(i) => {
                assert(player_at(self.players@, player_token@, i as int));
                true
            },
            None => false,
        }
    }

    /// Whether a game with this token exists. Only tokens of 36 characters
    /// name one.
    pub fn verify_game_token(&self, game_token: &str) -> (known: bool)
        ensures
            known == self@.games.contains_key(game_token@),
            self.wf() && known ==> game_token@.len() == TOKEN_LEN,
    {
        match self.find_game(game_token) {
            Some(i) => {
                assert(game_at(self.games@, game_token@, i as int));
                true
            },
            None => false,
        }
    }

    /// What the store holds of the player with the given token.
    pub fn player(&self, player_token: &str) -> (infos: Option<PlayerInfos>)
        requires
            self.wf(),
        ensures
            match infos {
                Some(p) => self@.players.contains_key(player_token@) && p.pseudo@
                    == self@.players[player_token@].pseudo && (p.hosting != 0)
                    == self@.players[player_token@].hosting,
                None => !self@.players.contains_key(player_token@),
            },
    {
        match self.find_player(player_token) {
            Some(i) => {
                proof {
                    lemma_player_lookup(self.players@, i as int);
                }
                Some(self.players[i].infos.clone())
            },
            None => None,
        }
    }

    /// How many players the game with the given token has.
    pub fn player_count(&self, game_token: &str) -> (count: Option<u8>)
        requires
            self.wf(),
        ensures
            match count {
                Some(n) => self@.games.contains_key(game_token@) && n
                    == self@.games[game_token@].player_count(),
                None => !self@.games.contains_key(game_token@),
            },
    {
        match self.find_game(game_token) {
            Some(i) => {
                proof {
                    lemma_game_lookup(self.games@, i as int);
                }
                Some(self.games[i].members.len() as u8)
            },
            None => None,
        }
    }

    /// Whether the game with the given token has started.
    pub fn is_started(&self, game_token: &str) -> (started: Option<bool>)
        requires
            self.wf(),
        ensures
            match started {
                Some(b) => self@.games.contains_key(game_token@) && b == self@.games[game_token@].started,
                None => !self@.games.contains_key(game_token@),
            },
    {
        match self.find_game(game_token) {
            Some(i) => {
                proof {
                    lemma_game_lookup(self.games@, i as int);
                }
                Some(self.games[i].started)
            },
            None => None,
        }
    }

    /// The turn order of the game with the given token: the slot whose turn
    /// it is, then the other.
    pub fn turn(&self, game_token: &str) -> (turn: Option<(Slot, Slot)>)
        requires
            self.wf(),
        ensures
            match turn {
                Some(t) => self@.games.contains_key(game_token@) && t == self@.games[game_token@].turn,
                None => !self@.games.contains_key(game_token@),
            },
    {
        match self.find_game(game_token) {
            Some(i) => {
                proof {
                    lemma_game_lookup(self.games@, i as int);
                }
                Some(self.games[i].turn)
            },
            None => None,
        }
    }

    /// The map of the game with the given token, as text.
    pub fn map(&self, game_token: &str) -> (map: Option<String>)
        requires
            self.wf(),
        ensures
            match map {
                Some(text) => self@.games.contains_key(game_token@) && text@ == text_of(
                    self@.games[game_token@].map,
                ) && rows_of(text@) == self@.games[game_token@].map,
                None => !self@.games.contains_key(game_token@),
            },
    {
        match self.find_game(game_token) {
            Some(i) => {
                proof {
                    lemma_game_lookup(self.games@, i as int);
                    lemma_game_map_reads_back(self@.games[game_token@]);
                }
                Some(map_vec_to_string(clone_rows(&self.games[i].map)))
            },
            None => None,
        }
    }

    /// The record of the player with `player_token` as a member of the game
    /// with `game_token`.
    pub fn member(&self, player_token: &str, game_token: &str) -> (infos: Option<
        GamePlayerInfos,
    >)
        requires
            self.wf(),
        ensures
            match infos {
                Some(record) => self@.games.contains_key(game_token@) && self@.games[game_token@].has_member(
                    player_token@,
                ) && is_record_of(
                    record,
                    self@.games[game_token@].members[member_index(
                        self@.games[game_token@],
                        player_token@,
                    )],
                ),
                None => !self@.games.contains_key(game_token@) || !self@.games[game_token@].has_member(
                    player_token@,
                ),
            },
    {
        let gi = match self.find_game(game_token) {
            Some(gi) => gi,
            None => {
                return None;
            },
        };
        proof {
            lemma_game_lookup(self.games@, gi as int);
        }
        let i = match Self::find_member(&self.games[gi], player_token) {
            Some(i) => i,
            None => {
                return None;
            },
        };
        let member = &self.games[gi].members[i];
        assert(self@.games[game_token@].members[i as int] == member@);
        assert(self@.games[game_token@].has_member(player_token@));
        let (character, stats) = match member.character {
            Some(c) => (c.class.tag(), (c.atk, c.hp, c.ms, c.rng)),
            None => (String::new(), (0, 0, 0, 0)),
        };
        Some(GamePlayerInfos { player_num: member.slot.label(), character, stats })
    }

    /// Registers a player named `pseudo` under `token`, if the name is
    /// valid and the token is a fresh one.
    pub fn add_player(&mut self, pseudo: &str, token: String) -> (added: Result<(), SessionError>)
        requires
            old(self).wf(),
        ensures
            final(self).wf(),
            match add_player_result(old(self)@, pseudo@, token@) {
                Ok(next) => added.is_ok() && final(self)@ == next,
                Err(e) => added == Err::<(), SessionError>(e) && final(self)@ == old(self)@,
            },
    {
        if !check_pseudo(pseudo) {
            return Err(SessionError::InvalidName);
        }
        let token_chars = chars_of(token.as_str());
        if token_chars.len() != TOKEN_LEN || self.verify_player_token(token.as_str()) {
            return Err(SessionError::TokenCollision);
        }
        let player = Player { token, infos: PlayerInfos { pseudo: pseudo.to_owned(), hosting: 0 } };
        proof {
            lemma_player_added(self.players@, player);
            assert(player@ == (PlayerView { pseudo: pseudo@, hosting: false }));
        }
        self.players.push(player);
        assert(self@.players == old(self)@.players.insert(token@, PlayerView { pseudo: pseudo@, hosting: false }));
        assert(self@.games == old(self)@.games);
        Ok(())
    }

    /// Registers a player named `pseudo` under a fresh token and returns the
    /// token. The token is drawn again when it is taken; after `TOKEN_TRIES`
    /// draws the store gives up. On a store without players no draw is
    /// taken, so a valid name always gets its player.
    pub fn create_player(&mut self, pseudo: &str) -> (created: Result<PlayerCreation, SessionError>)
        requires
            old(self).wf(),
        ensures
            final(self).wf(),
            !valid_pseudo(pseudo@) ==> created.is_err() && created.unwrap_err() == SessionError::InvalidName,
            valid_pseudo(pseudo@) && (forall|t: Seq<char>| !old(self)@.players.contains_key(t))
                ==> created.is_ok(),
            match created {
                Ok(body) => add_player_result(old(self)@, pseudo@, body.player_token@) == Ok::<
                    StoreView,
                    SessionError,
                >(final(self)@) && body.status == OK_PL_CREAT,
                Err(e) => final(self)@ == old(self)@ && e == if valid_pseudo(pseudo@) {
                    SessionError::Internal
                } else {
                    SessionError::InvalidName
                },
            },
    {
        let mut tries: usize = 0;
        while tries < TOKEN_TRIES
            invariant
                self.wf(),
                self@ == old(self)@,
                tries > 0 ==> !(valid_pseudo(pseudo@) && (forall|t: Seq<char>|
                    !old(self)@.players.contains_key(t))),
            decreases TOKEN_TRIES - tries,
        {
            let token = new_token();
            match self.add_player(pseudo, token.clone()) {
                Ok(()) => {
                    return Ok(PlayerCreation::new(token));
                },
                Err(SessionError::TokenCollision) => {},
                Err(SessionError::InvalidName) => {
                    return Err(SessionError::InvalidName);
                },
                Err(_) => {
                    return Err(SessionError::Internal);
                },
            }
            tries += 1;
        }
        if !check_pseudo(pseudo) {
            return Err(SessionError::InvalidName);
        }
        Err(SessionError::Internal)
    }

    /// Opens a game under `game_token`, hosted by the player with
    /// `player_token`, in which `first` plays first on `map`: the player
    /// must be registered and host no game, the token must be a fresh one,
    /// and the map a fresh map of the fixed size.
    pub fn add_game(&mut self, player_token: &str, game_token: String, first: Slot, map: Vec<Vec<char>>) -> (added:
        Result<(), SessionError>)
        requires
            old(self).wf(),
        ensures
            final(self).wf(),
            match add_game_result(old(self)@, player_token@, game_token@, first, grid_view(map)) {
                Ok(next) => added.is_ok() && final(self)@ == next,
                Err(e) => added == Err::<(), SessionError>(e) && final(self)@ == old(self)@,
            },
    {
        let i = match self.find_player(player_token) {
            Some(i) => i,
            None => {
                return Err(SessionError::InvalidPlayerToken);
            },
        };
        proof {
            lemma_player_lookup(self.players@, i as int);
        }
        if self.players[i].infos.hosting != 0 {
            return Err(SessionError::AlreadyHosting);
        }
        let token_chars = chars_of(game_token.as_str());
        if token_chars.len() != TOKEN_LEN || self.verify_game_token(game_token.as_str()) {
            return Err(SessionError::TokenCollision);
        }
        if !check_fresh_map(&map, MAP_HEIGHT, MAP_WIDTH) {
            return Err(SessionError::Internal);
        }
        let mut members: Vec<Member> = Vec::new();
        members.push(Member { token: player_token.to_owned(), slot: Slot::One, character: None });
        let game = Game {
            token: game_token,
            started: false,
            host_player: player_token.to_owned(),
            turn: (first, first.other()),
            map,
            members,
        };
        self.players[i].infos.hosting = 1;
        proof {
            lemma_player_replaced(old(self).players@, i as int, self.players@[i as int]);
            assert(self.players@ == old(self).players@.update(i as int, self.players@[i as int]));
            lemma_game_added(self.games@, game);
            assert(game@.members == seq![
                MemberView { token: player_token@, slot: Slot::One, character: None },
            ]);
        }
        self.games.push(game);
        proof {
            let next = add_game_result(
                old(self)@,
                player_token@,
                game_token@,
                first,
                grid_view(map),
            ).unwrap();
            assert(self@.players == next.players);
            assert(self@.games == next.games);
            lemma_add_game_keeps_wf(old(self)@, player_token@, game_token@, first, grid_view(map));
        }
        Ok(())
    }

    /// Opens a game hosted by the player with `player_token`, under a fresh
    /// token, with a turn order and a map that chance decides, and returns
    /// the token. The token is drawn again when it is taken; after
    /// `TOKEN_TRIES` draws the store gives up. On a store without games no
    /// draw is taken, so a player who hosts nothing always gets the game.
    pub fn create_game(&mut self, player_token: &str) -> (created: Result<GameCreation, SessionError>)
        requires
            old(self).wf(),
        ensures
            final(self).wf(),
            !old(self)@.players.contains_key(player_token@) ==> created.is_err() && created.unwrap_err()
                == SessionError::InvalidPlayerToken,
            old(self)@.players.contains_key(player_token@) && old(self)@.players[player_token@].hosting
                ==> created.is_err() && created.unwrap_err() == SessionError::AlreadyHosting,
            old(self)@.players.contains_key(player_token@) && !old(self)@.players[player_token@].hosting
                && (forall|t: Seq<char>| !old(self)@.games.contains_key(t)) ==> created.is_ok(),
            match created {
                Ok(body) => body.status == OK_GM_CREAT
                    && final(self)@.games.contains_key(body.game_token@) && add_game_result(
                    old(self)@,
                    player_token@,
                    body.game_token@,
                    final(self)@.games[body.game_token@].turn.0,
                    final(self)@.games[body.game_token@].map,
                ) == Ok::<StoreView, SessionError>(final(self)@),
                Err(e) => final(self)@ == old(self)@ && e == if !old(self)@.players.contains_key(
                    player_token@,
                ) {
                    SessionError::InvalidPlayerToken
                } else if old(self)@.players[player_token@].hosting {
                    SessionError::AlreadyHosting
                } else {
                    SessionError::Internal
                },
            },
    {
        let mut tries: usize = 0;
        while tries < TOKEN_TRIES
            invariant
                self.wf(),
                self@ == old(self)@,
                tries > 0 ==> !(old(self)@.players.contains_key(player_token@)
                    && !old(self)@.players[player_token@].hosting && (forall|t: Seq<char>|
                    !old(self)@.games.contains_key(t))),
            decreases TOKEN_TRIES - tries,
        {
            let token = new_token();
            let turn = random_turn_order();
            let map = random_grid(MAP_HEIGHT, MAP_WIDTH);
            match self.add_game(player_token, token.clone(), turn.0, map) {
                Ok(()) => {
                    return Ok(GameCreation::new(token));
                },
                Err(SessionError::TokenCollision) => {},
                Err(SessionError::InvalidPlayerToken) => {
                    return Err(SessionError::InvalidPlayerToken);
                },
                Err(SessionError::AlreadyHosting) => {
                    return Err(SessionError::AlreadyHosting);
                },
                Err(_) => {
                    return Err(SessionError::Internal);
                },
            }
            tries += 1;
        }
        let i = match self.find_player(player_token) {
            Some(i) => i,
            None => {
                return Err(SessionError::InvalidPlayerToken);
            },
        };
        proof {
            lemma_player_lookup(self.players@, i as int);
        }
        if self.players[i].infos.hosting != 0 {
            return Err(SessionError::AlreadyHosting);
        }
        Err(SessionError::Internal)
    }

    /// The place among the members of a game of the one with the given token.
    fn find_member(game: &Game, token: &str) -> (found: Option<usize>)
        ensures
            match found {
                Some(i) => i < game.members.len() && game@.members[i as int].token == token@,
                None => !game@.has_member(token@),
            },
    {
        let mut i: usize = 0;
        while i < game.members.len()
            invariant
                i <= game.members.len(),
                forall|j: int| 0 <= j < i ==> (#[trigger] game@.members[j]).token != token@,
            decreases game.members.len() - i,
        {
            if same_text(game.members[i].token.as_str(), token) {
                return Some(i);
            }
            i += 1;
        }
        None
    }

    /// For every member of the game at place `gi`, in slot order: slot, name,
    /// character tag and host flag.
    fn roster(&self, gi: usize) -> (roster: Vec<[String; 4]>)
        requires
            self.wf(),
            gi < self.games.len(),
        ensures
            is_roster(self@, self.games@[gi as int].token@, roster@),
    {
        let game = &self.games[gi];
        let ghost g = game.token@;
        proof {
            lemma_game_lookup(self.games@, gi as int);
        }
        let mut roster: Vec<[String; 4]> = Vec::new();
        let mut i: usize = 0;
        while i < game.members.len()
            invariant
                self.wf(),
                gi < self.games.len(),
                game == &self.games@[gi as int],
                g == game.token@,
                self@.games.contains_key(g),
                self@.games[g] == game@,
                i <= game.members.len(),
                roster.len() == i,
                forall|j: int| 0 <= j < i ==> entry_view(#[trigger] roster@[j]) == roster_entry(self@, g, j),
            decreases game.members.len() - i,
        {
            let member = &game.members[i];
            assert(self@.players.contains_key(self@.games[g].members[i as int].token));
            let pseudo = match self.find_player(member.token.as_str()) {
                Some(pi) => {
                    proof {
                        lemma_player_lookup(self.players@, pi as int);
                    }
                    self.players[pi].infos.pseudo.clone()
                },
                None => String::new(),
            };
            let tag = match member.character {
                Some(c) => c.class.tag(),
                None => String::new(),
            };
            let host = if same_text(member.token.as_str(), game.host_player.as_str()) {
                Slot::One.label()
            } else {
                let mut flag = String::new();
                push_char(&mut flag, '0');
                flag
            };
            let entry = [member.slot.label(), pseudo, tag, host];
            assert(entry_view(entry) =~= roster_entry(self@, g, i as int));
            roster.push(entry);
            i += 1;
        }
        roster
    }

    /// Lets the player with `player_token` join the game with `game_token`
    /// as its second member, and returns the roster of the game. The game
    /// must not have started nor be full, and the player not be in it.
    pub fn join_game(&mut self, player_token: &str, game_token: &str) -> (joined: Result<
        GameJoining,
        SessionError,
    >)
        requires
            old(self).wf(),
        ensures
            final(self).wf(),
            match join_result(old(self)@, player_token@, game_token@) {
                Ok(next) => joined.is_ok() && final(self)@ == next && joined.unwrap().status
                    == OK_GM_JOIN && joined.unwrap().pseudo@
                    == next.players[player_token@].pseudo && is_roster(
                    next,
                    game_token@,
                    joined.unwrap().player_vec@,
                ),
                Err(e) => joined.is_err() && joined.unwrap_err() == e && final(self)@ == old(self)@,
            },
    {
        let pi = match self.find_player(player_token) {
            Some(pi) => pi,
            None => {
                return Err(SessionError::InvalidPlayerToken);
            },
        };
        let gi = match self.find_game(game_token) {
            Some(gi) => gi,
            None => {
                return Err(SessionError::InvalidGameToken);
            },
        };
        proof {
            lemma_player_lookup(self.players@, pi as int);
            lemma_game_lookup(self.games@, gi as int);
        }
        if self.games[gi].started {
            return Err(SessionError::GameAlreadyStarted);
        }
        if self.games[gi].members.len() >= 2 {
            return Err(SessionError::GameFull);
        }
        if Self::find_member(&self.games[gi], player_token).is_some() {
            return Err(SessionError::AlreadyJoined);
        }
        let member = Member { token: player_token.to_owned(), slot: Slot::Two, character: None };
        self.games[gi].members.push(member);
        proof {
            let next = join_result(old(self)@, player_token@, game_token@).unwrap();
            lemma_game_replaced(old(self).games@, gi as int, self.games@[gi as int]);
            assert(self.games@ == old(self).games@.update(gi as int, self.games@[gi as int]));
            assert(self.games@[gi as int]@.members == old(self).games@[gi as int]@.members.push(member@));
            assert(self.games@[gi as int]@ == next.games[game_token@]);
            assert(self@.games == next.games);
            assert(self@.players == next.players);
            lemma_join_keeps_wf(old(self)@, player_token@, game_token@);
        }
        let roster = self.roster(gi);
        Ok(GameJoining::new(self.players[pi].infos.pseudo.clone(), roster))
    }

    /// Gives the player with `player_token` the character that `character`
    /// names, in the game with `game_token`, with the statistics of its
    /// class. The player must be in the game and the game not have started.
    pub fn choose_character(&mut self, player_token: &str, game_token: &str, character: &str) -> (chosen:
        Result<CharacterChoosing, SessionError>)
        requires
            old(self).wf(),
        ensures
            final(self).wf(),
            match choose_result(old(self)@, player_token@, game_token@, character@) {
                Ok(next) => chosen.is_ok() && final(self)@ == next && chosen.unwrap().status
                    == OK_CHAR_CHOOSING && chosen.unwrap().pseudo@
                    == next.players[player_token@].pseudo && chosen.unwrap().character@ == character@,
                Err(e) => chosen.is_err() && chosen.unwrap_err() == e && final(self)@ == old(self)@,
            },
    {
        let pi = match self.find_player(player_token) {
            Some(pi) => pi,
            None => {
                return Err(SessionError::InvalidPlayerToken);
            },
        };
        let gi = match self.find_game(game_token) {
            Some(gi) => gi,
            None => {
                return Err(SessionError::InvalidGameToken);
            },
        };
        proof {
            lemma_player_lookup(self.players@, pi as int);
            lemma_game_lookup(self.games@, gi as int);
        }
        let i = match Self::find_member(&self.games[gi], player_token) {
            Some(i) => i,
            None => {
                return Err(SessionError::NotJoined);
            },
        };
        if self.games[gi].started {
            return Err(SessionError::GameAlreadyStarted);
        }
        let class = match CharacterClass::new(character) {
            Some(class) => class,
            None => {
                return Err(SessionError::InvalidCharacterClass);
            },
        };
        let ghost before = old(self)@.games[game_token@];
        assert(before.has_member(player_token@));
        assert(i as int == member_index(before, player_token@));
        self.games[gi].members[i].character = Some(Character::new(class));
        proof {
            let next = choose_result(old(self)@, player_token@, game_token@, character@).unwrap();
            lemma_game_replaced(old(self).games@, gi as int, self.games@[gi as int]);
            assert(self.games@ == old(self).games@.update(gi as int, self.games@[gi as int]));
            assert(self.games@[gi as int]@.members =~= next.games[game_token@].members);
            assert(self.games@[gi as int]@ == next.games[game_token@]);
            assert(self@.games == next.games);
            assert(self@.players == next.players);
            lemma_choose_keeps_wf(old(self)@, player_token@, game_token@, character@);
        }
        Ok(CharacterChoosing::new(self.players[pi].infos.pseudo.clone(), character.to_owned()))
    }

    /// Starts the game with `game_token` for its host, the player with
    /// `player_token`: both markers go on their starting cells. Returns the
    /// slot that plays first and the map. The game must have two players
    /// and not have started.
    pub fn start_game(&mut self, player_token: &str, game_token: &str) -> (started: Result<
        GameStarting,
        SessionError,
    >)
        requires
            old(self).wf(),
        ensures
            final(self).wf(),
            match start_result(old(self)@, player_token@, game_token@) {
                Ok(next) => started.is_ok() && final(self)@ == next && started.unwrap().status
                    == OK_GM_START && started.unwrap().player_turn@
                    == next.games[game_token@].turn.0.spec_label() && started.unwrap().map@ == text_of(
                    next.games[game_token@].map,
                ) && rows_of(started.unwrap().map@) == next.games[game_token@].map,
                Err(e) => started.is_err() && started.unwrap_err() == e && final(self)@ == old(self)@,
            },
    {
        if self.find_player(player_token).is_none() {
            return Err(SessionError::InvalidPlayerToken);
        }
        let gi = match self.find_game(game_token) {
            Some(gi) => gi,
            None => {
                return Err(SessionError::InvalidGameToken);
            },
        };
        proof {
            lemma_game_lookup(self.games@, gi as int);
        }
        if self.games[gi].started {
            return Err(SessionError::GameAlreadyStarted);
        }
        if !same_text(self.games[gi].host_player.as_str(), player_token) {
            return Err(SessionError::NotHost);
        }
        if self.games[gi].members.len() < 2 {
            return Err(SessionError::GameNotFull);
        }
        let ghost before = old(self)@.games[game_token@];
        let height = self.games[gi].map.len();
        let width = self.games[gi].map[0].len();
        assert(before.map[height - 1].len() == width);
        set_cell(&mut self.games[gi].map, 0, 0, SLOT_ONE);
        set_cell(&mut self.games[gi].map, width - 1, height - 1, SLOT_TWO);
        self.games[gi].started = true;
        proof {
            let next = start_result(old(self)@, player_token@, game_token@).unwrap();
            lemma_game_replaced(old(self).games@, gi as int, self.games@[gi as int]);
            assert(self.games@ == old(self).games@.update(gi as int, self.games@[gi as int]));
            assert(self.games@[gi as int]@.members =~= before.members);
            assert(self.games@[gi as int]@ == next.games[game_token@]);
            assert(self@.games == next.games);
            assert(self@.players == next.players);
            lemma_start_keeps_wf(old(self)@, player_token@, game_token@);
            lemma_game_map_reads_back(next.games[game_token@]);
        }
        let map = map_vec_to_string(clone_rows(&self.games[gi].map));
        Ok(GameStarting::new(self.games[gi].turn.0.label(), map))
    }

    /// Resolves the action of the player with `player_token` in the game
    /// with `game_token`: a move, an attack or a skipped turn. The game must
    /// have started, the player be in it and have the turn, and the action
    /// be legal. The turn then passes to the other player. Returns who
    /// acted, who plays next, the map, and for an attack whom it hit and
    /// the hit points left.
    pub fn apply_turn(&mut self, player_token: &str, game_token: &str, action: GameDataType) -> (outcome:
        Result<GameData, SessionError>)
        requires
            old(self).wf(),
        ensures
            final(self).wf(),
            match turn_result(old(self)@, player_token@, game_token@, action) {
                Ok(next) => {
                    let before = old(self)@.games[game_token@];
                    let after = next.games[game_token@];
                    let i = member_index(before, player_token@);
                    &&& outcome.is_ok()
                    &&& final(self)@ == next
                    &&& outcome.unwrap().status == OK_GM_DATA
                    &&& outcome.unwrap().data_type == action_code(action)
                    &&& outcome.unwrap().player_num@ == before.turn.0.spec_label()
                    &&& outcome.unwrap().player_turn@ == after.turn.0.spec_label()
                    &&& outcome.unwrap().map@ == text_of(after.map)
                    &&& rows_of(outcome.unwrap().map@) == after.map
                    &&& outcome.unwrap().enemy.0@ == enemy_report(before, after, i, action).0
                    &&& outcome.unwrap().enemy.1 == enemy_report(before, after, i, action).1
                },
                Err(e) => outcome.is_err() && outcome.unwrap_err() == e && final(self)@ == old(self)@,
            },
    {
        if self.find_player(player_token).is_none() {
            return Err(SessionError::InvalidPlayerToken);
        }
        let gi = match self.find_game(game_token) {
            Some(gi) => gi,
            None => {
                return Err(SessionError::InvalidGameToken);
            },
        };
        proof {
            lemma_game_lookup(self.games@, gi as int);
        }
        if !self.games[gi].started {
            return Err(SessionError::GameNotStarted);
        }
        let i = match Self::find_member(&self.games[gi], player_token) {
            Some(i) => i,
            None => {
                return Err(SessionError::NotJoined);
            },
        };
        let ghost before = old(self)@.games[game_token@];
        assert(before.has_member(player_token@));
        assert(i as int == member_index(before, player_token@));
        let fi = 1 - i;
        let slot = self.games[gi].members[i].slot;
        let turn = self.games[gi].turn;
        if slot != turn.0 {
            return Err(SessionError::NotYourTurn);
        }
        let me = match self.games[gi].members[i].character {
            Some(c) => c,
            None => {
                return Err(SessionError::IllegalAction);
            },
        };
        let mut enemy: (String, u8) = (String::new(), 0);
        let code = match action {
            GameDataType::Skip => GM_DATA_SKIP,
            GameDataType::Movement(dest) => {
                if !move_marker(&mut self.games[gi].map, slot.marker(), dest, me.ms) {
                    proof {
                        lemma_game_replaced(old(self).games@, gi as int, self.games@[gi as int]);
                        assert(self.games@ == old(self).games@.update(gi as int, self.games@[gi as int]));
                        assert(self.games@[gi as int]@.members =~= before.members);
                        assert(self.games@[gi as int]@ == before);
                        assert(self@.games =~= old(self)@.games);
                    }
                    return Err(SessionError::IllegalAction);
                }
                GM_DATA_MOV
            },
            GameDataType::Attack(target) => {
                if aim(&self.games[gi].map, slot.marker(), target, me.rng).is_none() {
                    return Err(SessionError::IllegalAction);
                }
                let foe = match self.games[gi].members[fi].character {
                    Some(fc) => fc,
                    None => {
                        return Err(SessionError::IllegalAction);
                    },
                };
                let left = if foe.hp >= me.atk { foe.hp - me.atk } else { 0 };
                self.games[gi].members[fi].character = Some(
                    Character { atk: foe.atk, hp: left, ms: foe.ms, rng: foe.rng, class: foe.class },
                );
                if foe.hp <= me.atk {
                    assert(before.map[target.1 as int].len() == before.map[0].len());
                    set_cell(&mut self.games[gi].map, target.0 as usize, target.1 as usize, EMPTY);
                }
                enemy = (self.games[gi].members[fi].slot.label(), left);
                GM_DATA_ATK
            },
        };
        self.games[gi].turn = (turn.1, turn.0);
        proof {
            let next = turn_result(old(self)@, player_token@, game_token@, action).unwrap();
            lemma_game_replaced(old(self).games@, gi as int, self.games@[gi as int]);
            assert(self.games@ == old(self).games@.update(gi as int, self.games@[gi as int]));
            assert(self.games@[gi as int]@.members =~= next.games[game_token@].members);
            assert(self.games@[gi as int]@ == next.games[game_token@]);
            assert(self@.games == next.games);
            assert(self@.players == next.players);
            lemma_turn_keeps_wf(old(self)@, player_token@, game_token@, action);
            lemma_game_map_reads_back(next.games[game_token@]);
        }
        let map = map_vec_to_string(clone_rows(&self.games[gi].map));
        Ok(GameData::new(code, turn.1.label(), slot.label(), map, enemy))
    }
}

} // verus!
