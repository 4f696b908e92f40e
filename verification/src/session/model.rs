//! The session store as mathematics: what it holds, when that is well
//! formed, and what each operation makes of it.

use vstd::prelude::*;
use crate::action_check::{
    aimed_marker, can_move, hp_after, lemma_blow_keeps_markers, lemma_move_keeps_markers,
    moved_rows, rows_after_blow,
};
use crate::character::{class_of_tag, Character};
use crate::map::{
    at_most_one, in_bounds, is_cell, is_fresh_map, is_grid, is_marker, is_obstacle, known_cells,
    lemma_grid_reads_back, no_marker, open_borders, put, rows_of, text_of, GameDataType, Slot,
    SLOT_ONE, SLOT_TWO,
};
use crate::packet::game_data_code::{GM_DATA_ATK, GM_DATA_MOV, GM_DATA_SKIP};
use crate::response::GamePlayerInfos;
use crate::session::error::SessionError;
use crate::text::is_alphanumeric;

verus! {

/// The length of a token.
pub const TOKEN_LEN: usize = 36;

/// Height of the map of a game.
pub const MAP_HEIGHT: u8 = 5;

/// Width of the map of a game.
pub const MAP_WIDTH: u8 = 10;

/// The longest name a player can take, in bytes of its UTF-8 form.
pub const MAX_PSEUDO: usize = 32;

/// What the store holds of a player.
pub struct PlayerView {
    pub pseudo: Seq<char>,
    pub hosting: bool,
}

/// What the store holds of a membership.
pub struct MemberView {
    pub token: Seq<char>,
    pub slot: Slot,
    pub character: Option<Character>,
}

/// What the store holds of a game. `turn.0` is the slot whose turn it is.
pub struct GameView {
    pub started: bool,
    pub host: Seq<char>,
    pub turn: (Slot, Slot),
    pub map: Seq<Seq<char>>,
    pub members: Seq<MemberView>,
}

/// The store as a pair of maps, each keyed by token.
pub struct StoreView {
    pub players: Map<Seq<char>, PlayerView>,
    pub games: Map<Seq<char>, GameView>,
}

impl GameView {
    /// How many players the game has.
    pub open spec fn player_count(self) -> nat {
        self.members.len()
    }

    /// Whether `token` is the token of a member.
    pub open spec fn has_member(self, token: Seq<char>) -> bool {
        exists|i: int| 0 <= i < self.members.len() && (#[trigger] self.members[i]).token == token
    }

    /// The invariant of a game: one or two members, the host first, in slot
    /// 1, the second member in slot 2 and another player; a started game
    /// has two members; the turn order holds both slots; the map is a grid of
    /// the fixed size whose cells are empty, an obstacle or a marker, without
    /// obstacles in its top and bottom row, with at most one marker for each
    /// slot, and without markers before the start.
    pub open spec fn wf(self) -> bool {
        &&& 1 <= self.members.len() <= 2
        &&& self.members[0].token == self.host
        &&& self.members[0].slot == Slot::One
        &&& self.members.len() == 2 ==> self.members[1].slot == Slot::Two && self.members[1].token
            != self.host
        &&& self.started ==> self.members.len() == 2
        &&& self.turn.1 == self.turn.0.spec_other()
        &&& is_grid(self.map)
        &&& self.map.len() == MAP_HEIGHT
        &&& self.map[0].len() == MAP_WIDTH
        &&& known_cells(self.map)
        &&& open_borders(self.map)
        &&& at_most_one(self.map, SLOT_ONE)
        &&& at_most_one(self.map, SLOT_TWO)
        &&& !self.started ==> no_marker(self.map)
    }
}

impl StoreView {
    /// The store that holds nothing.
    pub open spec fn empty() -> StoreView {
        StoreView { players: Map::empty(), games: Map::empty() }
    }

    /// The invariant of the store: tokens are 36 characters long, every game
    /// is well formed, and every member of a game is a registered player.
    pub open spec fn wf(self) -> bool {
        &&& forall|t: Seq<char>| #[trigger] self.players.contains_key(t) ==> t.len() == TOKEN_LEN
        &&& forall|t: Seq<char>| #[trigger]
            self.games.contains_key(t) ==> t.len() == TOKEN_LEN && self.games[t].wf()
        &&& forall|t: Seq<char>, i: int|
            self.games.contains_key(t) && 0 <= i < self.games[t].members.len()
                ==> self.players.contains_key((#[trigger] self.games[t].members[i]).token)
    }
}

/// Whether a player may take the name: at most 32 bytes long, and every
/// character alphanumeric.
pub open spec fn valid_pseudo(name: Seq<char>) -> bool {
    &&& vstd::utf8::encode_utf8(name).len() <= MAX_PSEUDO
    &&& forall|i: int| 0 <= i < name.len() ==> is_alphanumeric(#[trigger] name[i])
}

/// What becomes of the store when a player named `pseudo` is to be added
/// under `token`.
pub open spec fn add_player_result(s: StoreView, pseudo: Seq<char>, token: Seq<char>) -> Result<
    StoreView,
    SessionError,
> {
    if !valid_pseudo(pseudo) {
        Err(SessionError::InvalidName)
    } else if token.len() != TOKEN_LEN || s.players.contains_key(token) {
        Err(SessionError::TokenCollision)
    } else {
        Ok(StoreView { players: s.players.insert(token, PlayerView { pseudo, hosting: false }), ..s })
    }
}

/// What becomes of the store when the player with `player_token` is to host
/// a new game under `game_token`, in which `first` plays first on `map`.
pub open spec fn add_game_result(
    s: StoreView,
    player_token: Seq<char>,
    game_token: Seq<char>,
    first: Slot,
    map: Seq<Seq<char>>,
) -> Result<StoreView, SessionError> {
    if !s.players.contains_key(player_token) {
        Err(SessionError::InvalidPlayerToken)
    } else if s.players[player_token].hosting {
        Err(SessionError::AlreadyHosting)
    } else if game_token.len() != TOKEN_LEN || s.games.contains_key(game_token) {
        Err(SessionError::TokenCollision)
    } else if !is_fresh_map(map, MAP_HEIGHT as nat, MAP_WIDTH as nat) {
        Err(SessionError::Internal)
    } else {
        Ok(
            StoreView {
                players: s.players.insert(
                    player_token,
                    PlayerView { hosting: true, ..s.players[player_token] },
                ),
                games: s.games.insert(
                    game_token,
                    GameView {
                        started: false,
                        host: player_token,
                        turn: (first, first.spec_other()),
                        map,
                        members: seq![MemberView { token: player_token, slot: Slot::One, character: None }],
                    },
                ),
            },
        )
    }
}

/// The place of the member with the token `p` in a game that has such a
/// member: the host stands first.
pub open spec fn member_index(game: GameView, p: Seq<char>) -> int {
    if game.members[0].token == p {
        0
    } else {
        1
    }
}

/// What becomes of the store when the player with the token `p` is to join
/// the game with the token `g`.
pub open spec fn join_result(s: StoreView, p: Seq<char>, g: Seq<char>) -> Result<StoreView, SessionError> {
    if !s.players.contains_key(p) {
        Err(SessionError::InvalidPlayerToken)
    } else if !s.games.contains_key(g) {
        Err(SessionError::InvalidGameToken)
    } else if s.games[g].started {
        Err(SessionError::GameAlreadyStarted)
    } else if s.games[g].members.len() >= 2 {
        Err(SessionError::GameFull)
    } else if s.games[g].has_member(p) {
        Err(SessionError::AlreadyJoined)
    } else {
        Ok(
            StoreView {
                games: s.games.insert(
                    g,
                    GameView {
                        members: s.games[g].members.push(
                            MemberView { token: p, slot: Slot::Two, character: None },
                        ),
                        ..s.games[g]
                    },
                ),
                ..s
            },
        )
    }
}

/// The tag of a member's character, empty until one is chosen.
pub open spec fn character_tag(character: Option<Character>) -> Seq<char> {
    match character {
        Some(c) => c.class.spec_tag(),
        None => Seq::empty(),
    }
}

/// What the roster says of the member at place `i` of the game with the
/// token `g`: slot, name, character tag, and "1" for the host, "0" for any
/// other member.
pub open spec fn roster_entry(s: StoreView, g: Seq<char>, i: int) -> Seq<Seq<char>> {
    let game = s.games[g];
    let m = game.members[i];
    seq![
        m.slot.spec_label(),
        s.players[m.token].pseudo,
        character_tag(m.character),
        if m.token == game.host {
            seq!['1']
        } else {
            seq!['0']
        },
    ]
}

/// The four texts of a roster entry.
pub open spec fn entry_view(entry: [String; 4]) -> Seq<Seq<char>> {
    seq![entry@[0]@, entry@[1]@, entry@[2]@, entry@[3]@]
}

/// Whether `roster` is the roster of the game with the token `g`.
pub open spec fn is_roster(s: StoreView, g: Seq<char>, roster: Seq<[String; 4]>) -> bool {
    &&& roster.len() == s.games[g].members.len()
    &&& forall|i: int| 0 <= i < roster.len() ==> entry_view(#[trigger] roster[i]) == roster_entry(s, g, i)
}

/// What becomes of the store when the player with the token `p` is to
/// choose the character that `tag` names, in the game with the token `g`.
pub open spec fn choose_result(s: StoreView, p: Seq<char>, g: Seq<char>, tag: Seq<char>) -> Result<
    StoreView,
    SessionError,
> {
    if !s.players.contains_key(p) {
        Err(SessionError::InvalidPlayerToken)
    } else if !s.games.contains_key(g) {
        Err(SessionError::InvalidGameToken)
    } else if !s.games[g].has_member(p) {
        Err(SessionError::NotJoined)
    } else if s.games[g].started {
        Err(SessionError::GameAlreadyStarted)
    } else {
        match class_of_tag(tag) {
            None => Err(SessionError::InvalidCharacterClass),
            Some(class) => {
                let i = member_index(s.games[g], p);
                Ok(
                    StoreView {
                        games: s.games.insert(
                            g,
                            GameView {
                                members: s.games[g].members.update(
                                    i,
                                    MemberView {
                                        character: Some(Character::of_class(class)),
                                        ..s.games[g].members[i]
                                    },
                                ),
                                ..s.games[g]
                            },
                        ),
                        ..s
                    },
                )
            },
        }
    }
}

/// The map with both markers on their starting cells: slot 1 in the top
/// left corner, slot 2 in the bottom right corner.
pub open spec fn placed(rows: Seq<Seq<char>>) -> Seq<Seq<char>> {
    put(put(rows, 0, 0, SLOT_ONE), rows[0].len() - 1, rows.len() - 1, SLOT_TWO)
}

/// What becomes of the store when the player with the token `p` is to
/// start the game with the token `g`.
pub open spec fn start_result(s: StoreView, p: Seq<char>, g: Seq<char>) -> Result<StoreView, SessionError> {
    if !s.players.contains_key(p) {
        Err(SessionError::InvalidPlayerToken)
    } else if !s.games.contains_key(g) {
        Err(SessionError::InvalidGameToken)
    } else if s.games[g].started {
        Err(SessionError::GameAlreadyStarted)
    } else if s.games[g].host != p {
        Err(SessionError::NotHost)
    } else if s.games[g].members.len() < 2 {
        Err(SessionError::GameNotFull)
    } else {
        Ok(
            StoreView {
                games: s.games.insert(
                    g,
                    GameView { started: true, map: placed(s.games[g].map), ..s.games[g] },
                ),
                ..s
            },
        )
    }
}

/// On a map without markers, placing the players leaves exactly two
/// markers: that of slot 1 in the top left corner and that of slot 2 in the
/// bottom right corner.
pub proof fn lemma_placed_markers(rows: Seq<Seq<char>>)
    requires
        is_grid(rows),
        no_marker(rows),
        rows.len() > 1 || rows[0].len() > 1,
    ensures
        is_grid(placed(rows)),
        placed(rows).len() == rows.len(),
        placed(rows)[0].len() == rows[0].len(),
        placed(rows)[0][0] == SLOT_ONE,
        placed(rows)[rows.len() - 1][rows[0].len() - 1] == SLOT_TWO,
        forall|x: int, y: int|
            in_bounds(placed(rows), x, y) ==> (is_marker(#[trigger] placed(rows)[y][x]) <==> (x == 0 && y
                == 0) || (x == rows[0].len() - 1 && y == rows.len() - 1)),
        forall|x: int, y: int|
            in_bounds(rows, x, y) && !(x == 0 && y == 0) && !(x == rows[0].len() - 1 && y == rows.len()
                - 1) ==> #[trigger] placed(rows)[y][x] == rows[y][x],
        at_most_one(placed(rows), SLOT_ONE),
        at_most_one(placed(rows), SLOT_TWO),
        open_borders(rows) ==> open_borders(placed(rows)),
        known_cells(rows) ==> known_cells(placed(rows)),
{
    let after = placed(rows);
    let h = rows.len() as int;
    let w = rows[0].len() as int;
    assert(rows[h - 1].len() == w);
    if known_cells(rows) {
        assert forall|x: int, y: int| in_bounds(after, x, y) implies is_cell(#[trigger] after[y][x]) by {
            assert(rows[y].len() == w);
            assert(is_cell(rows[y][x]));
        }
    }
    if open_borders(rows) {
        assert forall|x: int, y: int| in_bounds(after, x, y) && (y == 0 || y == after.len() - 1)
            implies !is_obstacle(#[trigger] after[y][x]) by {
            assert(rows[y].len() == w);
            assert(!is_obstacle(rows[y][x]));
        }
    }
    assert forall|y: int| 0 <= y < after.len() implies (#[trigger] after[y]).len() == after[0].len() by {
        assert(rows[y].len() == w);
    }
    assert forall|x: int, y: int| in_bounds(after, x, y) implies (is_marker(#[trigger] after[y][x]) <==> (x
        == 0 && y == 0) || (x == w - 1 && y == h - 1)) by {
        assert(rows[y].len() == w);
        assert(in_bounds(rows, x, y));
        assert(!is_marker(rows[y][x]));
    }
    assert forall|x1: int, y1: int, x2: int, y2: int|
        in_bounds(after, x1, y1) && in_bounds(after, x2, y2) && #[trigger] after[y1][x1] == SLOT_ONE
            && #[trigger] after[y2][x2] == SLOT_ONE implies x1 == x2 && y1 == y2 by {
        assert(is_marker(after[y1][x1]));
        assert(is_marker(after[y2][x2]));
    }
    assert forall|x1: int, y1: int, x2: int, y2: int|
        in_bounds(after, x1, y1) && in_bounds(after, x2, y2) && #[trigger] after[y1][x1] == SLOT_TWO
            && #[trigger] after[y2][x2] == SLOT_TWO implies x1 == x2 && y1 == y2 by {
        assert(is_marker(after[y1][x1]));
        assert(is_marker(after[y2][x2]));
    }
}

/// The code under which an action travels.
pub open spec fn action_code(action: GameDataType) -> u64 {
    match action {
        GameDataType::Movement(_) => GM_DATA_MOV,
        GameDataType::Attack(_) => GM_DATA_ATK,
        GameDataType::Skip => GM_DATA_SKIP,
    }
}

/// What becomes of a started game when its member at place `i` is to act.
pub open spec fn act_result(game: GameView, i: int, action: GameDataType) -> Result<GameView, SessionError> {
    let me = game.members[i];
    let foe = game.members[1 - i];
    let turn = (game.turn.1, game.turn.0);
    if me.slot != game.turn.0 {
        Err(SessionError::NotYourTurn)
    } else {
        match me.character {
            None => Err(SessionError::IllegalAction),
            Some(c) => match action {
                GameDataType::Skip => Ok(GameView { turn, ..game }),
                GameDataType::Movement(d) => if can_move(
                    game.map,
                    me.slot.spec_marker(),
                    d.0 as int,
                    d.1 as int,
                    c.ms as nat,
                ) {
                    Ok(
                        GameView {
                            turn,
                            map: moved_rows(game.map, me.slot.spec_marker(), d.0 as int, d.1 as int),
                            ..game
                        },
                    )
                } else {
                    Err(SessionError::IllegalAction)
                },
                GameDataType::Attack(t) => match (
                    aimed_marker(game.map, me.slot.spec_marker(), t.0 as int, t.1 as int, c.rng as nat),
                    foe.character,
                ) {
                    (Some(_), Some(fc)) => Ok(
                        GameView {
                            turn,
                            map: rows_after_blow(game.map, t.0 as int, t.1 as int, fc.hp, c.atk),
                            members: game.members.update(
                                1 - i,
                                MemberView {
                                    character: Some(Character { hp: hp_after(fc.hp, c.atk), ..fc }),
                                    ..foe
                                },
                            ),
                            ..game
                        },
                    ),
                    _ => Err(SessionError::IllegalAction),
                },
            },
        }
    }
}

/// What becomes of the store when the player with the token `p` is to act
/// in the game with the token `g`.
pub open spec fn turn_result(s: StoreView, p: Seq<char>, g: Seq<char>, action: GameDataType) -> Result<
    StoreView,
    SessionError,
> {
    if !s.players.contains_key(p) {
        Err(SessionError::InvalidPlayerToken)
    } else if !s.games.contains_key(g) {
        Err(SessionError::InvalidGameToken)
    } else if !s.games[g].started {
        Err(SessionError::GameNotStarted)
    } else if !s.games[g].has_member(p) {
        Err(SessionError::NotJoined)
    } else {
        match act_result(s.games[g], member_index(s.games[g], p), action) {
            Ok(game) => Ok(StoreView { games: s.games.insert(g, game), ..s }),
            Err(e) => Err(e),
        }
    }
}

/// Whom a resolved action hit and what hit points that player has left: for
/// an attack the other member of the game, after the blow; else nobody, and 0.
pub open spec fn enemy_report(before: GameView, after: GameView, i: int, action: GameDataType) -> (
    Seq<char>,
    u8,
) {
    match action {
        GameDataType::Attack(_) => (
            before.members[1 - i].slot.spec_label(),
            after.members[1 - i].character.unwrap().hp,
        ),
        _ => (Seq::empty(), 0u8),
    }
}

/// The record of a member as it travels: the slot as text, the class tag and
/// the live statistics; before a character is chosen, an empty tag and zeros.
pub open spec fn is_record_of(infos: GamePlayerInfos, m: MemberView) -> bool {
    &&& infos.player_num@ == m.slot.spec_label()
    &&& infos.character@ == character_tag(m.character)
    &&& infos.stats == match m.character {
        Some(c) => (c.atk, c.hp, c.ms, c.rng),
        None => (0u8, 0u8, 0u8, 0u8),
    }
}

/// The map of a well-formed game comes back from its text form as it is
/// stored, and the text has a newline between two rows and none at its end.
pub proof fn lemma_game_map_reads_back(game: GameView)
    requires
        game.wf(),
    ensures
        rows_of(text_of(game.map)) == game.map,
{
    lemma_grid_reads_back(game.map);
}

/// A well-formed store with one player more is well formed.
pub proof fn lemma_add_player_keeps_wf(s: StoreView, pseudo: Seq<char>, token: Seq<char>)
    requires
        s.wf(),
        add_player_result(s, pseudo, token).is_ok(),
    ensures
        add_player_result(s, pseudo, token).unwrap().wf(),
{
}

/// A well-formed store with one game more is well formed.
pub proof fn lemma_add_game_keeps_wf(
    s: StoreView,
    player_token: Seq<char>,
    game_token: Seq<char>,
    first: Slot,
    map: Seq<Seq<char>>,
)
    requires
        s.wf(),
        add_game_result(s, player_token, game_token, first, map).is_ok(),
    ensures
        add_game_result(s, player_token, game_token, first, map).unwrap().wf(),
{
    let next = add_game_result(s, player_token, game_token, first, map).unwrap();
    assert(next.games[game_token].wf());
}

/// A well-formed store is well formed after a player has joined a game.
pub proof fn lemma_join_keeps_wf(s: StoreView, p: Seq<char>, g: Seq<char>)
    requires
        s.wf(),
        join_result(s, p, g).is_ok(),
    ensures
        join_result(s, p, g).unwrap().wf(),
{
    let next = join_result(s, p, g).unwrap();
    assert(next.games[g].wf());
}

/// A well-formed store is well formed after a character has been chosen.
pub proof fn lemma_choose_keeps_wf(s: StoreView, p: Seq<char>, g: Seq<char>, tag: Seq<char>)
    requires
        s.wf(),
        choose_result(s, p, g, tag).is_ok(),
    ensures
        choose_result(s, p, g, tag).unwrap().wf(),
{
    let next = choose_result(s, p, g, tag).unwrap();
    assert(next.games[g].wf());
}

/// A well-formed store is well formed after a game has started.
pub proof fn lemma_start_keeps_wf(s: StoreView, p: Seq<char>, g: Seq<char>)
    requires
        s.wf(),
        start_result(s, p, g).is_ok(),
    ensures
        start_result(s, p, g).unwrap().wf(),
{
    let next = start_result(s, p, g).unwrap();
    lemma_placed_markers(s.games[g].map);
    assert(next.games[g].wf());
}

/// A well-formed started game is well formed after an action of one of its
/// members, and has the members it had.
pub proof fn lemma_act_keeps_wf(game: GameView, i: int, action: GameDataType)
    requires
        game.wf(),
        game.started,
        0 <= i < 2,
        act_result(game, i, action).is_ok(),
    ensures
        act_result(game, i, action).unwrap().wf(),
        act_result(game, i, action).unwrap().started,
        act_result(game, i, action).unwrap().members.len() == game.members.len(),
        forall|k: int|
            0 <= k < game.members.len() ==> (#[trigger] act_result(game, i, action).unwrap().members[k]).token
                == game.members[k].token,
{
    let me = game.members[i];
    let c = me.character.unwrap();
    match action {
        GameDataType::Skip => {},
        GameDataType::Movement(d) => {
            lemma_move_keeps_markers(game.map, me.slot.spec_marker(), d.0 as int, d.1 as int, c.ms as nat);
        },
        GameDataType::Attack(t) => {
            let fc = game.members[1 - i].character.unwrap();
            lemma_blow_keeps_markers(game.map, t.0 as int, t.1 as int, fc.hp, c.atk);
        },
    }
}

/// A well-formed store is well formed after a turn.
pub proof fn lemma_turn_keeps_wf(s: StoreView, p: Seq<char>, g: Seq<char>, action: GameDataType)
    requires
        s.wf(),
        turn_result(s, p, g, action).is_ok(),
    ensures
        turn_result(s, p, g, action).unwrap().wf(),
{
    lemma_act_keeps_wf(s.games[g], member_index(s.games[g], p), action);
}

} // verus!
