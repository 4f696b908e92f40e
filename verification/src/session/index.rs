//! The records that the store keeps, and how records kept in a vector are
//! found by their token.

use vstd::prelude::*;
use crate::action_check::PlayerInfos;
use crate::character::Character;
use crate::map::{grid_view, Slot};
use crate::session::model::{GameView, MemberView, PlayerView};

verus! {

/// A registered player.
pub struct Player {
    pub token: String,
    pub infos: PlayerInfos,
}

/// A player's membership in a game.
pub struct Member {
    pub token: String,
    pub slot: Slot,
    pub character: Option<Character>,
}

/// A game.
pub struct Game {
    pub token: String,
    pub started: bool,
    pub host_player: String,
    pub turn: (Slot, Slot),
    pub map: Vec<Vec<char>>,
    pub members: Vec<Member>,
}

impl View for Player {
    type V = PlayerView;

    open spec fn view(&self) -> PlayerView {
        PlayerView { pseudo: self.infos.pseudo@, hosting: self.infos.hosting != 0 }
    }
}

impl View for Member {
    type V = MemberView;

    open spec fn view(&self) -> MemberView {
        MemberView { token: self.token@, slot: self.slot, character: self.character }
    }
}

impl View for Game {
    type V = GameView;

    open spec fn view(&self) -> GameView {
        GameView {
            started: self.started,
            host: self.host_player@,
            turn: self.turn,
            map: grid_view(self.map),
            members: Seq::new(self.members@.len(), |i: int| self.members@[i]@),
        }
    }
}

/// Whether `i` is a place in `players` that holds the token `t`.
pub open spec fn player_at(players: Seq<Player>, t: Seq<char>, i: int) -> bool {
    0 <= i < players.len() && players[i].token@ == t
}

/// Whether `i` is a place in `games` that holds the token `t`.
pub open spec fn game_at(games: Seq<Game>, t: Seq<char>, i: int) -> bool {
    0 <= i < games.len() && games[i].token@ == t
}

/// Whether no two of the players have the same token.
pub open spec fn distinct_players(players: Seq<Player>) -> bool {
    forall|i: int, j: int|
        0 <= i < players.len() && 0 <= j < players.len() && (#[trigger] players[i]).token@ == (
        #[trigger] players[j]).token@ ==> i == j
}

/// Whether no two of the games have the same token.
pub open spec fn distinct_games(games: Seq<Game>) -> bool {
    forall|i: int, j: int|
        0 <= i < games.len() && 0 <= j < games.len() && (#[trigger] games[i]).token@ == (
        #[trigger] games[j]).token@ ==> i == j
}

/// The players by token.
pub open spec fn players_map(players: Seq<Player>) -> Map<Seq<char>, PlayerView> {
    Map::new(
        |t: Seq<char>| exists|i: int| player_at(players, t, i),
        |t: Seq<char>| players[choose|i: int| player_at(players, t, i)]@,
    )
}

/// The games by token.
pub open spec fn games_map(games: Seq<Game>) -> Map<Seq<char>, GameView> {
    Map::new(
        |t: Seq<char>| exists|i: int| game_at(games, t, i),
        |t: Seq<char>| games[choose|i: int| game_at(games, t, i)]@,
    )
}

/// A player is found under its token.
pub proof fn lemma_player_lookup(players: Seq<Player>, i: int)
    requires
        distinct_players(players),
        0 <= i < players.len(),
    ensures
        players_map(players).contains_key(players[i].token@),
        players_map(players)[players[i].token@] == players[i]@,
{
    let t = players[i].token@;
    assert(player_at(players, t, i));
    let k = choose|k: int| player_at(players, t, k);
    assert(k == i);
}

/// One player more is one entry more.
pub proof fn lemma_player_added(players: Seq<Player>, p: Player)
    requires
        distinct_players(players),
        !players_map(players).contains_key(p.token@),
    ensures
        distinct_players(players.push(p)),
        players_map(players.push(p)) == players_map(players).insert(p.token@, p@),
{
    let more = players.push(p);
    assert forall|i: int, j: int|
        0 <= i < more.len() && 0 <= j < more.len() && (#[trigger] more[i]).token@ == (
        #[trigger] more[j]).token@ implies i == j by {
        if i < players.len() {
            assert(player_at(players, more[i].token@, i));
        }
        if j < players.len() {
            assert(player_at(players, more[j].token@, j));
        }
    }
    assert forall|t: Seq<char>| #[trigger]
        players_map(more).contains_key(t) == players_map(players).insert(p.token@, p@).contains_key(
            t,
        ) by {
        if exists|i: int| player_at(more, t, i) {
            let i = choose|i: int| player_at(more, t, i);
            if i < players.len() {
                assert(player_at(players, t, i));
            }
        }
        if exists|i: int| player_at(players, t, i) {
            let i = choose|i: int| player_at(players, t, i);
            assert(player_at(more, t, i));
        }
        if t == p.token@ {
            assert(player_at(more, t, players.len() as int));
        }
    }
    assert forall|t: Seq<char>| #[trigger] players_map(more).contains_key(t) implies players_map(
        more,
    )[t] == players_map(players).insert(p.token@, p@)[t] by {
        let i = choose|i: int| player_at(more, t, i);
        if i < players.len() {
            assert(player_at(players, t, i));
            lemma_player_lookup(players, i);
        } else {
            assert(t == p.token@);
        }
    }
    assert(players_map(more) =~= players_map(players).insert(p.token@, p@));
}

/// A player replaced under the same token is an entry replaced.
pub proof fn lemma_player_replaced(players: Seq<Player>, i: int, p: Player)
    requires
        distinct_players(players),
        0 <= i < players.len(),
        p.token@ == players[i].token@,
    ensures
        distinct_players(players.update(i, p)),
        players_map(players.update(i, p)) == players_map(players).insert(p.token@, p@),
{
    let next = players.update(i, p);
    assert forall|a: int, b: int|
        0 <= a < next.len() && 0 <= b < next.len() && (#[trigger] next[a]).token@ == (
        #[trigger] next[b]).token@ implies a == b by {
        assert(next[a].token@ == players[a].token@);
        assert(next[b].token@ == players[b].token@);
    }
    assert forall|t: Seq<char>| #[trigger]
        players_map(next).contains_key(t) == players_map(players).insert(p.token@, p@).contains_key(
            t,
        ) by {
        if exists|k: int| player_at(next, t, k) {
            let k = choose|k: int| player_at(next, t, k);
            assert(player_at(players, t, k));
        }
        if exists|k: int| player_at(players, t, k) {
            let k = choose|k: int| player_at(players, t, k);
            assert(player_at(next, t, k));
        }
        if t == p.token@ {
            assert(player_at(next, t, i));
        }
    }
    assert forall|t: Seq<char>| #[trigger] players_map(next).contains_key(t) implies players_map(
        next,
    )[t] == players_map(players).insert(p.token@, p@)[t] by {
        let k = choose|k: int| player_at(next, t, k);
        assert(player_at(players, t, k));
        if k != i {
            lemma_player_lookup(players, k);
        }
    }
    assert(players_map(next) =~= players_map(players).insert(p.token@, p@));
}

/// A game is found under its token.
pub proof fn lemma_game_lookup(games: Seq<Game>, i: int)
    requires
        distinct_games(games),
        0 <= i < games.len(),
    ensures
        games_map(games).contains_key(games[i].token@),
        games_map(games)[games[i].token@] == games[i]@,
{
    let t = games[i].token@;
    assert(game_at(games, t, i));
    let k = choose|k: int| game_at(games, t, k);
    assert(k == i);
}

/// One game more is one entry more.
pub proof fn lemma_game_added(games: Seq<Game>, g: Game)
    requires
        distinct_games(games),
        !games_map(games).contains_key(g.token@),
    ensures
        distinct_games(games.push(g)),
        games_map(games.push(g)) == games_map(games).insert(g.token@, g@),
{
    let more = games.push(g);
    assert forall|i: int, j: int|
        0 <= i < more.len() && 0 <= j < more.len() && (#[trigger] more[i]).token@ == (
        #[trigger] more[j]).token@ implies i == j by {
        if i < games.len() {
            assert(game_at(games, more[i].token@, i));
        }
        if j < games.len() {
            assert(game_at(games, more[j].token@, j));
        }
    }
    assert forall|t: Seq<char>| #[trigger]
        games_map(more).contains_key(t) == games_map(games).insert(g.token@, g@).contains_key(t) by {
        if exists|i: int| game_at(more, t, i) {
            let i = choose|i: int| game_at(more, t, i);
            if i < games.len() {
                assert(game_at(games, t, i));
            }
        }
        if exists|i: int| game_at(games, t, i) {
            let i = choose|i: int| game_at(games, t, i);
            assert(game_at(more, t, i));
        }
        if t == g.token@ {
            assert(game_at(more, t, games.len() as int));
        }
    }
    assert forall|t: Seq<char>| #[trigger] games_map(more).contains_key(t) implies games_map(more)[t]
        == games_map(games).insert(g.token@, g@)[t] by {
        let i = choose|i: int| game_at(more, t, i);
        if i < games.len() {
            assert(game_at(games, t, i));
            lemma_game_lookup(games, i);
        } else {
            assert(t == g.token@);
        }
    }
    assert(games_map(more) =~= games_map(games).insert(g.token@, g@));
}

/// A game replaced under the same token is an entry replaced.
pub proof fn lemma_game_replaced(games: Seq<Game>, i: int, g: Game)
    requires
        distinct_games(games),
        0 <= i < games.len(),
        g.token@ == games[i].token@,
    ensures
        distinct_games(games.update(i, g)),
        games_map(games.update(i, g)) == games_map(games).insert(g.token@, g@),
{
    let next = games.update(i, g);
    assert forall|a: int, b: int|
        0 <= a < next.len() && 0 <= b < next.len() && (#[trigger] next[a]).token@ == (
        #[trigger] next[b]).token@ implies a == b by {
        assert(next[a].token@ == games[a].token@);
        assert(next[b].token@ == games[b].token@);
    }
    assert forall|t: Seq<char>| #[trigger]
        games_map(next).contains_key(t) == games_map(games).insert(g.token@, g@).contains_key(t) by {
        if exists|k: int| game_at(next, t, k) {
            let k = choose|k: int| game_at(next, t, k);
            assert(game_at(games, t, k));
        }
        if exists|k: int| game_at(games, t, k) {
            let k = choose|k: int| game_at(games, t, k);
            assert(game_at(next, t, k));
        }
        if t == g.token@ {
            assert(game_at(next, t, i));
        }
    }
    assert forall|t: Seq<char>| #[trigger] games_map(next).contains_key(t) implies games_map(next)[t]
        == games_map(games).insert(g.token@, g@)[t] by {
        let k = choose|k: int| game_at(next, t, k);
        assert(game_at(games, t, k));
        if k != i {
            lemma_game_lookup(games, k);
        }
    }
    assert(games_map(next) =~= games_map(games).insert(g.token@, g@));
}

} // verus!
