//! What holds of the session store whatever its state, and of every
//! sequence of operations on it.

use vstd::prelude::*;
use crate::action_check::{chebyshev, hp_after, marker_position};
use crate::map::{in_bounds, is_marker, GameDataType, Slot, EMPTY, SLOT_ONE, SLOT_TWO};
use crate::session::error::SessionError;
use crate::session::model::{
    act_result, add_game_result, add_player_result, choose_result, join_result, lemma_placed_markers,
    start_result, turn_result, GameView, StoreView, MAP_HEIGHT, MAP_WIDTH, TOKEN_LEN,
};

verus! {

/// A token under which a player was created is 36 characters long and was
/// no player's token before; from then on it is that player's.
pub proof fn lemma_new_player_token_is_fresh(s: StoreView, pseudo: Seq<char>, token: Seq<char>)
    requires
        add_player_result(s, pseudo, token).is_ok(),
    ensures
        token.len() == TOKEN_LEN,
        !s.players.contains_key(token),
        add_player_result(s, pseudo, token).unwrap().players.contains_key(token),
        add_player_result(s, pseudo, token).unwrap().players[token].pseudo == pseudo,
{
}

/// No operation takes a player out of the store.
pub proof fn lemma_players_stay(
    s: StoreView,
    known: Seq<char>,
    p: Seq<char>,
    g: Seq<char>,
    text: Seq<char>,
    first: Slot,
    map: Seq<Seq<char>>,
    action: GameDataType,
)
    requires
        s.players.contains_key(known),
    ensures
        add_player_result(s, text, p).is_ok() ==> add_player_result(s, text, p).unwrap().players.contains_key(
            known,
        ),
        add_game_result(s, p, g, first, map).is_ok() ==> add_game_result(
            s,
            p,
            g,
            first,
            map,
        ).unwrap().players.contains_key(known),
        join_result(s, p, g).is_ok() ==> join_result(s, p, g).unwrap().players.contains_key(known),
        choose_result(s, p, g, text).is_ok() ==> choose_result(s, p, g, text).unwrap().players.contains_key(
            known,
        ),
        start_result(s, p, g).is_ok() ==> start_result(s, p, g).unwrap().players.contains_key(known),
        turn_result(s, p, g, action).is_ok() ==> turn_result(s, p, g, action).unwrap().players.contains_key(
            known,
        ),
{
}

/// Two players created one after the other have different tokens.
pub proof fn lemma_player_tokens_differ(
    s: StoreView,
    pseudo1: Seq<char>,
    token1: Seq<char>,
    pseudo2: Seq<char>,
    token2: Seq<char>,
)
    requires
        add_player_result(s, pseudo1, token1).is_ok(),
        add_player_result(add_player_result(s, pseudo1, token1).unwrap(), pseudo2, token2).is_ok(),
    ensures
        token1 != token2,
        token1.len() == TOKEN_LEN,
        token2.len() == TOKEN_LEN,
{
}

/// A game that has not started and has two players refuses whoever asks to
/// join it, as full.
pub proof fn lemma_full_game_refuses(s: StoreView, p: Seq<char>, g: Seq<char>)
    requires
        s.players.contains_key(p),
        s.games.contains_key(g),
        !s.games[g].started,
        s.games[g].player_count() == 2,
    ensures
        join_result(s, p, g) == Err::<StoreView, SessionError>(SessionError::GameFull),
{
}

/// A game with fewer than two players does not start for its host: it is
/// not full. For any other player a game that has not started does not
/// start either, and says nothing.
pub proof fn lemma_start_needs_host_and_two(s: StoreView, p: Seq<char>, g: Seq<char>)
    requires
        s.players.contains_key(p),
        s.games.contains_key(g),
        !s.games[g].started,
    ensures
        s.games[g].host == p && s.games[g].player_count() < 2 ==> start_result(s, p, g) == Err::<
            StoreView,
            SessionError,
        >(SessionError::GameNotFull),
        s.games[g].host != p ==> start_result(s, p, g) == Err::<StoreView, SessionError>(
            SessionError::NotHost,
        ) && SessionError::NotHost.spec_status().is_none(),
{
}

/// Once a game has started, one slot has the turn and the other comes
/// next, and the map holds exactly two markers: that of slot 1 in the top
/// left corner and that of slot 2 in the bottom right corner. Nothing else
/// on the map has changed.
pub proof fn lemma_started_game(s: StoreView, p: Seq<char>, g: Seq<char>)
    requires
        s.wf(),
        start_result(s, p, g).is_ok(),
    ensures
        ({
            let before = s.games[g];
            let after = start_result(s, p, g).unwrap().games[g];
            &&& after.started
            &&& after.turn == before.turn
            &&& after.turn.0 != after.turn.1
            &&& after.members == before.members
            &&& after.map.len() == MAP_HEIGHT
            &&& after.map[0].len() == MAP_WIDTH
            &&& after.map[0][0] == SLOT_ONE
            &&& after.map[MAP_HEIGHT - 1][MAP_WIDTH - 1] == SLOT_TWO
            &&& forall|x: int, y: int|
                in_bounds(after.map, x, y) ==> (is_marker(#[trigger] after.map[y][x]) <==> (x == 0 && y
                    == 0) || (x == MAP_WIDTH - 1 && y == MAP_HEIGHT - 1))
            &&& forall|x: int, y: int|
                in_bounds(before.map, x, y) && !(x == 0 && y == 0) && !(x == MAP_WIDTH - 1 && y
                    == MAP_HEIGHT - 1) ==> #[trigger] after.map[y][x] == before.map[y][x]
        }),
{
    let before = s.games[g];
    assert(before.wf());
    lemma_placed_markers(before.map);
}

/// A move that the store accepts ends on a cell of the map that was empty
/// or was the mover's own, within the mover's move speed, and only the
/// mover's marker has moved.
pub proof fn lemma_accepted_move(game: GameView, i: int, dest: crate::map::Point)
    requires
        game.wf(),
        game.started,
        0 <= i < 2,
        act_result(game, i, GameDataType::Movement(dest)).is_ok(),
    ensures
        ({
            let after = act_result(game, i, GameDataType::Movement(dest)).unwrap();
            let marker = game.members[i].slot.spec_marker();
            let start = marker_position(game.map, marker);
            &&& in_bounds(after.map, dest.0 as int, dest.1 as int)
            &&& after.map[dest.1 as int][dest.0 as int] == marker
            &&& game.map[dest.1 as int][dest.0 as int] == EMPTY || start == Some(
                (dest.0 as int, dest.1 as int),
            )
            &&& start.is_some()
            &&& crate::path::reach(
                game.map,
                start.unwrap().0,
                start.unwrap().1,
                dest.0 as int,
                dest.1 as int,
                game.members[i].character.unwrap().ms as nat,
            )
            &&& forall|x: int, y: int|
                in_bounds(game.map, x, y) && !(x == dest.0 && y == dest.1) && start != Some((x, y))
                    ==> #[trigger] after.map[y][x] == game.map[y][x]
            &&& after.members == game.members
        }),
{
    let marker = game.members[i].slot.spec_marker();
    let speed = game.members[i].character.unwrap().ms as nat;
    crate::action_check::lemma_move_lands_on_free_cell(game.map, marker, dest.0 as int, dest.1 as int, speed);
}

/// An attack that the store accepts hits a target within the attacker's
/// range. The other player's hit points go down by the attacker's attack
/// power, to zero at least, and that player's marker leaves the map if and
/// only if the blow leaves no hit point. Nothing else changes but the turn.
pub proof fn lemma_accepted_attack(game: GameView, i: int, target: crate::map::Point)
    requires
        game.wf(),
        game.started,
        0 <= i < 2,
        act_result(game, i, GameDataType::Attack(target)).is_ok(),
    ensures
        ({
            let after = act_result(game, i, GameDataType::Attack(target)).unwrap();
            let me = game.members[i].character.unwrap();
            let foe = game.members[1 - i];
            let start = marker_position(game.map, game.members[i].slot.spec_marker());
            let tx = target.0 as int;
            let ty = target.1 as int;
            &&& start.is_some()
            &&& chebyshev(start.unwrap().0, start.unwrap().1, tx, ty) <= me.rng
            &&& game.map[ty][tx] == foe.slot.spec_marker()
            &&& after.members[i] == game.members[i]
            &&& after.members[1 - i].token == foe.token
            &&& after.members[1 - i].slot == foe.slot
            &&& after.members[1 - i].character.unwrap().hp == hp_after(foe.character.unwrap().hp, me.atk)
            &&& foe.character.unwrap().hp >= me.atk ==> after.members[1 - i].character.unwrap().hp
                == foe.character.unwrap().hp - me.atk
            &&& after.map[ty][tx] == EMPTY <==> foe.character.unwrap().hp as int - me.atk as int <= 0
            &&& after.map[ty][tx] == game.map[ty][tx] <==> foe.character.unwrap().hp as int - me.atk as int
                > 0
            &&& forall|x: int, y: int|
                in_bounds(game.map, x, y) && !(x == tx && y == ty) ==> #[trigger] after.map[y][x]
                    == game.map[y][x]
        }),
{
}

/// An attack from further away than the attacker's range is refused, and a
/// refused action changes nothing.
pub proof fn lemma_far_attack_is_refused(game: GameView, i: int, target: crate::map::Point)
    requires
        game.wf(),
        game.started,
        0 <= i < 2,
        game.members[i].slot == game.turn.0,
        game.members[i].character.is_some(),
        marker_position(game.map, game.members[i].slot.spec_marker()).is_some(),
        chebyshev(
            marker_position(game.map, game.members[i].slot.spec_marker()).unwrap().0,
            marker_position(game.map, game.members[i].slot.spec_marker()).unwrap().1,
            target.0 as int,
            target.1 as int,
        ) > game.members[i].character.unwrap().rng,
    ensures
        act_result(game, i, GameDataType::Attack(target)) == Err::<GameView, SessionError>(
            SessionError::IllegalAction,
        ),
        SessionError::IllegalAction.spec_status() == Some(crate::packet::status_codes::ERR_MAL_REQ),
{
}

/// Of two actions resolved one after the other in a game, the second is
/// the other slot's: the turn passes with every resolved action, and after
/// two of them the turn order is what it was.
pub proof fn lemma_turns_alternate(game: GameView, i: int, first: GameDataType, j: int, second: GameDataType)
    requires
        game.wf(),
        game.started,
        0 <= i < 2,
        0 <= j < 2,
        act_result(game, i, first).is_ok(),
        act_result(act_result(game, i, first).unwrap(), j, second).is_ok(),
    ensures
        j == 1 - i,
        game.members[i].slot == game.turn.0,
        game.members[j].slot == game.turn.1,
        game.members[j].slot != game.members[i].slot,
        act_result(game, i, first).unwrap().turn == (game.turn.1, game.turn.0),
        act_result(act_result(game, i, first).unwrap(), j, second).unwrap().turn == game.turn,
{
    let mid = act_result(game, i, first).unwrap();
    assert(mid.members[j].slot == game.members[j].slot);
}

/// Whoever does not have the turn is refused, and in silence.
pub proof fn lemma_out_of_turn_is_refused(game: GameView, i: int, action: GameDataType)
    requires
        game.members[i].slot != game.turn.0,
    ensures
        act_result(game, i, action) == Err::<GameView, SessionError>(SessionError::NotYourTurn),
        SessionError::NotYourTurn.spec_status().is_none(),
{
}

} // verus!
