//! The turn resolver: whether a move or an attack is legal on a map, and
//! what it does to the map.

use vstd::prelude::*;
use crate::map::{
    at_most_one, check_grid, grid_view, in_bounds, is_cell, is_grid, is_marker, is_obstacle,
    known_cells,
    lemma_rows_hold_no_newline, lemma_text_round_trip, map_string_to_vec, map_vec_to_string,
    newline_free, open_borders, put, rows_of, text_of, Point, EMPTY, ROW_END, SLOT_ONE, SLOT_TWO,
};
use crate::path::{astar, is_free, lemma_reach_ends_free, reach};
use crate::response::GamePlayerInfos;
use crate::text::chars_of;

verus! {

/// A player as the store knows it: the display name and whether the player
/// hosts a game (1) or not (0).
#[derive(Debug)]
pub struct PlayerInfos {
    pub pseudo: String,
    pub hosting: u8,
}

impl Clone for PlayerInfos {
    fn clone(&self) -> (copy: Self)
        ensures
            copy == *self,
    {
        PlayerInfos { pseudo: self.pseudo.clone(), hosting: self.hosting }
    }
}

/// Whether (`x1`, `y1`) comes before (`x2`, `y2`) when the grid is read row
/// by row, each row from the left.
pub open spec fn reads_before(x1: int, y1: int, x2: int, y2: int) -> bool {
    y1 < y2 || (y1 == y2 && x1 < x2)
}

/// Whether (`x`, `y`) is the first cell, in reading order, that holds `c`.
pub open spec fn is_first(rows: Seq<Seq<char>>, c: char, x: int, y: int) -> bool {
    &&& in_bounds(rows, x, y)
    &&& rows[y][x] == c
    &&& forall|i: int, j: int|
        in_bounds(rows, i, j) && reads_before(i, j, x, y) ==> #[trigger] rows[j][i] != c
}

/// Whether some cell holds `c`.
pub open spec fn occurs(rows: Seq<Seq<char>>, c: char) -> bool {
    exists|x: int, y: int| in_bounds(rows, x, y) && #[trigger] rows[y][x] == c
}

/// Where the marker `c` stands: the first cell that holds it, if any does.
pub open spec fn marker_position(rows: Seq<Seq<char>>, c: char) -> Option<(int, int)> {
    if exists|x: int, y: int| is_first(rows, c, x, y) {
        Some(choose|x: int, y: int| is_first(rows, c, x, y))
    } else {
        None
    }
}

/// Only one cell is the first to hold `c`.
pub proof fn lemma_first_is_unique(rows: Seq<Seq<char>>, c: char, x1: int, y1: int, x2: int, y2: int)
    requires
        is_first(rows, c, x1, y1),
        is_first(rows, c, x2, y2),
    ensures
        x1 == x2 && y1 == y2,
{
    if reads_before(x1, y1, x2, y2) {
        assert(rows[y1][x1] != c);
    }
    if reads_before(x2, y2, x1, y1) {
        assert(rows[y2][x2] != c);
    }
}

/// The first cell of `map` that holds `marker`, as column and row.
pub fn find_marker(map: &Vec<Vec<char>>, marker: char) -> (found: Option<(usize, usize)>)
    ensures
        match found {
            Some((x, y)) => marker_position(grid_view(*map), marker) == Some((x as int, y as int))
                && is_first(grid_view(*map), marker, x as int, y as int),
            None => marker_position(grid_view(*map), marker).is_none() && !occurs(
                grid_view(*map),
                marker,
            ),
        },
{
    let ghost rows = grid_view(*map);
    let mut y: usize = 0;
    while y < map.len()
        invariant
            y <= map.len(),
            rows == grid_view(*map),
            forall|i: int, j: int| in_bounds(rows, i, j) && j < y ==> #[trigger] rows[j][i] != marker,
        decreases map.len() - y,
    {
        let mut x: usize = 0;
        while x < map[y].len()
            invariant
                y < map.len(),
                x <= map[y as int].len(),
                rows == grid_view(*map),
                forall|i: int, j: int| in_bounds(rows, i, j) && j < y ==> #[trigger] rows[j][i] != marker,
                forall|i: int| 0 <= i < x ==> #[trigger] rows[y as int][i] != marker,
            decreases map[y as int].len() - x,
        {
            if map[y][x] == marker {
                proof {
                    assert(is_first(rows, marker, x as int, y as int));
                    let (cx, cy) = choose|cx: int, cy: int| is_first(rows, marker, cx, cy);
                    lemma_first_is_unique(rows, marker, cx, cy, x as int, y as int);
                }
                return Some((x, y));
            }
            x += 1;
        }
        y += 1;
    }
    proof {
        assert forall|i: int, j: int| in_bounds(rows, i, j) implies #[trigger] rows[j][i] != marker by {}
    }
    None
}

/// Whether the player whose marker is `marker` may move to column `dx`, row
/// `dy`: the rows are a grid, the cell is on it, and a path of at most
/// `speed` steps leads there from the marker.
pub open spec fn can_move(rows: Seq<Seq<char>>, marker: char, dx: int, dy: int, speed: nat) -> bool {
    &&& is_grid(rows)
    &&& is_marker(marker)
    &&& in_bounds(rows, dx, dy)
    &&& match marker_position(rows, marker) {
        Some((sx, sy)) => reach(rows, sx, sy, dx, dy, speed),
        None => false,
    }
}

/// The rows after the marker has moved to column `dx`, row `dy`.
pub open spec fn moved_rows(rows: Seq<Seq<char>>, marker: char, dx: int, dy: int) -> Seq<Seq<char>> {
    match marker_position(rows, marker) {
        Some((sx, sy)) => put(put(rows, sx, sy, EMPTY), dx, dy, marker),
        None => rows,
    }
}

/// Moves `marker` to `dest` if that is a legal move, and says whether it was.
pub fn move_marker(map: &mut Vec<Vec<char>>, marker: char, dest: Point, speed: u8) -> (moved: bool)
    ensures
        moved == can_move(grid_view(*old(map)), marker, dest.0 as int, dest.1 as int, speed as nat),
        grid_view(*final(map)) == if moved {
            moved_rows(grid_view(*old(map)), marker, dest.0 as int, dest.1 as int)
        } else {
            grid_view(*old(map))
        },
{
    let ghost rows = grid_view(*map);
    if !check_grid(map) || !(marker == SLOT_ONE || marker == SLOT_TWO) {
        return false;
    }
    if dest.0 < 0 || dest.1 < 0 {
        return false;
    }
    let dx = dest.0 as usize;
    let dy = dest.1 as usize;
    if dy >= map.len() {
        return false;
    }
    assert(rows[dy as int].len() == rows[0].len());
    if dx >= map[0].len() {
        return false;
    }
    match find_marker(map, marker) {
        None => false,
        Some((sx, sy)) => {
            assert(rows[sy as int].len() == rows[0].len());
            let start = Point(sx as i16, sy as i16);
            let cost = astar(map, start, &dest, speed);
            if cost < 0 {
                return false;
            }
            set_cell(map, sx, sy, EMPTY);
            assert(grid_view(*map)[dy as int].len() == rows[0].len());
            set_cell(map, dx, dy, marker);
            true
        },
    }
}

/// Writes `c` into the cell at column `x`, row `y`.
pub fn set_cell(map: &mut Vec<Vec<char>>, x: usize, y: usize, c: char)
    requires
        in_bounds(grid_view(*old(map)), x as int, y as int),
    ensures
        grid_view(*final(map)) == put(grid_view(*old(map)), x as int, y as int, c),
{
    let ghost rows = grid_view(*map);
    map[y][x] = c;
    assert(grid_view(*map) =~= put(rows, x as int, y as int, c));
}

/// Where a legal move ends, the marker stands on a cell of the grid that was
/// empty or was its own, and the grid keeps its shape. No other cell
/// changes but the one the marker left.
pub proof fn lemma_move_lands_on_free_cell(rows: Seq<Seq<char>>, marker: char, dx: int, dy: int, speed: nat)
    requires
        can_move(rows, marker, dx, dy, speed),
    ensures
        is_grid(moved_rows(rows, marker, dx, dy)),
        moved_rows(rows, marker, dx, dy).len() == rows.len(),
        moved_rows(rows, marker, dx, dy)[0].len() == rows[0].len(),
        in_bounds(moved_rows(rows, marker, dx, dy), dx, dy),
        moved_rows(rows, marker, dx, dy)[dy][dx] == marker,
        rows[dy][dx] == EMPTY || marker_position(rows, marker) == Some((dx, dy)),
        forall|x: int, y: int|
            in_bounds(rows, x, y) && !(x == dx && y == dy) && marker_position(rows, marker) != Some(
                (x, y),
            ) ==> #[trigger] moved_rows(rows, marker, dx, dy)[y][x] == rows[y][x],
        marker_position(rows, marker) != Some((dx, dy)) ==> moved_rows(rows, marker, dx, dy)[marker_position(
            rows,
            marker,
        ).unwrap().1][marker_position(rows, marker).unwrap().0] == EMPTY,
{
    let (sx, sy) = marker_position(rows, marker).unwrap();
    assert(is_first(rows, marker, sx, sy));
    lemma_reach_ends_free(rows, sx, sy, dx, dy, speed);
    let cleared = put(rows, sx, sy, EMPTY);
    let after = put(cleared, dx, dy, marker);
    assert(after == moved_rows(rows, marker, dx, dy));
    assert forall|y: int| 0 <= y < after.len() implies (#[trigger] after[y]).len() == after[0].len() by {
        assert(rows[y].len() == rows[0].len());
        assert(rows[sy].len() == rows[0].len());
        assert(rows[dy].len() == rows[0].len());
    }
}

/// A legal move keeps the shape of the grid, leaves no marker twice on a
/// map that had none twice, and keeps the borders open and the cells cell
/// codes where they were.
pub proof fn lemma_move_keeps_markers(rows: Seq<Seq<char>>, marker: char, dx: int, dy: int, speed: nat)
    requires
        can_move(rows, marker, dx, dy, speed),
        at_most_one(rows, SLOT_ONE),
        at_most_one(rows, SLOT_TWO),
    ensures
        is_grid(moved_rows(rows, marker, dx, dy)),
        moved_rows(rows, marker, dx, dy).len() == rows.len(),
        moved_rows(rows, marker, dx, dy)[0].len() == rows[0].len(),
        at_most_one(moved_rows(rows, marker, dx, dy), SLOT_ONE),
        at_most_one(moved_rows(rows, marker, dx, dy), SLOT_TWO),
        open_borders(rows) ==> open_borders(moved_rows(rows, marker, dx, dy)),
        known_cells(rows) ==> known_cells(moved_rows(rows, marker, dx, dy)),
{
    lemma_move_lands_on_free_cell(rows, marker, dx, dy, speed);
    let after = moved_rows(rows, marker, dx, dy);
    let (sx, sy) = marker_position(rows, marker).unwrap();
    assert(is_first(rows, marker, sx, sy));
    assert(rows[sy].len() == rows[0].len());
    assert(rows[dy].len() == rows[0].len());
    if known_cells(rows) {
        assert forall|x: int, y: int| in_bounds(after, x, y) implies is_cell(#[trigger] after[y][x]) by {
            assert(rows[y].len() == rows[0].len());
            assert(is_cell(rows[y][x]));
        }
    }
    if open_borders(rows) {
        assert forall|x: int, y: int| in_bounds(after, x, y) && (y == 0 || y == after.len() - 1)
            implies !is_obstacle(#[trigger] after[y][x]) by {
            assert(rows[y].len() == rows[0].len());
            assert(!is_obstacle(rows[y][x]));
        }
    }
    assert forall|c: char| is_marker(c) && at_most_one(rows, c) implies at_most_one(after, c) by {
        assert forall|x1: int, y1: int, x2: int, y2: int|
            in_bounds(after, x1, y1) && in_bounds(after, x2, y2) && #[trigger] after[y1][x1] == c
                && #[trigger] after[y2][x2] == c implies x1 == x2 && y1 == y2 by {
            assert(rows[y1].len() == rows[0].len());
            assert(rows[y2].len() == rows[0].len());
            assert(in_bounds(rows, x1, y1));
            assert(in_bounds(rows, x2, y2));
            if c == marker {
                if !(x1 == dx && y1 == dy) {
                    assert(!(x1 == sx && y1 == sy));
                    assert(rows[y1][x1] == c);
                    assert(rows[sy][sx] == c);
                }
                if !(x2 == dx && y2 == dy) {
                    assert(!(x2 == sx && y2 == sy));
                    assert(rows[y2][x2] == c);
                    assert(rows[sy][sx] == c);
                }
            } else {
                assert(!(x1 == dx && y1 == dy));
                assert(!(x2 == dx && y2 == dy));
                assert(!(x1 == sx && y1 == sy));
                assert(!(x2 == sx && y2 == sy));
                assert(rows[y1][x1] == c);
                assert(rows[y2][x2] == c);
            }
        }
    }
}

/// A blow keeps the shape of the grid, leaves no marker twice on a map that
/// had none twice, and keeps the borders open and the cells cell codes where
/// they were.
pub proof fn lemma_blow_keeps_markers(rows: Seq<Seq<char>>, tx: int, ty: int, hp: u8, attack_power: u8)
    requires
        is_grid(rows),
        in_bounds(rows, tx, ty),
        at_most_one(rows, SLOT_ONE),
        at_most_one(rows, SLOT_TWO),
    ensures
        is_grid(rows_after_blow(rows, tx, ty, hp, attack_power)),
        rows_after_blow(rows, tx, ty, hp, attack_power).len() == rows.len(),
        rows_after_blow(rows, tx, ty, hp, attack_power)[0].len() == rows[0].len(),
        at_most_one(rows_after_blow(rows, tx, ty, hp, attack_power), SLOT_ONE),
        at_most_one(rows_after_blow(rows, tx, ty, hp, attack_power), SLOT_TWO),
        open_borders(rows) ==> open_borders(rows_after_blow(rows, tx, ty, hp, attack_power)),
        known_cells(rows) ==> known_cells(rows_after_blow(rows, tx, ty, hp, attack_power)),
{
    let after = rows_after_blow(rows, tx, ty, hp, attack_power);
    assert(rows[ty].len() == rows[0].len());
    if known_cells(rows) {
        assert forall|x: int, y: int| in_bounds(after, x, y) implies is_cell(#[trigger] after[y][x]) by {
            assert(rows[y].len() == rows[0].len());
            assert(is_cell(rows[y][x]));
        }
    }
    if open_borders(rows) {
        assert forall|x: int, y: int| in_bounds(after, x, y) && (y == 0 || y == after.len() - 1)
            implies !is_obstacle(#[trigger] after[y][x]) by {
            assert(rows[y].len() == rows[0].len());
            assert(!is_obstacle(rows[y][x]));
        }
    }
    assert forall|y: int| 0 <= y < after.len() implies (#[trigger] after[y]).len() == after[0].len() by {
        assert(rows[y].len() == rows[0].len());
    }
    assert forall|c: char| is_marker(c) && at_most_one(rows, c) implies at_most_one(after, c) by {
        assert forall|x1: int, y1: int, x2: int, y2: int|
            in_bounds(after, x1, y1) && in_bounds(after, x2, y2) && #[trigger] after[y1][x1] == c
                && #[trigger] after[y2][x2] == c implies x1 == x2 && y1 == y2 by {
            assert(rows[y1].len() == rows[0].len());
            assert(rows[y2].len() == rows[0].len());
            assert(rows[y1][x1] == c);
            assert(rows[y2][x2] == c);
        }
    }
}

/// A move is legal exactly when the cost of a shortest path to the
/// destination is at most the move speed.
pub proof fn lemma_move_needs_short_path(rows: Seq<Seq<char>>, marker: char, dx: int, dy: int, speed: nat, cost: nat)
    requires
        is_grid(rows),
        is_marker(marker),
        in_bounds(rows, dx, dy),
        marker_position(rows, marker).is_some(),
        crate::path::is_path_cost(
            rows,
            marker_position(rows, marker).unwrap().0,
            marker_position(rows, marker).unwrap().1,
            dx,
            dy,
            cost,
        ),
    ensures
        can_move(rows, marker, dx, dy, speed) <==> cost <= speed,
{
    let (sx, sy) = marker_position(rows, marker).unwrap();
    if cost <= speed {
        crate::path::lemma_reach_monotone(rows, sx, sy, dx, dy, cost, speed);
    } else if reach(rows, sx, sy, dx, dy, speed) {
        crate::path::lemma_reach_monotone(rows, sx, sy, dx, dy, speed, (cost - 1) as nat);
    }
}

/// The text of a map after a legal move reads back as the rows after the move.
pub proof fn lemma_moved_text_reads_back(text: Seq<char>, marker: char, dx: int, dy: int, speed: nat)
    requires
        can_move(rows_of(text), marker, dx, dy, speed),
    ensures
        rows_of(text_of(moved_rows(rows_of(text), marker, dx, dy))) == moved_rows(rows_of(text), marker, dx, dy),
{
    let rows = rows_of(text);
    let after = moved_rows(rows, marker, dx, dy);
    lemma_rows_hold_no_newline(text);
    lemma_move_lands_on_free_cell(rows, marker, dx, dy, speed);
    let (sx, sy) = marker_position(rows, marker).unwrap();
    assert(is_first(rows, marker, sx, sy));
    assert forall|y: int, x: int| 0 <= y < after.len() && 0 <= x < after[y].len() implies after[y][x]
        != ROW_END by {
        assert(rows[y].len() == rows[0].len());
        assert(rows[sy].len() == rows[0].len());
        assert(rows[dy].len() == rows[0].len());
        assert(rows[y][x] != ROW_END);
    }
    assert(after.last().len() == after[0].len());
    lemma_text_round_trip(after);
}

/// The text of a map after a blow reads back as the rows after the blow.
pub proof fn lemma_struck_text_reads_back(text: Seq<char>, tx: int, ty: int, hp: u8, attack_power: u8)
    requires
        is_grid(rows_of(text)),
        in_bounds(rows_of(text), tx, ty),
    ensures
        rows_of(text_of(rows_after_blow(rows_of(text), tx, ty, hp, attack_power))) == rows_after_blow(
            rows_of(text),
            tx,
            ty,
            hp,
            attack_power,
        ),
{
    let rows = rows_of(text);
    let after = rows_after_blow(rows, tx, ty, hp, attack_power);
    lemma_rows_hold_no_newline(text);
    assert forall|y: int, x: int| 0 <= y < after.len() && 0 <= x < after[y].len() implies after[y][x]
        != ROW_END by {
        assert(rows[y].len() == rows[0].len());
        assert(rows[ty].len() == rows[0].len());
        assert(rows[y][x] != ROW_END);
    }
    assert(rows.last().len() == rows[0].len());
    assert(rows[ty].len() == rows[0].len());
    assert(after.last().len() == rows[0].len());
    lemma_text_round_trip(after);
}

/// Moves the player in slot `player_number` to `dest` on the map text if a
/// path of at most `character_ms` steps leads there, and says whether it did.
/// An illegal move leaves the text as it was.
pub fn reach_destination(map: &mut String, player_number: String, dest: Point, character_ms: u8) -> (reached:
    bool)
    ensures
        reached == (player_number@.len() == 1 && can_move(
            rows_of(old(map)@),
            player_number@[0],
            dest.0 as int,
            dest.1 as int,
            character_ms as nat,
        )),
        final(map)@ == if reached {
            text_of(moved_rows(rows_of(old(map)@), player_number@[0], dest.0 as int, dest.1 as int))
        } else {
            old(map)@
        },
{
    let slot = chars_of(player_number.as_str());
    if slot.len() != 1 {
        return false;
    }
    let mut map_vec = map_string_to_vec(map.as_str());
    if !move_marker(&mut map_vec, slot[0], dest, character_ms) {
        return false;
    }
    *map = map_vec_to_string(map_vec);
    true
}

/// The larger of the two distances, along the columns and along the rows.
pub open spec fn chebyshev(ax: int, ay: int, bx: int, by: int) -> int {
    let dx = if ax >= bx { ax - bx } else { bx - ax };
    let dy = if ay >= by { ay - by } else { by - ay };
    if dx >= dy { dx } else { dy }
}

/// The marker that an attack by `marker` on column `tx`, row `ty` hits: the
/// rows are a grid, the target is on it and no further from the attacker
/// than `range`, and it holds the other slot's marker.
pub open spec fn aimed_marker(rows: Seq<Seq<char>>, marker: char, tx: int, ty: int, range: nat) -> Option<char> {
    if is_grid(rows) && is_marker(marker) && in_bounds(rows, tx, ty) {
        match marker_position(rows, marker) {
            Some((sx, sy)) => if chebyshev(sx, sy, tx, ty) <= range && is_marker(rows[ty][tx])
                && rows[ty][tx] != marker {
                Some(rows[ty][tx])
            } else {
                None
            },
            None => None,
        }
    } else {
        None
    }
}

/// The marker that an attack by `marker` on `target` hits, if the attack is legal.
pub fn aim(map: &Vec<Vec<char>>, marker: char, target: Point, range: u8) -> (hit: Option<char>)
    ensures
        hit == aimed_marker(grid_view(*map), marker, target.0 as int, target.1 as int, range as nat),
{
    let ghost rows = grid_view(*map);
    if !check_grid(map) || !(marker == SLOT_ONE || marker == SLOT_TWO) {
        return None;
    }
    if target.0 < 0 || target.1 < 0 {
        return None;
    }
    let tx = target.0 as usize;
    let ty = target.1 as usize;
    if ty >= map.len() {
        return None;
    }
    assert(rows[ty as int].len() == rows[0].len());
    if tx >= map[0].len() {
        return None;
    }
    match find_marker(map, marker) {
        None => None,
        Some((sx, sy)) => {
            let across = if sx >= tx { sx - tx } else { tx - sx };
            let down = if sy >= ty { sy - ty } else { ty - sy };
            let distance = if across >= down { across } else { down };
            let cell = map[ty][tx];
            if distance <= range as usize && (cell == SLOT_ONE || cell == SLOT_TWO) && cell != marker {
                Some(cell)
            } else {
                None
            }
        },
    }
}

/// The hit points left after a blow: never below zero.
pub open spec fn hp_after(hp: u8, attack_power: u8) -> u8 {
    if hp >= attack_power {
        (hp - attack_power) as u8
    } else {
        0
    }
}

/// Whether `infos` is the record of the player whose marker is `c`.
pub open spec fn has_slot(infos: GamePlayerInfos, c: char) -> bool {
    infos.player_num@ == seq![c]
}

/// Whether `i` is the first record of `enemies` with the marker `c`.
pub open spec fn is_first_with_slot(enemies: Seq<GamePlayerInfos>, c: char, i: int) -> bool {
    &&& 0 <= i < enemies.len()
    &&& has_slot(enemies[i], c)
    &&& forall|j: int| 0 <= j < i ==> !has_slot(#[trigger] enemies[j], c)
}

/// The place in `enemies` of the first record with the marker `c`.
pub open spec fn enemy_index(enemies: Seq<GamePlayerInfos>, c: char) -> Option<int> {
    if exists|i: int| is_first_with_slot(enemies, c, i) {
        Some(choose|i: int| is_first_with_slot(enemies, c, i))
    } else {
        None
    }
}

/// The place in `enemies` of the first record with the marker `c`.
pub fn find_enemy(enemies: &Vec<GamePlayerInfos>, c: char) -> (found: Option<usize>)
    ensures
        match found {
            Some(i) => enemy_index(enemies@, c) == Some(i as int) && is_first_with_slot(enemies@, c, i as int),
            None => enemy_index(enemies@, c).is_none(),
        },
{
    let mut i: usize = 0;
    while i < enemies.len()
        invariant
            i <= enemies.len(),
            forall|j: int| 0 <= j < i ==> !has_slot(#[trigger] enemies@[j], c),
        decreases enemies.len() - i,
    {
        let slot = chars_of(enemies[i].player_num.as_str());
        if slot.len() == 1 && slot[0] == c {
            proof {
                assert(slot@ =~= seq![c]);
                assert(is_first_with_slot(enemies@, c, i as int));
                let k = choose|k: int| is_first_with_slot(enemies@, c, k);
                if k < i {
                    assert(!has_slot(enemies@[k], c));
                }
                if i < k {
                    assert(!has_slot(enemies@[i as int], c));
                }
            }
            return Some(i);
        }
        proof {
            if has_slot(enemies@[i as int], c) {
                assert(slot@.len() == 1);
                assert(slot@[0] == seq![c][0]);
            }
        }
        i += 1;
    }
    None
}

/// Whom an attack hits, by place in `enemies`: the attack is legal and a
/// record of `enemies` has the marker that stands on the target.
pub open spec fn attack_victim(
    rows: Seq<Seq<char>>,
    marker: char,
    enemies: Seq<GamePlayerInfos>,
    tx: int,
    ty: int,
    range: nat,
) -> Option<int> {
    match aimed_marker(rows, marker, tx, ty, range) {
        Some(c) => enemy_index(enemies, c),
        None => None,
    }
}

/// The rows after a blow on column `tx`, row `ty`: the marker there leaves
/// the map if and only if no hit point is left.
pub open spec fn rows_after_blow(rows: Seq<Seq<char>>, tx: int, ty: int, hp: u8, attack_power: u8) -> Seq<Seq<char>> {
    if hp as int - attack_power as int <= 0 {
        put(rows, tx, ty, EMPTY)
    } else {
        rows
    }
}

/// Resolves an attack of the player in slot `player_num` on `target`, with
/// `player_stats` holding the attack power and the range. A legal attack
/// that hits a player of `enemy_vec` returns that player's slot and the hit
/// points left, and takes the marker off the map when none is left. Any other
/// attack returns nothing and leaves the text as it was.
pub fn player_attack(
    map: &mut String,
    player_num: String,
    enemy_vec: Vec<GamePlayerInfos>,
    target: Point,
    player_stats: (u8, u8),
) -> (outcome: Option<(String, u8)>)
    ensures
        match if player_num@.len() == 1 {
            attack_victim(
                rows_of(old(map)@),
                player_num@[0],
                enemy_vec@,
                target.0 as int,
                target.1 as int,
                player_stats.1 as nat,
            )
        } else {
            None
        } {
            Some(i) => outcome.is_some() && outcome.unwrap().0@ == enemy_vec@[i].player_num@
                && outcome.unwrap().1 == hp_after(enemy_vec@[i].stats.1, player_stats.0) && final(map)@
                == text_of(
                rows_after_blow(
                    rows_of(old(map)@),
                    target.0 as int,
                    target.1 as int,
                    enemy_vec@[i].stats.1,
                    player_stats.0,
                ),
            ),
            None => outcome.is_none() && final(map)@ == old(map)@,
        },
{
    let slot = chars_of(player_num.as_str());
    if slot.len() != 1 {
        return None;
    }
    let mut map_vec = map_string_to_vec(map.as_str());
    let ghost rows = grid_view(map_vec);
    let hit = match aim(&map_vec, slot[0], target, player_stats.1) {
        Some(c) => c,
        None => {
            return None;
        },
    };
    let i = match find_enemy(&enemy_vec, hit) {
        Some(i) => i,
        None => {
            return None;
        },
    };
    let hp = enemy_vec[i].stats.1;
    let left = if hp >= player_stats.0 { hp - player_stats.0 } else { 0 };
    if left == 0 {
        set_cell(&mut map_vec, target.0 as usize, target.1 as usize, EMPTY);
    }
    *map = map_vec_to_string(map_vec);
    Some((enemy_vec[i].player_num.clone(), left))
}

/// An attack succeeds only within range; the victim's hit points then go
/// down by the attack power, to zero at least, and the victim's marker leaves
/// the map if and only if the blow leaves no hit point.
pub proof fn lemma_attack_within_range(
    rows: Seq<Seq<char>>,
    marker: char,
    enemies: Seq<GamePlayerInfos>,
    tx: int,
    ty: int,
    range: nat,
    attack_power: u8,
)
    requires
        attack_victim(rows, marker, enemies, tx, ty, range).is_some(),
    ensures
        marker_position(rows, marker).is_some(),
        chebyshev(
            marker_position(rows, marker).unwrap().0,
            marker_position(rows, marker).unwrap().1,
            tx,
            ty,
        ) <= range,
        ({
            let victim = enemies[attack_victim(rows, marker, enemies, tx, ty, range).unwrap()];
            let after = rows_after_blow(rows, tx, ty, victim.stats.1, attack_power);
            &&& has_slot(victim, rows[ty][tx])
            &&& victim.stats.1 >= attack_power ==> hp_after(victim.stats.1, attack_power) == victim.stats.1
                - attack_power
            &&& victim.stats.1 < attack_power ==> hp_after(victim.stats.1, attack_power) == 0
            &&& after[ty][tx] == EMPTY <==> victim.stats.1 as int - attack_power as int <= 0
            &&& after[ty][tx] == rows[ty][tx] <==> victim.stats.1 as int - attack_power as int > 0
        }),
{
    let c = aimed_marker(rows, marker, tx, ty, range).unwrap();
    let i = enemy_index(enemies, c).unwrap();
    assert(is_first_with_slot(enemies, c, i));
}

} // verus!
