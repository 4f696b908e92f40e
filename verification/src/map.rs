//! The grid map: cell codes, the row model, and the flat text form in which a
//! map travels (rows separated by a newline, one character per cell).

use vstd::prelude::*;
use crate::chance::random_index;
use crate::text::{chars_of, push_char};

verus! {

/// A cell nobody and nothing occupies.
pub const EMPTY: char = '0';

/// Obstacle: rock.
pub const ROCK: char = 'R';

/// Obstacle: water.
pub const WATER: char = 'W';

/// Obstacle: tree.
pub const TREE: char = 'T';

/// Marker of the player in slot 1.
pub const SLOT_ONE: char = '1';

/// Marker of the player in slot 2.
pub const SLOT_TWO: char = '2';

/// Separates two rows in the text form.
pub const ROW_END: char = '\n';

/// A cell position: column, then row, both counted from 0 at the top left.
#[derive(Clone, Copy, Debug, PartialEq, Eq, Structural)]
pub struct Point(pub i16, pub i16);

/// What a player asks for in a turn.
#[derive(Clone, Copy, Debug, PartialEq, Eq, Structural)]
pub enum GameDataType {
    Attack(Point),
    Movement(Point),
    Skip,
}

/// A player's place in a game: it fixes the marker on the map and the place
/// in the turn order.
#[derive(Clone, Copy, Debug, PartialEq, Eq, Structural)]
pub enum Slot {
    One,
    Two,
}

impl Slot {
    /// The marker of the slot on the map.
    pub open spec fn spec_marker(self) -> char {
        match self {
            Slot::One => SLOT_ONE,
            Slot::Two => SLOT_TWO,
        }
    }

    /// The other of the two slots.
    pub open spec fn spec_other(self) -> Slot {
        match self {
            Slot::One => Slot::Two,
            Slot::Two => Slot::One,
        }
    }

    /// The slot as it is written in a message.
    pub open spec fn spec_label(self) -> Seq<char> {
        seq![self.spec_marker()]
    }

    /// The marker of the slot on the map.
    pub fn marker(&self) -> (c: char)
        ensures
            c == self.spec_marker(),
    {
        match self {
            Slot::One => SLOT_ONE,
            Slot::Two => SLOT_TWO,
        }
    }

    /// The other of the two slots.
    pub fn other(&self) -> (slot: Slot)
        ensures
            slot == self.spec_other(),
    {
        match self {
            Slot::One => Slot::Two,
            Slot::Two => Slot::One,
        }
    }

    /// The slot as it is written in a message: "1" or "2".
    pub fn label(&self) -> (text: String)
        ensures
            text@ == self.spec_label(),
    {
        let mut text = String::new();
        push_char(&mut text, self.marker());
        text
    }

    /// The slot whose marker is `c`.
    pub fn of_marker(c: char) -> (slot: Option<Slot>)
        ensures
            slot == if c == SLOT_ONE {
                Some(Slot::One)
            } else if c == SLOT_TWO {
                Some(Slot::Two)
            } else {
                None
            },
    {
        if c == SLOT_ONE {
            Some(Slot::One)
        } else if c == SLOT_TWO {
            Some(Slot::Two)
        } else {
            None
        }
    }
}

/// Whether a character is one of the two slot markers.
pub open spec fn is_marker(c: char) -> bool {
    c == SLOT_ONE || c == SLOT_TWO
}

/// The largest draw that stands for a cell code: there are four codes, from
/// empty to tree.
pub const LAST_DRAW: usize = 3;

/// Whether a character is one of the three obstacle codes.
pub open spec fn is_obstacle(c: char) -> bool {
    c == ROCK || c == WATER || c == TREE
}

/// Whether at most one cell of the rows holds `c`.
pub open spec fn at_most_one(rows: Seq<Seq<char>>, c: char) -> bool {
    forall|x1: int, y1: int, x2: int, y2: int|
        in_bounds(rows, x1, y1) && in_bounds(rows, x2, y2) && #[trigger] rows[y1][x1] == c
            && #[trigger] rows[y2][x2] == c ==> x1 == x2 && y1 == y2
}

/// Whether no cell of the rows holds a slot marker.
pub open spec fn no_marker(rows: Seq<Seq<char>>) -> bool {
    forall|x: int, y: int| in_bounds(rows, x, y) ==> !is_marker(#[trigger] rows[y][x])
}

/// Whether a character is a cell code: empty, an obstacle or a slot marker.
pub open spec fn is_cell(c: char) -> bool {
    c == EMPTY || is_obstacle(c) || is_marker(c)
}

/// Whether every cell of the rows holds a cell code.
pub open spec fn known_cells(rows: Seq<Seq<char>>) -> bool {
    forall|x: int, y: int| in_bounds(rows, x, y) ==> is_cell(#[trigger] rows[y][x])
}

/// Whether neither the top row nor the bottom row holds an obstacle.
pub open spec fn open_borders(rows: Seq<Seq<char>>) -> bool {
    forall|x: int, y: int|
        in_bounds(rows, x, y) && (y == 0 || y == rows.len() - 1) ==> !is_obstacle(#[trigger] rows[y][x])
}

/// The rows held by a vector of vectors.
pub open spec fn grid_view(cells: Vec<Vec<char>>) -> Seq<Seq<char>> {
    Seq::new(cells@.len(), |i: int| cells@[i]@)
}

/// The largest height and width of a grid: every cell has a `Point`.
pub const MAX_SIDE: usize = 32767;

/// A grid has at least one row and one column, all rows are equally wide, and
/// neither side is longer than `MAX_SIDE`.
pub open spec fn is_grid(rows: Seq<Seq<char>>) -> bool {
    &&& 1 <= rows.len() <= MAX_SIDE
    &&& 1 <= rows[0].len() <= MAX_SIDE
    &&& forall|y: int| 0 <= y < rows.len() ==> (#[trigger] rows[y]).len() == rows[0].len()
}

/// Whether column `x`, row `y` lies on the grid.
pub open spec fn in_bounds(rows: Seq<Seq<char>>, x: int, y: int) -> bool {
    0 <= y < rows.len() && 0 <= x < rows[y].len()
}

/// The grid with the cell at column `x`, row `y` replaced by `c`.
pub open spec fn put(rows: Seq<Seq<char>>, x: int, y: int, c: char) -> Seq<Seq<char>> {
    rows.update(y, rows[y].update(x, c))
}

/// A copy of the rows.
pub fn clone_rows(rows: &Vec<Vec<char>>) -> (copy: Vec<Vec<char>>)
    ensures
        grid_view(copy) == grid_view(*rows),
{
    let mut copy: Vec<Vec<char>> = Vec::new();
    let mut y: usize = 0;
    while y < rows.len()
        invariant
            y <= rows.len(),
            copy.len() == y,
            forall|j: int| 0 <= j < y ==> (#[trigger] copy@[j])@ == rows@[j]@,
        decreases rows.len() - y,
    {
        let mut row: Vec<char> = Vec::new();
        let mut x: usize = 0;
        while x < rows[y].len()
            invariant
                y < rows.len(),
                x <= rows@[y as int]@.len(),
                row@ == rows@[y as int]@.take(x as int),
            decreases rows[y as int].len() - x,
        {
            row.push(rows[y][x]);
            assert(rows@[y as int]@.take(x + 1) == rows@[y as int]@.take(x as int).push(rows@[y as int]@[x as int]));
            x += 1;
        }
        assert(rows@[y as int]@.take(x as int) == rows@[y as int]@);
        copy.push(row);
        y += 1;
    }
    assert(grid_view(copy) =~= grid_view(*rows));
    copy
}

/// Whether the rows form a grid.
pub fn check_grid(map_vec: &Vec<Vec<char>>) -> (ok: bool)
    ensures
        ok == is_grid(grid_view(*map_vec)),
{
    if map_vec.len() == 0 || map_vec.len() > MAX_SIDE {
        return false;
    }
    if map_vec[0].len() == 0 || map_vec[0].len() > MAX_SIDE {
        return false;
    }
    let ghost rows = grid_view(*map_vec);
    let width = map_vec[0].len();
    let mut y: usize = 0;
    while y < map_vec.len()
        invariant
            y <= map_vec.len(),
            rows == grid_view(*map_vec),
            width == rows[0].len(),
            forall|j: int| 0 <= j < y ==> (#[trigger] rows[j]).len() == width,
        decreases map_vec.len() - y,
    {
        if map_vec[y].len() != width {
            assert(rows[y as int].len() != rows[0].len());
            return false;
        }
        y += 1;
    }
    true
}

/// State of a left-to-right scan of a map text: the rows closed so far and
/// the row being read.
pub struct LineScan {
    pub rows: Seq<Seq<char>>,
    pub cur: Seq<char>,
}

/// One character more: a newline closes the current row, any other character
/// extends it.
pub open spec fn scan_step(st: LineScan, c: char) -> LineScan {
    if c == ROW_END {
        LineScan { rows: st.rows.push(st.cur), cur: Seq::empty() }
    } else {
        LineScan { rows: st.rows, cur: st.cur.push(c) }
    }
}

/// The scan state after the first `n` characters of `text`, started in `st`.
pub open spec fn scan_from(st: LineScan, text: Seq<char>, n: nat) -> LineScan
    decreases n,
{
    if n == 0 {
        st
    } else {
        scan_step(scan_from(st, text, (n - 1) as nat), text[n - 1])
    }
}

/// The rows of a map text. Rows end at a newline; a text that ends in a
/// newline has no further, empty row after it, and the empty text has no row.
pub open spec fn rows_of(text: Seq<char>) -> Seq<Seq<char>> {
    let st = scan_from(LineScan { rows: Seq::empty(), cur: Seq::empty() }, text, text.len());
    if st.cur.len() > 0 {
        st.rows.push(st.cur)
    } else {
        st.rows
    }
}

/// The text form of rows: the rows in order, a newline between two of them.
pub open spec fn text_of(rows: Seq<Seq<char>>) -> Seq<char>
    decreases rows.len(),
{
    if rows.len() == 0 {
        Seq::empty()
    } else if rows.len() == 1 {
        rows[0]
    } else {
        text_of(rows.drop_last()) + seq![ROW_END] + rows.last()
    }
}

/// Whether no cell of the rows holds a newline.
pub open spec fn newline_free(rows: Seq<Seq<char>>) -> bool {
    forall|y: int, x: int| 0 <= y < rows.len() && 0 <= x < rows[y].len() ==> rows[y][x] != ROW_END
}

/// No row that a scan closes or reads holds a newline.
pub proof fn lemma_scan_keeps_newlines_out(text: Seq<char>, n: nat)
    requires
        n <= text.len(),
    ensures
        newline_free(scan_from(LineScan { rows: Seq::empty(), cur: Seq::empty() }, text, n).rows),
        forall|x: int|
            0 <= x < scan_from(LineScan { rows: Seq::empty(), cur: Seq::empty() }, text, n).cur.len()
                ==> scan_from(LineScan { rows: Seq::empty(), cur: Seq::empty() }, text, n).cur[x] != ROW_END,
    decreases n,
{
    if n > 0 {
        lemma_scan_keeps_newlines_out(text, (n - 1) as nat);
    }
}

/// The rows of a text hold no newline.
pub proof fn lemma_rows_hold_no_newline(text: Seq<char>)
    ensures
        newline_free(rows_of(text)),
{
    lemma_scan_keeps_newlines_out(text, text.len());
}

/// A scan reads the first `n` characters and no others.
pub proof fn lemma_scan_reads_prefix(st: LineScan, a: Seq<char>, b: Seq<char>, n: nat)
    requires
        n <= a.len(),
        n <= b.len(),
        forall|i: int| 0 <= i < n ==> a[i] == b[i],
    ensures
        scan_from(st, a, n) == scan_from(st, b, n),
    decreases n,
{
    if n > 0 {
        lemma_scan_reads_prefix(st, a, b, (n - 1) as nat);
    }
}

/// Scanning two texts in a row is scanning the second from where the scan
/// of the first ended.
pub proof fn lemma_scan_in_two_parts(st: LineScan, a: Seq<char>, b: Seq<char>)
    ensures
        scan_from(st, a + b, a.len() + b.len()) == scan_from(scan_from(st, a, a.len()), b, b.len()),
    decreases b.len(),
{
    if b.len() == 0 {
        lemma_scan_reads_prefix(st, a + b, a, a.len());
    } else {
        let head = b.drop_last();
        lemma_scan_in_two_parts(st, a, head);
        lemma_scan_reads_prefix(st, a + b, a + head, a.len() + head.len());
        lemma_scan_reads_prefix(scan_from(st, a, a.len()), b, head, head.len());
        assert((a + b)[a.len() + b.len() - 1] == b[b.len() - 1]);
    }
}

/// Scanning a row without a newline extends the current row by it.
pub proof fn lemma_scan_of_row(st: LineScan, row: Seq<char>, n: nat)
    requires
        n <= row.len(),
        forall|i: int| 0 <= i < row.len() ==> row[i] != ROW_END,
    ensures
        scan_from(st, row, n) == (LineScan { rows: st.rows, cur: st.cur + row.take(n as int) }),
    decreases n,
{
    if n == 0 {
        assert(st.cur + row.take(0) =~= st.cur);
    } else {
        lemma_scan_of_row(st, row, (n - 1) as nat);
        assert(st.cur + row.take(n as int) =~= (st.cur + row.take(n - 1)).push(row[n - 1]));
    }
}

/// The scan of the text form of rows ends with all rows but the last closed
/// and the last row being read.
pub proof fn lemma_scan_of_text(rows: Seq<Seq<char>>)
    requires
        rows.len() >= 1,
        forall|y: int, x: int| 0 <= y < rows.len() && 0 <= x < rows[y].len() ==> rows[y][x] != ROW_END,
    ensures
        scan_from(
            LineScan { rows: Seq::empty(), cur: Seq::empty() },
            text_of(rows),
            text_of(rows).len(),
        ) == (LineScan { rows: rows.drop_last(), cur: rows.last() }),
    decreases rows.len(),
{
    let start = LineScan { rows: Seq::empty(), cur: Seq::empty() };
    let last = rows.last();
    assert forall|i: int| 0 <= i < last.len() implies last[i] != ROW_END by {
        assert(rows[rows.len() - 1][i] != ROW_END);
    }
    if rows.len() == 1 {
        lemma_scan_of_row(start, last, last.len());
        assert(last.take(last.len() as int) =~= last);
        assert(start.cur + last =~= last);
        assert(rows.drop_last() =~= start.rows);
    } else {
        let front = rows.drop_last();
        assert forall|y: int, x: int| 0 <= y < front.len() && 0 <= x < front[y].len() implies front[y][x]
            != ROW_END by {
            assert(rows[y][x] != ROW_END);
        }
        lemma_scan_of_text(front);
        let a = text_of(front);
        let nl = seq![ROW_END];
        let after_front = LineScan { rows: front.drop_last(), cur: front.last() };
        lemma_scan_in_two_parts(start, a + nl, last);
        lemma_scan_in_two_parts(start, a, nl);
        assert(scan_from(after_front, nl, 1) == scan_step(scan_from(after_front, nl, 0), nl[0]));
        let closed = LineScan { rows: front, cur: Seq::empty() };
        assert(front.drop_last().push(front.last()) =~= front);
        assert(scan_from(start, a + nl, a.len() + 1) == closed);
        lemma_scan_of_row(closed, last, last.len());
        assert(last.take(last.len() as int) =~= last);
        assert(closed.cur + last =~= last);
        assert(text_of(rows) == a + nl + last);
    }
}

/// A grid of cell codes comes back from its text form as it went in.
pub proof fn lemma_grid_reads_back(rows: Seq<Seq<char>>)
    requires
        is_grid(rows),
        known_cells(rows),
    ensures
        rows_of(text_of(rows)) == rows,
        newline_free(rows),
{
    assert forall|y: int, x: int| 0 <= y < rows.len() && 0 <= x < rows[y].len() implies rows[y][x]
        != ROW_END by {
        assert(in_bounds(rows, x, y));
        assert(is_cell(rows[y][x]));
    }
    assert(rows.last().len() == rows[0].len());
    lemma_text_round_trip(rows);
}

/// Rows come back from their text form as they went in, provided that no
/// cell holds a newline and the last row is not empty.
pub proof fn lemma_text_round_trip(rows: Seq<Seq<char>>)
    requires
        rows.len() > 0 ==> rows.last().len() > 0,
        newline_free(rows),
    ensures
        rows_of(text_of(rows)) == rows,
{
    if rows.len() == 0 {
        assert(rows =~= Seq::empty());
    } else {
        lemma_scan_of_text(rows);
        assert(rows.drop_last().push(rows.last()) =~= rows);
    }
}

/// Splits a map text into its rows.
pub fn map_string_to_vec(str_map: &str) -> (map_vec: Vec<Vec<char>>)
    ensures
        grid_view(map_vec) == rows_of(str_map@),
{
    let chars = chars_of(str_map);
    let mut rows: Vec<Vec<char>> = Vec::new();
    let mut cur: Vec<char> = Vec::new();
    let mut i: usize = 0;
    let ghost start = LineScan { rows: Seq::empty(), cur: Seq::empty() };
    assert(grid_view(rows) == start.rows);
    while i < chars.len()
        invariant
            i <= chars.len(),
            chars@ == str_map@,
            start == (LineScan { rows: Seq::empty(), cur: Seq::empty() }),
            scan_from(start, chars@, i as nat) == (LineScan { rows: grid_view(rows), cur: cur@ }),
        decreases chars.len() - i,
    {
        let c = chars[i];
        let ghost before = grid_view(rows);
        if c == ROW_END {
            rows.push(cur);
            assert(grid_view(rows) == before.push(cur@));
            cur = Vec::new();
        } else {
            cur.push(c);
        }
        i += 1;
    }
    if cur.len() > 0 {
        let ghost before = grid_view(rows);
        rows.push(cur);
        assert(grid_view(rows) == before.push(cur@));
    }
    rows
}

/// Joins rows into a map text.
pub fn map_vec_to_string(map_vec: Vec<Vec<char>>) -> (text: String)
    ensures
        text@ == text_of(grid_view(map_vec)),
{
    let ghost rows = grid_view(map_vec);
    let mut text = String::new();
    let mut y: usize = 0;
    while y < map_vec.len()
        invariant
            y <= map_vec.len(),
            rows == grid_view(map_vec),
            text@ == text_of(rows.take(y as int)),
        decreases map_vec.len() - y,
    {
        let ghost done = text@;
        if y > 0 {
            push_char(&mut text, ROW_END);
        }
        let ghost head = text@;
        let row = &map_vec[y];
        let mut x: usize = 0;
        while x < row.len()
            invariant
                x <= row.len(),
                text@ == head + row@.take(x as int),
            decreases row.len() - x,
        {
            push_char(&mut text, row[x]);
            assert(row@.take(x + 1) == row@.take(x as int).push(row@[x as int]));
            x += 1;
        }
        proof {
            let next = rows.take(y + 1);
            assert(row@.take(row@.len() as int) == row@);
            assert(next.drop_last() == rows.take(y as int));
            assert(next.last() == row@);
            if y == 0 {
                assert(text@ == row@);
            }
        }
        y += 1;
    }
    assert(rows.take(rows.len() as int) == rows);
    text
}

/// The cell that a draw from 0 to 3 stands for: empty, rock, water, tree.
pub open spec fn cell_of_draw(draw: usize) -> char {
    if draw == 1 {
        ROCK
    } else if draw == 2 {
        WATER
    } else if draw == 3 {
        TREE
    } else {
        EMPTY
    }
}

/// The cell at column `x`, row `y` of the map that `draws` give: the top and
/// the bottom row are empty, and the rows between take the draws in reading
/// order. Where the draws run out, cells are empty.
pub open spec fn drawn_cell(draws: Seq<usize>, height: int, width: int, x: int, y: int) -> char {
    let i = (y - 1) * width + x;
    if 0 < y < height - 1 && 0 <= i < draws.len() {
        cell_of_draw(draws[i])
    } else {
        EMPTY
    }
}

/// The map of the given size that `draws` give.
pub open spec fn drawn_rows(draws: Seq<usize>, height: nat, width: nat) -> Seq<Seq<char>> {
    Seq::new(height, |y: int| Seq::new(width, |x: int| drawn_cell(draws, height as int, width as int, x, y)))
}

/// A map as a game starts out with: a grid of the given size that holds
/// empty cells and obstacles only, none of them in the top or bottom row.
pub open spec fn is_fresh_map(rows: Seq<Seq<char>>, height: nat, width: nat) -> bool {
    &&& is_grid(rows)
    &&& rows.len() == height
    &&& rows[0].len() == width
    &&& forall|x: int, y: int|
        in_bounds(rows, x, y) ==> {
            &&& (#[trigger] rows[y][x]) == EMPTY || is_obstacle(rows[y][x])
            &&& (y == 0 || y == height - 1) ==> rows[y][x] == EMPTY
        }
}

/// Whether the rows are a fresh map of the given size.
pub fn check_fresh_map(map_vec: &Vec<Vec<char>>, height: u8, width: u8) -> (ok: bool)
    ensures
        ok == is_fresh_map(grid_view(*map_vec), height as nat, width as nat),
{
    let ghost rows = grid_view(*map_vec);
    if !check_grid(map_vec) {
        return false;
    }
    if map_vec.len() != height as usize || map_vec[0].len() != width as usize {
        return false;
    }
    let mut y: usize = 0;
    while y < map_vec.len()
        invariant
            y <= map_vec.len(),
            rows == grid_view(*map_vec),
            is_grid(rows),
            rows.len() == height,
            rows[0].len() == width,
            forall|i: int, j: int|
                in_bounds(rows, i, j) && j < y ==> {
                    &&& (#[trigger] rows[j][i]) == EMPTY || is_obstacle(rows[j][i])
                    &&& (j == 0 || j == height - 1) ==> rows[j][i] == EMPTY
                },
        decreases map_vec.len() - y,
    {
        let mut x: usize = 0;
        while x < map_vec[y].len()
            invariant
                y < map_vec.len(),
                x <= map_vec[y as int].len(),
                rows == grid_view(*map_vec),
                rows.len() == height,
                forall|i: int|
                    0 <= i < x ==> {
                        &&& (#[trigger] rows[y as int][i]) == EMPTY || is_obstacle(rows[y as int][i])
                        &&& (y == 0 || y == height - 1) ==> rows[y as int][i] == EMPTY
                    },
            decreases map_vec[y as int].len() - x,
        {
            let cell = map_vec[y][x];
            let edge = y == 0 || y + 1 == map_vec.len();
            if !(cell == EMPTY || (!edge && (cell == ROCK || cell == WATER || cell == TREE))) {
                assert(in_bounds(rows, x as int, y as int));
                assert(rows[y as int][x as int] == cell);
                return false;
            }
            x += 1;
        }
        y += 1;
    }
    true
}

/// Whatever the draws, the map they give is a fresh map.
pub proof fn lemma_drawn_rows_are_fresh(draws: Seq<usize>, height: nat, width: nat)
    requires
        1 <= height <= MAX_SIDE,
        1 <= width <= MAX_SIDE,
    ensures
        is_fresh_map(drawn_rows(draws, height, width), height, width),
{
    let rows = drawn_rows(draws, height, width);
    assert(rows[0].len() == width);
    assert forall|y: int| 0 <= y < rows.len() implies (#[trigger] rows[y]).len() == rows[0].len() by {}
}

/// The map of the given size that `draws` give.
pub fn build_map(height: u8, width: u8, draws: &Vec<usize>) -> (map_vec: Vec<Vec<char>>)
    ensures
        grid_view(map_vec) == drawn_rows(draws@, height as nat, width as nat),
{
    let mut map_vec: Vec<Vec<char>> = Vec::new();
    let mut y: u8 = 0;
    while y < height
        invariant
            y <= height,
            map_vec.len() == y,
            forall|j: int|
                0 <= j < y ==> (#[trigger] map_vec@[j])@ == Seq::new(
                    width as nat,
                    |x: int| drawn_cell(draws@, height as int, width as int, x, j),
                ),
        decreases height - y,
    {
        let mut row: Vec<char> = Vec::new();
        let mut x: u8 = 0;
        while x < width
            invariant
                x <= width,
                y < height,
                row.len() == x,
                forall|i: int|
                    0 <= i < x ==> #[trigger] row@[i] == drawn_cell(
                        draws@,
                        height as int,
                        width as int,
                        i,
                        y as int,
                    ),
            decreases width - x,
        {
            let mut cell = EMPTY;
            if 0 < y && y < height - 1 {
                assert((y - 1) * width <= 255 * 255) by (nonlinear_arith)
                    requires
                        0 <= y - 1 <= 255,
                        0 <= width <= 255,
                ;
                let i = (y as usize - 1) * (width as usize) + (x as usize);
                if i < draws.len() {
                    let draw = draws[i];
                    cell = if draw == 1 {
                        ROCK
                    } else if draw == 2 {
                        WATER
                    } else if draw == 3 {
                        TREE
                    } else {
                        EMPTY
                    };
                }
            }
            row.push(cell);
            x += 1;
        }
        assert(row@ =~= Seq::new(
            width as nat,
            |x: int| drawn_cell(draws@, height as int, width as int, x, y as int),
        ));
        map_vec.push(row);
        y += 1;
    }
    assert(grid_view(map_vec) =~= drawn_rows(draws@, height as nat, width as nat));
    map_vec
}

/// A fresh map of the given size with obstacles as chance places them.
pub fn random_grid(height: u8, width: u8) -> (map_vec: Vec<Vec<char>>)
    requires
        height >= 1,
        width >= 1,
    ensures
        is_fresh_map(grid_view(map_vec), height as nat, width as nat),
{
    let inner: usize = if height >= 2 {
        assert((height - 2) * width <= 255 * 255) by (nonlinear_arith)
            requires
                0 <= height - 2 <= 255,
                0 <= width <= 255,
        ;
        (height as usize - 2) * (width as usize)
    } else {
        0
    };
    let mut draws: Vec<usize> = Vec::new();
    let mut i: usize = 0;
    while i < inner
        invariant
            i <= inner,
        decreases inner - i,
    {
        draws.push(random_index(LAST_DRAW));
        i += 1;
    }
    proof {
        lemma_drawn_rows_are_fresh(draws@, height as nat, width as nat);
    }
    build_map(height, width, &draws)
}

/// The text of a fresh map of the given size with obstacles as chance
/// places them: the rows in order with a newline between two of them, and
/// none after the last.
pub fn generate_random_map(height: u8, width: u8) -> (map: String)
    requires
        height >= 1,
        width >= 1,
    ensures
        is_fresh_map(rows_of(map@), height as nat, width as nat),
        map@ == text_of(rows_of(map@)),
{
    let map_vec = random_grid(height, width);
    proof {
        let rows = grid_view(map_vec);
        assert forall|x: int, y: int| in_bounds(rows, x, y) implies is_cell(#[trigger] rows[y][x]) by {
            assert(rows[y][x] == EMPTY || is_obstacle(rows[y][x]));
        }
        lemma_grid_reads_back(rows);
    }
    map_vec_to_string(map_vec)
}

} // verus!
