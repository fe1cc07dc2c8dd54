//! The game session: the field, scoring, line clearing and leveling.

use vstd::prelude::*;
use crate::shapes::{color, filled, kind_at, PieceKind};
use crate::piece::{dropped, lemma_rotated_fits, lemma_valid_bounds, rotated, rows_of, spawn_piece, valid, Tetrimino};

verus! {

/// Width of the field, in cells.
pub const WIDTH: usize = 10;

/// Height of the field, in rows.
pub const HEIGHT: usize = 16;

/// Number of levels in the leveling table.
pub const NB_LEVELS: u32 = 10;

/// Bonus for a pass that clears every row of the field.
pub const CLEAR_BONUS: u32 = 1000;

/// Gravity interval of a level, in milliseconds.
pub open spec fn level_time_spec(level: int) -> u32 {
    if level <= 1 {
        1000
    } else if level == 2 {
        850
    } else if level == 3 {
        700
    } else if level == 4 {
        600
    } else if level == 5 {
        500
    } else if level == 6 {
        400
    } else if level == 7 {
        300
    } else if level == 8 {
        250
    } else if level == 9 {
        221
    } else {
        190
    }
}

/// Cumulative lines past which a level is left for the next one.
pub open spec fn level_lines_spec(level: int) -> u32 {
    if level <= 1 {
        20
    } else if level == 2 {
        40
    } else if level == 3 {
        60
    } else if level == 4 {
        80
    } else if level == 5 {
        100
    } else if level == 6 {
        120
    } else if level == 7 {
        140
    } else if level == 8 {
        160
    } else if level == 9 {
        180
    } else {
        200
    }
}

/// Over the levels of the table, the gravity interval strictly decreases and
/// the line threshold strictly increases.
pub proof fn lemma_tables_monotonic(a: int, b: int)
    requires
        1 <= a < b <= NB_LEVELS,
    ensures
        level_time_spec(b) < level_time_spec(a),
        level_lines_spec(a) < level_lines_spec(b),
{
}

/// Gravity interval of a level, in milliseconds.
pub fn level_time(level: u32) -> (r: u32)
    requires
        1 <= level <= NB_LEVELS,
    ensures
        r == level_time_spec(level as int),
{
    if level <= 1 {
        1000
    } else if level == 2 {
        850
    } else if level == 3 {
        700
    } else if level == 4 {
        600
    } else if level == 5 {
        500
    } else if level == 6 {
        400
    } else if level == 7 {
        300
    } else if level == 8 {
        250
    } else if level == 9 {
        221
    } else {
        190
    }
}

/// Cumulative lines past which a level is left for the next one.
pub fn level_lines(level: u32) -> (r: u32)
    requires
        1 <= level <= NB_LEVELS,
    ensures
        r == level_lines_spec(level as int),
{
    if level <= 1 {
        20
    } else if level == 2 {
        40
    } else if level == 3 {
        60
    } else if level == 4 {
        80
    } else if level == 5 {
        100
    } else if level == 6 {
        120
    } else if level == 7 {
        140
    } else if level == 8 {
        160
    } else if level == 9 {
        180
    } else {
        200
    }
}

/// `a + b`, held at `u32::MAX`.
pub open spec fn sat_add(a: u32, b: int) -> u32 {
    if a + b > u32::MAX {
        u32::MAX
    } else {
        (a + b) as u32
    }
}

/// Two saturating additions of non-negative amounts are one.
pub proof fn lemma_sat_add_twice(a: u32, b: int, c: int)
    requires
        b >= 0,
        c >= 0,
    ensures
        sat_add(sat_add(a, b), c) == sat_add(a, b + c),
{
}

/// Counters `(lines, level)` after one more line: the line count grows by
/// one, and the level rises when the count exceeds the level's threshold.
pub open spec fn line_step(lines: u32, level: u32) -> (u32, u32) {
    let l = sat_add(lines, 1);
    (l, if level < NB_LEVELS && l > level_lines_spec(level as int) {
        (level + 1) as u32
    } else {
        level
    })
}

/// Counters `(lines, level)` after `n` more lines.
pub open spec fn advance(lines: u32, level: u32, n: nat) -> (u32, u32)
    decreases n,
{
    if n == 0 {
        (lines, level)
    } else {
        let prev = advance(lines, level, (n - 1) as nat);
        line_step(prev.0, prev.1)
    }
}

/// A row of the field with no empty cell.
pub open spec fn complete(row: Seq<u8>) -> bool {
    forall|i: int| 0 <= i < row.len() ==> row[i] != 0
}

/// The rows that are not complete, in their order.
pub open spec fn kept_rows(rows: Seq<Seq<u8>>) -> Seq<Seq<u8>>
    decreases rows.len(),
{
    if rows.len() == 0 {
        rows
    } else {
        let k = kept_rows(rows.drop_last());
        if complete(rows.last()) {
            k
        } else {
            k.push(rows.last())
        }
    }
}

pub proof fn lemma_kept_len(rows: Seq<Seq<u8>>)
    ensures
        kept_rows(rows).len() <= rows.len(),
    decreases rows.len(),
{
    if rows.len() > 0 {
        lemma_kept_len(rows.drop_last());
    }
}

/// An empty row of the field.
pub open spec fn empty_row() -> Seq<u8> {
    Seq::new(WIDTH as nat, |_i: int| 0u8)
}

/// `n` empty rows.
pub open spec fn empty_rows(n: nat) -> Seq<Seq<u8>> {
    Seq::new(n, |_i: int| empty_row())
}

/// Number of rows a clearing pass removes.
pub open spec fn removed_count(rows: Seq<Seq<u8>>) -> nat {
    (rows.len() - kept_rows(rows).len()) as nat
}

/// The field after a clearing pass: the complete rows are gone and empty rows
/// are put on top until the field has its full height again.
pub open spec fn cleared(rows: Seq<Seq<u8>>) -> Seq<Seq<u8>> {
    empty_rows((HEIGHT - kept_rows(rows).len()) as nat) + kept_rows(rows)
}

/// Points a clearing pass awards at `level`: the level's value for each row
/// removed, and the bonus when no row is left.
pub open spec fn clear_award(rows: Seq<Seq<u8>>, level: u32) -> int {
    level * removed_count(rows) + if kept_rows(rows).len() == 0 {
        CLEAR_BONUS as int
    } else {
        0
    }
}

/// The field with the cells of `p` written in the piece's color; cells
/// outside the field are left out.
pub open spec fn merged(grid: Seq<Seq<u8>>, p: Tetrimino) -> Seq<Seq<u8>> {
    Seq::new(
        grid.len(),
        |cy: int|
            Seq::new(
                grid[cy].len(),
                |cx: int|
                    if filled(p.kind, p.current_state as int, cy - p.y, cx - p.x) {
                        color(p.kind)
                    } else {
                        grid[cy][cx]
                    },
            ),
    )
}

/// `merged`, restricted to the first `n` template cells in reading order.
pub open spec fn merged_upto(grid: Seq<Seq<u8>>, p: Tetrimino, n: int) -> Seq<Seq<u8>> {
    Seq::new(
        grid.len(),
        |cy: int|
            Seq::new(
                grid[cy].len(),
                |cx: int|
                    if filled(p.kind, p.current_state as int, cy - p.y, cx - p.x) && (cy - p.y) * 4
                        + (cx - p.x) < n {
                        color(p.kind)
                    } else {
                        grid[cy][cx]
                    },
            ),
    )
}

/// `after` is `before` once its piece is locked: the piece is merged into
/// the field, the lock scores the level's value, a clearing pass runs, and
/// no piece is left.
pub open spec fn locked(before: Tetris, after: Tetris) -> bool {
    let g = match before.current_piece {
        Some(p) => merged(before.grid(), p),
        None => before.grid(),
    };
    let lock_points: int = if before.current_piece is Some {
        before.current_level as int
    } else {
        0
    };
    &&& after.grid() == cleared(g)
    &&& after.score == sat_add(before.score, clear_award(g, before.current_level) + lock_points)
    &&& (after.nb_lines, after.current_level) == advance(
        before.nb_lines,
        before.current_level,
        removed_count(g),
    )
    &&& after.current_piece is None
    &&& after.factory == before.factory
}

/// The piece factory: draws kinds, drawing a second time when the first draw
/// repeats the previous kind.
#[derive(Clone, Copy, Debug, PartialEq, Eq, Structural)]
pub struct PieceFactory {
    /// Index of the last kind handed out; 7 before the first.
    pub previous: u8,
}

/// The kind index chosen from a first draw and a redraw: the first draw
/// decides unless it repeats `previous`; then the redraw decides, whatever it is.
pub open spec fn chosen_index(previous: u8, first: u8, redraw: u8) -> u8 {
    if first % 7 == previous {
        redraw % 7
    } else {
        first % 7
    }
}

/// Relies on rand::random: a byte drawn from the thread-local generator.
/// Nothing is known of its value.
#[verifier::external_body]
fn random_byte() -> u8 {
    rand::random::<u8>()
}

impl PieceFactory {
    pub open spec fn wf(&self) -> bool {
        self.previous <= 7
    }

    /// A factory that has handed out nothing yet.
    pub fn new() -> (r: PieceFactory)
        ensures
            r.previous == 7,
    {
        PieceFactory { previous: 7 }
    }

    /// Picks a kind from a first draw and a redraw (see `chosen_index`) and
    /// records it as the previous kind.
    pub fn pick_kind(&mut self, first: u8, redraw: u8) -> (r: PieceKind)
        ensures
            r == kind_at(chosen_index(old(self).previous, first, redraw)),
            final(self).previous == chosen_index(old(self).previous, first, redraw),
            final(self).previous < 7,
    {
        let i = if first % 7 == self.previous {
            redraw % 7
        } else {
            first % 7
        };
        self.previous = i;
        PieceKind::from_index(i)
    }

    /// A new piece at its spawn position. The kind is drawn at random; only
    /// when it repeats the previous kind is it drawn once more.
    pub fn next(&mut self) -> (r: Tetrimino)
        ensures
            final(self).previous < 7,
            r == spawn_piece(kind_at(final(self).previous)),
            r.wf(),
    {
        let first = random_byte();
        let redraw = if first % 7 == self.previous {
            random_byte()
        } else {
            first
        };
        let k = self.pick_kind(first, redraw);
        Tetrimino::new(k)
    }
}


/// A fresh empty row of the field.
fn new_row() -> (r: Vec<u8>)
    ensures
        r@ == empty_row(),
{
    let mut r: Vec<u8> = Vec::new();
    while r.len() < WIDTH
        invariant
            r.len() <= WIDTH,
            forall|i: int| 0 <= i < r.len() ==> r@[i] == 0,
        decreases WIDTH - r.len(),
    {
        r.push(0);
    }
    assert(r@ =~= empty_row());
    r
}

/// Whether every cell of a row is filled.
fn row_complete(row: &Vec<u8>) -> (r: bool)
    ensures
        r == complete(row@),
{
    let mut i: usize = 0;
    while i < row.len()
        invariant
            i <= row.len(),
            forall|j: int| 0 <= j < i ==> row@[j] != 0,
        decreases row.len() - i,
    {
        if row[i] == 0 {
            return false;
        }
        i += 1;
    }
    true
}

/// The state of one game.
pub struct Tetris {
    /// The locked cells, row by row from the top: 0 for empty, else a color code.
    pub game_map: Vec<Vec<u8>>,
    pub current_level: u32,
    pub score: u32,
    /// Cumulative number of cleared lines.
    pub nb_lines: u32,
    pub current_piece: Option<Tetrimino>,
    pub factory: PieceFactory,
}

impl Tetris {
    pub open spec fn grid(&self) -> Seq<Seq<u8>> {
        rows_of(self.game_map@)
    }

    /// The field has its fixed size, and the level and factory are in range.
    pub open spec fn map_wf(&self) -> bool {
        &&& self.game_map@.len() == HEIGHT
        &&& forall|i: int| 0 <= i < HEIGHT ==> (#[trigger] self.game_map@[i])@.len() == WIDTH
        &&& 1 <= self.current_level <= NB_LEVELS
        &&& self.factory.wf()
    }

    /// As `map_wf`, and the active piece, if any, fits where it stands.
    pub open spec fn wf(&self) -> bool {
        &&& self.map_wf()
        &&& match self.current_piece {
            Some(p) => p.wf() && p.fits(self.grid()),
            None => true,
        }
    }

    /// A new game: an empty 16 x 10 field, level 1, no score, no lines, no piece.
    pub fn new() -> (r: Tetris)
        ensures
            r.wf(),
            r.grid() == empty_rows(HEIGHT as nat),
            r.current_level == 1,
            r.score == 0,
            r.nb_lines == 0,
            r.current_piece is None,
            r.factory.previous == 7,
    {
        let mut game_map: Vec<Vec<u8>> = Vec::new();
        while game_map.len() < HEIGHT
            invariant
                game_map.len() <= HEIGHT,
                forall|i: int| 0 <= i < game_map.len() ==> (#[trigger] game_map@[i])@ == empty_row(),
            decreases HEIGHT - game_map.len(),
        {
            game_map.push(new_row());
        }
        let r = Tetris {
            game_map,
            current_level: 1,
            score: 0,
            nb_lines: 0,
            current_piece: None,
            factory: PieceFactory::new(),
        };
        assert(r.grid() =~= empty_rows(HEIGHT as nat));
        r
    }

    /// Adds points to the score, holding it at `u32::MAX`.
    pub fn update_score(&mut self, to_add: u32)
        ensures
            *final(self) == (Tetris { score: sat_add(old(self).score, to_add as int), ..*old(self) }),
    {
        if to_add > u32::MAX - self.score {
            self.score = u32::MAX;
        } else {
            self.score = self.score + to_add;
        }
    }

    /// Counts one more cleared line and raises the level when the count
    /// exceeds the current level's threshold.
    pub fn increase_line(&mut self)
        requires
            1 <= old(self).current_level <= NB_LEVELS,
        ensures
            (final(self).nb_lines, final(self).current_level) == line_step(
                old(self).nb_lines,
                old(self).current_level,
            ),
            *final(self) == (Tetris {
                nb_lines: final(self).nb_lines,
                current_level: final(self).current_level,
                ..*old(self)
            }),
            1 <= final(self).current_level <= NB_LEVELS,
    {
        if self.nb_lines < u32::MAX {
            self.nb_lines = self.nb_lines + 1;
        }
        if self.current_level < NB_LEVELS && self.nb_lines > level_lines(self.current_level) {
            self.current_level = self.current_level + 1;
        }
    }

    /// One clearing pass: removes every complete row, scores the current
    /// level's value per row (plus the bonus when no row is left), then puts
    /// empty rows on top until the field is full height, counting a line for
    /// each and leveling up as the counts require.
    pub fn check_lines(&mut self)
        requires
            old(self).map_wf(),
        ensures
            final(self).map_wf(),
            final(self).grid() == cleared(old(self).grid()),
            final(self).score == sat_add(
                old(self).score,
                clear_award(old(self).grid(), old(self).current_level),
            ),
            (final(self).nb_lines, final(self).current_level) == advance(
                old(self).nb_lines,
                old(self).current_level,
                removed_count(old(self).grid()),
            ),
            final(self).current_piece == old(self).current_piece,
            final(self).factory == old(self).factory,
    {
        let ghost rows = self.grid();
        let ghost start = *self;
        let mut y: usize = 0;
        let mut removed: u32 = 0;
        let ghost mut i: int = 0;
        while y < self.game_map.len()
            invariant
                0 <= i <= HEIGHT,
                y <= i,
                removed == i - y,
                self.game_map@.len() == y + (HEIGHT - i),
                y == kept_rows(rows.take(i)).len(),
                self.grid() == kept_rows(rows.take(i)) + rows.skip(i),
                rows == start.grid(),
                start.map_wf(),
                *self == (Tetris { game_map: self.game_map, ..start }),
            decreases HEIGHT - i,
        {
            proof {
                assert(rows.take(i + 1).drop_last() =~= rows.take(i));
                assert(rows.take(i + 1).last() == rows[i]);
                assert(self.grid()[y as int] == rows[i]);
            }
            let full = row_complete(&self.game_map[y]);
            if full {
                let ghost g = self.game_map@;
                let _row = self.game_map.remove(y);
                proof {
                    assert(self.game_map@ == g.remove(y as int));
                    assert(kept_rows(rows.take(i + 1)) == kept_rows(rows.take(i)));
                    assert(rows_of(g).remove(y as int) =~= kept_rows(rows.take(i)) + rows.skip(i + 1));
                    assert(self.grid() =~= rows_of(g).remove(y as int));
                    assert(self.grid() =~= kept_rows(rows.take(i + 1)) + rows.skip(i + 1));
                }
                removed = removed + 1;
            } else {
                y = y + 1;
                proof {
                    assert(self.grid() =~= kept_rows(rows.take(i + 1)) + rows.skip(i + 1));
                }
            }
            proof {
                i = i + 1;
            }
        }
        proof {
            assert(rows.take(HEIGHT as int) =~= rows);
            assert(removed == removed_count(rows));
        }
        let level = self.current_level;
        assert(level * removed <= 160) by (nonlinear_arith)
            requires
                level <= 10,
                removed <= 16,
        ;
        let mut score_add: u32 = level * removed;
        if self.game_map.len() == 0 {
            score_add = score_add + CLEAR_BONUS;
        }
        self.update_score(score_add);
        let ghost kept = kept_rows(rows);
        let ghost mut j: nat = 0;
        while self.game_map.len() < HEIGHT
            invariant
                self.game_map@.len() == j + kept.len(),
                j + kept.len() <= HEIGHT,
                self.grid() == empty_rows(j) + kept,
                (self.nb_lines, self.current_level) == advance(start.nb_lines, start.current_level, j),
                1 <= self.current_level <= NB_LEVELS,
                self.score == sat_add(start.score, clear_award(rows, start.current_level)),
                self.current_piece == start.current_piece,
                self.factory == start.factory,
            decreases HEIGHT - self.game_map@.len(),
        {
            self.increase_line();
            let ghost g = self.grid();
            self.game_map.insert(0, new_row());
            proof {
                assert(self.grid() =~= seq![empty_row()] + g);
                assert(self.grid() =~= empty_rows(j + 1) + kept);
                j = j + 1;
            }
        }
        proof {
            assert(forall|k: int| 0 <= k < HEIGHT ==> #[trigger] self.grid()[k] == self.game_map@[k]@);
            assert forall|k: int| 0 <= k < HEIGHT implies (#[trigger] self.game_map@[k])@.len() == WIDTH by {
                assert(self.grid()[k] == self.game_map@[k]@);
                if k < j {
                    assert(self.grid()[k] == empty_row());
                } else {
                    assert(self.grid()[k] == kept[k - j]);
                    lemma_kept_rows_width(rows, k - j);
                }
            }
        }
    }
}

impl Tetris {
    /// Writes `c` into cell `(cx, cy)` of the field.
    fn set_cell(&mut self, cy: usize, cx: usize, c: u8)
        requires
            old(self).map_wf(),
            cy < HEIGHT,
            cx < WIDTH,
        ensures
            final(self).grid() == old(self).grid().update(
                cy as int,
                old(self).grid()[cy as int].update(cx as int, c),
            ),
            *final(self) == (Tetris { game_map: final(self).game_map, ..*old(self) }),
            final(self).map_wf(),
    {
        assert(self.game_map@[cy as int]@.len() == WIDTH);
        self.game_map[cy][cx] = c;
        assert(self.grid() =~~= old(self).grid().update(
            cy as int,
            old(self).grid()[cy as int].update(cx as int, c),
        ));
    }

    /// Writes the filled cells of `p` into the field; cells outside it are skipped.
    fn merge_piece(&mut self, p: Tetrimino)
        requires
            old(self).map_wf(),
        ensures
            final(self).grid() == merged(old(self).grid(), p),
            *final(self) == (Tetris { game_map: final(self).game_map, ..*old(self) }),
            final(self).map_wf(),
    {
        let ghost g0 = self.grid();
        let ghost start = *self;
        let c = p.kind.color();
        let mut dy: usize = 0;
        proof {
            assert(self.grid() =~~= merged_upto(g0, p, 0));
        }
        while dy < 4
            invariant
                dy <= 4,
                self.map_wf(),
                g0 == start.grid(),
                c == color(p.kind),
                self.grid() == merged_upto(g0, p, dy * 4),
                *self == (Tetris { game_map: self.game_map, ..start }),
            decreases 4 - dy,
        {
            let mut dx: usize = 0;
            while dx < 4
                invariant
                    dy < 4,
                    dx <= 4,
                    self.map_wf(),
                    g0 == start.grid(),
                    c == color(p.kind),
                    self.grid() == merged_upto(g0, p, dy * 4 + dx),
                    *self == (Tetris { game_map: self.game_map, ..start }),
                decreases 4 - dx,
            {
                proof {
                    lemma_merge_step(g0, p, dy as int, dx as int);
                }
                if p.kind.is_filled(p.current_state as usize, dy, dx) && p.y < HEIGHT && dy
                    < HEIGHT - p.y {
                    let cy = p.y + dy;
                    if p.x < 0 {
                        let sx = p.x + dx as isize;
                        if sx >= 0 && (sx as usize) < WIDTH {
                            self.set_cell(cy, sx as usize, c);
                        }
                    } else {
                        let ux = p.x as usize;
                        if ux < WIDTH - dx {
                            self.set_cell(cy, ux + dx, c);
                        }
                    }
                }
                dx += 1;
            }
            dy += 1;
        }
        proof {
            assert(self.grid() =~~= merged(g0, p));
        }
    }

    /// Locks the active piece: merges it into the field, scores the current
    /// level's value for the lock, runs a clearing pass and drops the piece.
    pub fn make_permanent(&mut self)
        requires
            old(self).map_wf(),
        ensures
            locked(*old(self), *final(self)),
            final(self).wf(),
    {
        let ghost start = *self;
        let mut to_add: u32 = 0;
        if let Some(p) = self.current_piece {
            self.merge_piece(p);
            to_add = self.current_level;
        }
        let ghost mid = *self;
        self.check_lines();
        self.update_score(to_add);
        self.current_piece = None;
        proof {
            lemma_kept_len(mid.grid());
            lemma_sat_add_twice(
                start.score,
                clear_award(mid.grid(), start.current_level),
                to_add as int,
            );
        }
    }
}

/// A logical request from the player to the active piece.
#[derive(Clone, Copy, Debug, PartialEq, Eq, Structural)]
pub enum Action {
    MoveLeft,
    MoveRight,
    /// One row down.
    SoftDrop,
    Rotate,
    /// Down to the resting row, then lock.
    HardDrop,
}

/// The piece moved to `(x, y)` when it fits there, else unchanged.
pub open spec fn moved(grid: Seq<Seq<u8>>, p: Tetrimino, x: int, y: int) -> Tetrimino {
    if valid(grid, p.kind, p.current_state as int, x, y) {
        Tetrimino { x: x as isize, y: y as usize, ..p }
    } else {
        p
    }
}

/// Whether the gravity interval of the current level has passed.
pub fn is_time_over(tetris: &Tetris, elapsed_millis: u64) -> (r: bool)
    requires
        1 <= tetris.current_level <= NB_LEVELS,
    ensures
        r == (elapsed_millis > level_time_spec(tetris.current_level as int)),
{
    elapsed_millis > level_time(tetris.current_level) as u64
}

impl Tetris {
    /// Draws the next piece from the factory.
    pub fn create_new_tetrimino(&mut self) -> (r: Tetrimino)
        ensures
            *final(self) == (Tetris { factory: final(self).factory, ..*old(self) }),
            final(self).factory.wf(),
            r == spawn_piece(kind_at(final(self).factory.previous)),
            r.wf(),
    {
        self.factory.next()
    }

    /// Brings in the next piece. Returns false, with no active piece, when it
    /// does not fit at its spawn position: the game is over.
    pub fn spawn(&mut self) -> (r: bool)
        requires
            old(self).map_wf(),
        ensures
            final(self).wf(),
            r == spawn_piece(kind_at(final(self).factory.previous)).fits(old(self).grid()),
            final(self).current_piece == (if r {
                Some(spawn_piece(kind_at(final(self).factory.previous)))
            } else {
                None
            }),
            *final(self) == (Tetris {
                factory: final(self).factory,
                current_piece: final(self).current_piece,
                ..*old(self)
            }),
    {
        let p = self.create_new_tetrimino();
        if p.test_current_position(self.game_map.as_slice()) {
            self.current_piece = Some(p);
            true
        } else {
            self.current_piece = None;
            false
        }
    }

    /// Applies one request to the active piece. Moves and rotations that do
    /// not fit leave it unchanged. A soft drop that cannot descend, and every
    /// hard drop, lock the piece; the result says whether a lock happened.
    /// Without an active piece nothing changes.
    pub fn apply_action(&mut self, action: Action) -> (r: bool)
        requires
            old(self).wf(),
        ensures
            final(self).wf(),
            match old(self).current_piece {
                None => !r && *final(self) == *old(self),
                Some(p) => match action {
                    Action::MoveLeft => !r && *final(self) == (Tetris {
                        current_piece: Some(moved(old(self).grid(), p, p.x - 1, p.y as int)),
                        ..*old(self)
                    }),
                    Action::MoveRight => !r && *final(self) == (Tetris {
                        current_piece: Some(moved(old(self).grid(), p, p.x + 1, p.y as int)),
                        ..*old(self)
                    }),
                    Action::Rotate => !r && *final(self) == (Tetris {
                        current_piece: Some(rotated(old(self).grid(), p)),
                        ..*old(self)
                    }),
                    Action::SoftDrop => if valid(
                        old(self).grid(),
                        p.kind,
                        p.current_state as int,
                        p.x as int,
                        p.y + 1,
                    ) {
                        !r && *final(self) == (Tetris {
                            current_piece: Some(moved(old(self).grid(), p, p.x as int, p.y + 1)),
                            ..*old(self)
                        })
                    } else {
                        r && locked(*old(self), *final(self))
                    },
                    Action::HardDrop => r && exists|q: Tetrimino|
                        #[trigger] dropped(old(self).grid(), p, q) && locked(
                            (Tetris { current_piece: Some(q), ..*old(self) }),
                            *final(self),
                        ),
                },
            },
    {
        let ghost g = self.grid();
        match self.current_piece {
            None => {
                assert(self.current_piece is None);
                false
            },
            Some(p) => {
                proof {
                    lemma_valid_bounds(g, p.kind, p.current_state as int, p.x as int, p.y as int);
                    assert(self.game_map@[p.y as int]@.len() == WIDTH);
                }
                let mut q = p;
                match action {
                    Action::MoveLeft => {
                        q.change_position(self.game_map.as_slice(), p.x - 1, p.y);
                        self.current_piece = Some(q);
                        false
                    },
                    Action::MoveRight => {
                        q.change_position(self.game_map.as_slice(), p.x + 1, p.y);
                        self.current_piece = Some(q);
                        false
                    },
                    Action::Rotate => {
                        q.rotate(self.game_map.as_slice());
                        proof {
                            lemma_rotated_fits(g, p, 0);
                        }
                        self.current_piece = Some(q);
                        false
                    },
                    Action::SoftDrop => {
                        if q.change_position(self.game_map.as_slice(), p.x, p.y + 1) {
                            self.current_piece = Some(q);
                            false
                        } else {
                            self.make_permanent();
                            true
                        }
                    },
                    Action::HardDrop => {
                        q.hard_drop(self.game_map.as_slice());
                        self.current_piece = Some(q);
                        let ghost before = *self;
                        self.make_permanent();
                        assert(dropped(g, p, q));
                        assert(before == (Tetris { current_piece: Some(q), ..*old(self) }));
                        true
                    },
                }
            },
        }
    }
}

/// When every row is complete, a clearing pass keeps none of them.
pub proof fn lemma_all_complete_kept(rows: Seq<Seq<u8>>)
    requires
        forall|i: int| 0 <= i < rows.len() ==> complete(#[trigger] rows[i]),
    ensures
        kept_rows(rows).len() == 0,
    decreases rows.len(),
{
    if rows.len() > 0 {
        lemma_all_complete_kept(rows.drop_last());
    }
}

/// A pass over a full-height field whose every row is complete leaves an
/// empty field, removes all 16 rows, and awards 16 times the level plus the
/// bonus.
pub proof fn lemma_full_field_clear(rows: Seq<Seq<u8>>, level: u32)
    requires
        rows.len() == HEIGHT,
        forall|i: int| 0 <= i < rows.len() ==> complete(#[trigger] rows[i]),
    ensures
        removed_count(rows) == HEIGHT,
        clear_award(rows, level) == 16 * level + CLEAR_BONUS,
        cleared(rows) == empty_rows(HEIGHT as nat),
{
    lemma_all_complete_kept(rows);
    assert(cleared(rows) =~= empty_rows(HEIGHT as nat));
}

/// Extending `merged_upto` by one template cell writes that cell, when it is
/// filled and inside the field, and changes nothing else.
proof fn lemma_merge_step(g0: Seq<Seq<u8>>, p: Tetrimino, dy: int, dx: int)
    requires
        0 <= dy < 4,
        0 <= dx < 4,
    ensures
        ({
            let cy = p.y + dy;
            let cx = p.x + dx;
            let m = merged_upto(g0, p, dy * 4 + dx);
            if filled(p.kind, p.current_state as int, dy, dx) && 0 <= cy < g0.len() && 0 <= cx
                < g0[cy].len() {
                merged_upto(g0, p, dy * 4 + dx + 1) == m.update(cy, m[cy].update(cx, color(p.kind)))
            } else {
                merged_upto(g0, p, dy * 4 + dx + 1) == m
            }
        }),
{
    let cy = p.y + dy;
    let cx = p.x + dx;
    let m = merged_upto(g0, p, dy * 4 + dx);
    let m1 = merged_upto(g0, p, dy * 4 + dx + 1);
    assert forall|a: int, b: int|
        #[trigger] filled(p.kind, p.current_state as int, a - p.y, b - p.x) && (a - p.y) * 4 + (b
            - p.x) == dy * 4 + dx implies a == cy && b == cx by {}
    if filled(p.kind, p.current_state as int, dy, dx) && 0 <= cy < g0.len() && 0 <= cx
        < g0[cy].len() {
        assert(m1 =~~= m.update(cy, m[cy].update(cx, color(p.kind))));
    } else {
        assert(m1 =~~= m);
    }
}

/// Every kept row is a row of the field, so has its width.
proof fn lemma_kept_rows_width(rows: Seq<Seq<u8>>, k: int)
    requires
        forall|i: int| 0 <= i < rows.len() ==> (#[trigger] rows[i]).len() == WIDTH,
        0 <= k < kept_rows(rows).len(),
    ensures
        kept_rows(rows)[k].len() == WIDTH,
    decreases rows.len(),
{
    if rows.len() > 0 {
        lemma_kept_len(rows.drop_last());
        if k < kept_rows(rows.drop_last()).len() {
            lemma_kept_rows_width(rows.drop_last(), k);
        }
    }
}

} // verus!
