//! The active piece, the collision test, movement and rotation.

use vstd::prelude::*;
use crate::shapes::{filled, lemma_top_row_filled, num_states, spawn_x, PieceKind};

verus! {

/// The rows of a field as sequences of cell values.
pub open spec fn rows_of(m: Seq<Vec<u8>>) -> Seq<Seq<u8>> {
    m.map_values(|r: Vec<u8>| r@)
}

/// Cell `(cx, cy)` exists in the grid and is empty.
pub open spec fn free_cell(grid: Seq<Seq<u8>>, cx: int, cy: int) -> bool {
    0 <= cy < grid.len() && 0 <= cx < grid[cy].len() && grid[cy][cx] == 0
}

/// A piece of kind `k` in rotation state `s` fits at `(x, y)`: every filled
/// template cell lands on an existing, empty cell of the grid.
pub open spec fn valid(grid: Seq<Seq<u8>>, k: PieceKind, s: int, x: int, y: int) -> bool {
    forall|dy: int, dx: int| #[trigger] filled(k, s, dy, dx) ==> free_cell(grid, x + dx, y + dy)
}

/// Horizontal offsets tried by a rotation, in order.
pub open spec fn kick(i: int) -> int {
    if i == 0 {
        0
    } else if i == 1 {
        -1
    } else if i == 2 {
        1
    } else if i == 3 {
        -2
    } else if i == 4 {
        2
    } else {
        -3
    }
}

/// The rotation state that follows `s`.
pub open spec fn next_state(k: PieceKind, s: u8) -> u8 {
    if s + 1 >= num_states(k) {
        0
    } else {
        (s + 1) as u8
    }
}

/// The first offset index, from `i` on, at which `p` fits after rotating.
pub open spec fn first_fit(grid: Seq<Seq<u8>>, p: Tetrimino, i: int) -> Option<int>
    decreases 6 - i,
{
    if i < 0 || i >= 6 {
        None
    } else if valid(grid, p.kind, next_state(p.kind, p.current_state) as int, p.x + kick(i), p.y as int) {
        Some(i)
    } else {
        first_fit(grid, p, i + 1)
    }
}

/// `p` after a rotation attempt on `grid`: in the next state and shifted by
/// the first offset that fits, or unchanged when none does.
pub open spec fn rotated(grid: Seq<Seq<u8>>, p: Tetrimino) -> Tetrimino {
    match first_fit(grid, p, 0) {
        Some(i) => Tetrimino {
            x: (p.x + kick(i)) as isize,
            current_state: next_state(p.kind, p.current_state),
            ..p
        },
        None => p,
    }
}

/// A rotated piece fits, unless it was left as it was.
pub proof fn lemma_rotated_fits(grid: Seq<Seq<u8>>, p: Tetrimino, i: int)
    requires
        0 <= i <= 6,
    ensures
        first_fit(grid, p, i) matches Some(j) ==> i <= j < 6 && valid(
            grid,
            p.kind,
            next_state(p.kind, p.current_state) as int,
            p.x + kick(j),
            p.y as int,
        ),
    decreases 6 - i,
{
    if i < 6 {
        lemma_rotated_fits(grid, p, i + 1);
    }
}

/// A valid placement lies within the columns `-3 .. width` and above the bottom.
pub proof fn lemma_valid_bounds(grid: Seq<Seq<u8>>, k: PieceKind, s: int, x: int, y: int)
    requires
        valid(grid, k, s, x, y),
    ensures
        0 <= y < grid.len(),
        -3 <= x < grid[y].len(),
{
    lemma_top_row_filled(k, s);
    let dx = choose|dx: int| #[trigger] filled(k, s, 0, dx);
    assert(free_cell(grid, x + dx, y + 0));
}

/// A falling piece: its kind, its origin and its rotation state.
#[derive(Clone, Copy, Debug, PartialEq, Eq, Structural)]
pub struct Tetrimino {
    pub kind: PieceKind,
    pub x: isize,
    pub y: usize,
    pub current_state: u8,
}

/// The piece that a kind spawns as.
pub open spec fn spawn_piece(k: PieceKind) -> Tetrimino {
    Tetrimino { kind: k, x: spawn_x(k), y: 0, current_state: 0 }
}

/// `q` is `p` after a hard drop on `grid`: moved straight down through valid
/// positions only, to the first row from which it cannot descend.
pub open spec fn dropped(grid: Seq<Seq<u8>>, p: Tetrimino, q: Tetrimino) -> bool {
    &&& q.kind == p.kind
    &&& q.x == p.x
    &&& q.current_state == p.current_state
    &&& p.y <= q.y
    &&& forall|yy: int|
        p.y < yy <= q.y ==> #[trigger] valid(grid, p.kind, p.current_state as int, p.x as int, yy)
    &&& !valid(grid, p.kind, p.current_state as int, p.x as int, q.y + 1)
}

impl Tetrimino {
    pub open spec fn wf(&self) -> bool {
        self.current_state < num_states(self.kind)
    }

    /// `self` fits at its own position on `grid`.
    pub open spec fn fits(&self, grid: Seq<Seq<u8>>) -> bool {
        valid(grid, self.kind, self.current_state as int, self.x as int, self.y as int)
    }

    /// A new piece of kind `k` at its spawn position, in its first state.
    pub fn new(k: PieceKind) -> (r: Tetrimino)
        ensures
            r == spawn_piece(k),
            r.wf(),
    {
        Tetrimino { kind: k, x: k.spawn_x(), y: 0, current_state: 0 }
    }

    /// Whether this piece, in rotation state `tmp_state`, fits at `(x, y)`.
    pub fn test_position(&self, game_map: &[Vec<u8>], tmp_state: usize, x: isize, y: usize) -> (r:
        bool)
        ensures
            r == valid(rows_of(game_map@), self.kind, tmp_state as int, x as int, y as int),
    {
        let ghost grid = rows_of(game_map@);
        let mut decal_y: usize = 0;
        while decal_y < 4
            invariant
                decal_y <= 4,
                grid == rows_of(game_map@),
                forall|dy: int, dx: int|
                    0 <= dy < decal_y && #[trigger] filled(self.kind, tmp_state as int, dy, dx)
                        ==> free_cell(grid, x + dx, y + dy),
            decreases 4 - decal_y,
        {
            let mut decal_x: usize = 0;
            while decal_x < 4
                invariant
                    decal_y < 4,
                    decal_x <= 4,
                    grid == rows_of(game_map@),
                    forall|dy: int, dx: int|
                        0 <= dy < decal_y && #[trigger] filled(self.kind, tmp_state as int, dy, dx)
                            ==> free_cell(grid, x + dx, y + dy),
                    forall|dx: int|
                        0 <= dx < decal_x && #[trigger] filled(
                            self.kind,
                            tmp_state as int,
                            decal_y as int,
                            dx,
                        ) ==> free_cell(grid, x + dx, y + decal_y),
                decreases 4 - decal_x,
            {
                if self.kind.is_filled(tmp_state, decal_y, decal_x) {
                    if !(decal_y < game_map.len() && y < game_map.len() - decal_y) {
                        assert(!free_cell(grid, x + decal_x, y + decal_y));
                        return false;
                    }
                    let row = &game_map[y + decal_y];
                    assert(row@ == grid[y + decal_y]);
                    let inside: bool;
                    let mut cx: usize = 0;
                    if x < 0 {
                        let sx = x + decal_x as isize;
                        inside = sx >= 0 && (sx as usize) < row.len();
                        if inside {
                            cx = sx as usize;
                        }
                    } else {
                        let ux = x as usize;
                        inside = decal_x < row.len() && ux < row.len() - decal_x;
                        if inside {
                            cx = ux + decal_x;
                        }
                    }
                    if !inside {
                        assert(!free_cell(grid, x + decal_x, y + decal_y));
                        return false;
                    }
                    assert(cx == x + decal_x);
                    if row[cx] != 0 {
                        assert(!free_cell(grid, x + decal_x, y + decal_y));
                        return false;
                    }
                }
                decal_x += 1;
            }
            decal_y += 1;
        }
        true
    }

    /// Whether this piece fits where it stands.
    pub fn test_current_position(&self, game_map: &[Vec<u8>]) -> (r: bool)
        ensures
            r == self.fits(rows_of(game_map@)),
    {
        self.test_position(game_map, self.current_state as usize, self.x, self.y)
    }

    /// Moves the piece to `(new_x, new_y)` if it fits there in its current
    /// rotation state; otherwise leaves it unchanged.
    pub fn change_position(&mut self, game_map: &[Vec<u8>], new_x: isize, new_y: usize) -> (r:
        bool)
        ensures
            r == valid(
                rows_of(game_map@),
                old(self).kind,
                old(self).current_state as int,
                new_x as int,
                new_y as int,
            ),
            r ==> *final(self) == (Tetrimino { x: new_x, y: new_y, ..*old(self) }),
            !r ==> *final(self) == *old(self),
    {
        if self.test_position(game_map, self.current_state as usize, new_x, new_y) {
            self.x = new_x;
            self.y = new_y;
            true
        } else {
            false
        }
    }

    /// Advances to the next rotation state, trying the horizontal offsets
    /// `0, -1, 1, -2, 2, -3` in turn and keeping the first that fits. When
    /// none fits the piece is left unchanged. `y` never changes.
    pub fn rotate(&mut self, game_map: &[Vec<u8>]) -> (r: bool)
        requires
            isize::MIN + 3 <= old(self).x <= isize::MAX - 2,
        ensures
            r == first_fit(rows_of(game_map@), *old(self), 0) is Some,
            *final(self) == rotated(rows_of(game_map@), *old(self)),
    {
        let ghost grid = rows_of(game_map@);
        let n = self.kind.num_states();
        let tmp_state: u8 = if self.current_state as u16 + 1 >= n as u16 {
            0
        } else {
            self.current_state + 1
        };
        let mut i: usize = 0;
        while i < 6
            invariant
                i <= 6,
                *self == *old(self),
                grid == rows_of(game_map@),
                tmp_state == next_state(self.kind, self.current_state),
                isize::MIN + 3 <= self.x <= isize::MAX - 2,
                first_fit(grid, *self, 0) == first_fit(grid, *self, i as int),
            decreases 6 - i,
        {
            let offset: isize = if i == 0 {
                0
            } else if i == 1 {
                -1
            } else if i == 2 {
                1
            } else if i == 3 {
                -2
            } else if i == 4 {
                2
            } else {
                -3
            };
            assert(offset == kick(i as int));
            if self.test_position(game_map, tmp_state as usize, self.x + offset, self.y) {
                self.current_state = tmp_state;
                self.x = self.x + offset;
                return true;
            }
            i += 1;
        }
        false
    }

    /// Moves the piece straight down, one row at a time, for as long as it fits.
    pub fn hard_drop(&mut self, game_map: &[Vec<u8>])
        ensures
            dropped(rows_of(game_map@), *old(self), *final(self)),
    {
        let ghost grid = rows_of(game_map@);
        let ghost start = *self;
        let x = self.x;
        let height = game_map.len();
        loop
            invariant
                height == game_map@.len(),
                grid == rows_of(game_map@),
                start == *old(self),
                self.kind == start.kind,
                self.x == start.x,
                x == start.x,
                self.current_state == start.current_state,
                start.y <= self.y,
                forall|yy: int|
                    start.y < yy <= self.y ==> #[trigger] valid(
                        grid,
                        start.kind,
                        start.current_state as int,
                        start.x as int,
                        yy,
                    ),
            decreases usize::MAX - self.y,
        {
            if self.y == usize::MAX {
                proof {
                    assert(grid.len() == game_map@.len());
                    if valid(grid, start.kind, start.current_state as int, x as int, self.y + 1) {
                        lemma_valid_bounds(grid, start.kind, start.current_state as int, x as int, self.y + 1);
                    }
                }
                return;
            }
            let y = self.y;
            if !self.change_position(game_map, x, y + 1) {
                assert(!valid(grid, start.kind, start.current_state as int, start.x as int, y + 1));
                return;
            }
        }
    }
}

/// Once a piece has been hard-dropped, a further move one row down fails.
pub proof fn lemma_drop_rests(grid: Seq<Seq<u8>>, p: Tetrimino, q: Tetrimino)
    requires
        dropped(grid, p, q),
    ensures
        !valid(grid, q.kind, q.current_state as int, q.x as int, q.y + 1),
{
}

} // verus!
