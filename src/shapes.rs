//! The shape catalog: the rotation templates of the seven piece kinds.
//!
//! A template is a 4x4 grid. Each row is written as a four-digit number read
//! left to right, so `1110` is the row `[x, x, x, .]`.

use vstd::prelude::*;

verus! {

/// The seven kinds of pieces.
#[derive(Clone, Copy, Debug, PartialEq, Eq, Structural)]
pub enum PieceKind {
    I,
    J,
    L,
    O,
    S,
    Z,
    T,
}

/// Index of a kind in the catalog, `0..7`.
pub open spec fn kind_index(k: PieceKind) -> u8 {
    match k {
        PieceKind::I => 0,
        PieceKind::J => 1,
        PieceKind::L => 2,
        PieceKind::O => 3,
        PieceKind::S => 4,
        PieceKind::Z => 5,
        PieceKind::T => 6,
    }
}

/// The kind at an index of the catalog; indices past the end give `T`.
pub open spec fn kind_at(i: u8) -> PieceKind {
    if i == 0 {
        PieceKind::I
    } else if i == 1 {
        PieceKind::J
    } else if i == 2 {
        PieceKind::L
    } else if i == 3 {
        PieceKind::O
    } else if i == 4 {
        PieceKind::S
    } else if i == 5 {
        PieceKind::Z
    } else {
        PieceKind::T
    }
}

/// Color code with which a kind fills the field: `1..=7`.
pub open spec fn color(k: PieceKind) -> u8 {
    (kind_index(k) + 1) as u8
}

/// Number of rotation states of a kind.
pub open spec fn num_states(k: PieceKind) -> u8 {
    match k {
        PieceKind::O => 1,
        PieceKind::I | PieceKind::S | PieceKind::Z => 2,
        _ => 4,
    }
}

/// Column at which a new piece of a kind appears.
pub open spec fn spawn_x(k: PieceKind) -> isize {
    match k {
        PieceKind::O => 5,
        _ => 4,
    }
}

/// The `i`-th of four values.
pub open spec fn pick(i: int, a: u16, b: u16, c: u16, d: u16) -> u16 {
    if i == 0 {
        a
    } else if i == 1 {
        b
    } else if i == 2 {
        c
    } else {
        d
    }
}

/// Row `dy` of rotation state `s` of kind `k`, as four decimal digits.
pub open spec fn row_code(k: PieceKind, s: int, dy: int) -> u16 {
    match k {
        PieceKind::I => if s == 0 {
            pick(dy, 1111, 0000, 0000, 0000)
        } else {
            pick(dy, 0100, 0100, 0100, 0100)
        },
        PieceKind::J => if s == 0 {
            pick(dy, 1110, 1000, 0000, 0000)
        } else if s == 1 {
            pick(dy, 1100, 0100, 0100, 0000)
        } else if s == 2 {
            pick(dy, 0010, 1110, 0000, 0000)
        } else {
            pick(dy, 1000, 1000, 1100, 0000)
        },
        PieceKind::L => if s == 0 {
            pick(dy, 1110, 0010, 0000, 0000)
        } else if s == 1 {
            pick(dy, 0100, 0100, 1100, 0000)
        } else if s == 2 {
            pick(dy, 1000, 1110, 0000, 0000)
        } else {
            pick(dy, 1100, 1000, 1000, 0000)
        },
        PieceKind::O => pick(dy, 1100, 1100, 0000, 0000),
        PieceKind::S => if s == 0 {
            pick(dy, 0110, 1100, 0000, 0000)
        } else {
            pick(dy, 0100, 0110, 0010, 0000)
        },
        PieceKind::Z => if s == 0 {
            pick(dy, 1100, 0110, 0000, 0000)
        } else {
            pick(dy, 0010, 0110, 0100, 0000)
        },
        PieceKind::T => if s == 0 {
            pick(dy, 1110, 0100, 0000, 0000)
        } else if s == 1 {
            pick(dy, 0100, 1100, 0100, 0000)
        } else if s == 2 {
            pick(dy, 0100, 1110, 0000, 0000)
        } else {
            pick(dy, 0100, 0110, 0100, 0000)
        },
    }
}

/// Digit `dx` (from the left) of a four-digit row code.
pub open spec fn digit(code: u16, dx: int) -> u16 {
    if dx == 0 {
        code / 1000
    } else if dx == 1 {
        (code / 100) % 10
    } else if dx == 2 {
        (code / 10) % 10
    } else {
        code % 10
    }
}

/// Whether cell `(dx, dy)` of rotation state `s` of kind `k` is filled.
pub open spec fn filled(k: PieceKind, s: int, dy: int, dx: int) -> bool {
    0 <= dy < 4 && 0 <= dx < 4 && digit(row_code(k, s, dy), dx) != 0
}

/// The template value of a cell: the kind's color where filled, else 0.
pub open spec fn template_value(k: PieceKind, s: int, dy: int, dx: int) -> u8 {
    if filled(k, s, dy, dx) {
        color(k)
    } else {
        0
    }
}

/// Every rotation state has a filled cell in its top row.
pub proof fn lemma_top_row_filled(k: PieceKind, s: int)
    ensures
        exists|dx: int| #[trigger] filled(k, s, 0, dx),
{
    match k {
        PieceKind::I => if s == 0 {
            assert(filled(k, s, 0, 0));
        } else {
            assert(filled(k, s, 0, 1));
        },
        PieceKind::J => if s == 2 {
            assert(filled(k, s, 0, 2));
        } else if s == 0 || s == 1 {
            assert(filled(k, s, 0, 0));
        } else {
            assert(filled(k, s, 0, 0));
        },
        PieceKind::L => if s == 1 {
            assert(filled(k, s, 0, 1));
        } else {
            assert(filled(k, s, 0, 0));
        },
        PieceKind::O => {
            assert(filled(k, s, 0, 0));
        },
        PieceKind::S => {
            assert(filled(k, s, 0, 1));
        },
        PieceKind::Z => if s == 0 {
            assert(filled(k, s, 0, 0));
        } else {
            assert(filled(k, s, 0, 2));
        },
        PieceKind::T => if s == 0 {
            assert(filled(k, s, 0, 0));
        } else {
            assert(filled(k, s, 0, 1));
        },
    }
}

impl PieceKind {
    /// The kind at index `i` of the catalog (`I, J, L, O, S, Z, T`).
    pub fn from_index(i: u8) -> (r: PieceKind)
        requires
            i < 7,
        ensures
            r == kind_at(i),
            kind_index(r) == i,
    {
        if i == 0 {
            PieceKind::I
        } else if i == 1 {
            PieceKind::J
        } else if i == 2 {
            PieceKind::L
        } else if i == 3 {
            PieceKind::O
        } else if i == 4 {
            PieceKind::S
        } else if i == 5 {
            PieceKind::Z
        } else {
            PieceKind::T
        }
    }

    /// Index of this kind in the catalog.
    pub fn index(&self) -> (r: u8)
        ensures
            r == kind_index(*self),
            r < 7,
    {
        match self {
            PieceKind::I => 0,
            PieceKind::J => 1,
            PieceKind::L => 2,
            PieceKind::O => 3,
            PieceKind::S => 4,
            PieceKind::Z => 5,
            PieceKind::T => 6,
        }
    }

    /// Color code that this kind writes into the field.
    pub fn color(&self) -> (r: u8)
        ensures
            r == color(*self),
            1 <= r <= 7,
    {
        self.index() + 1
    }

    /// Number of rotation states.
    pub fn num_states(&self) -> (r: u8)
        ensures
            r == num_states(*self),
    {
        match self {
            PieceKind::O => 1,
            PieceKind::I | PieceKind::S | PieceKind::Z => 2,
            _ => 4,
        }
    }

    /// Column at which a new piece of this kind appears.
    pub fn spawn_x(&self) -> (r: isize)
        ensures
            r == spawn_x(*self),
    {
        match self {
            PieceKind::O => 5,
            _ => 4,
        }
    }

    /// Whether cell `(dx, dy)` of rotation state `s` is filled.
    pub fn is_filled(&self, s: usize, dy: usize, dx: usize) -> (r: bool)
        requires
            dy < 4,
            dx < 4,
        ensures
            r == filled(*self, s as int, dy as int, dx as int),
    {
        let code = row_code_of(*self, s, dy);
        let d: u16 = if dx == 0 {
            code / 1000
        } else if dx == 1 {
            (code / 100) % 10
        } else if dx == 2 {
            (code / 10) % 10
        } else {
            code % 10
        };
        d != 0
    }

    /// Template value of cell `(dx, dy)` of rotation state `s`.
    pub fn template_value(&self, s: usize, dy: usize, dx: usize) -> (r: u8)
        requires
            dy < 4,
            dx < 4,
        ensures
            r == template_value(*self, s as int, dy as int, dx as int),
    {
        if self.is_filled(s, dy, dx) {
            self.color()
        } else {
            0
        }
    }
}

fn pick_row(i: usize, a: u16, b: u16, c: u16, d: u16) -> (r: u16)
    ensures
        r == pick(i as int, a, b, c, d),
{
    if i == 0 {
        a
    } else if i == 1 {
        b
    } else if i == 2 {
        c
    } else {
        d
    }
}

fn row_code_of(k: PieceKind, s: usize, dy: usize) -> (r: u16)
    ensures
        r == row_code(k, s as int, dy as int),
{
    match k {
        PieceKind::I => if s == 0 {
            pick_row(dy, 1111, 0000, 0000, 0000)
        } else {
            pick_row(dy, 0100, 0100, 0100, 0100)
        },
        PieceKind::J => if s == 0 {
            pick_row(dy, 1110, 1000, 0000, 0000)
        } else if s == 1 {
            pick_row(dy, 1100, 0100, 0100, 0000)
        } else if s == 2 {
            pick_row(dy, 0010, 1110, 0000, 0000)
        } else {
            pick_row(dy, 1000, 1000, 1100, 0000)
        },
        PieceKind::L => if s == 0 {
            pick_row(dy, 1110, 0010, 0000, 0000)
        } else if s == 1 {
            pick_row(dy, 0100, 0100, 1100, 0000)
        } else if s == 2 {
            pick_row(dy, 1000, 1110, 0000, 0000)
        } else {
            pick_row(dy, 1100, 1000, 1000, 0000)
        },
        PieceKind::O => pick_row(dy, 1100, 1100, 0000, 0000),
        PieceKind::S => if s == 0 {
            pick_row(dy, 0110, 1100, 0000, 0000)
        } else {
            pick_row(dy, 0100, 0110, 0010, 0000)
        },
        PieceKind::Z => if s == 0 {
            pick_row(dy, 1100, 0110, 0000, 0000)
        } else {
            pick_row(dy, 0010, 0110, 0100, 0000)
        },
        PieceKind::T => if s == 0 {
            pick_row(dy, 1110, 0100, 0000, 0000)
        } else if s == 1 {
            pick_row(dy, 0100, 1100, 0100, 0000)
        } else if s == 2 {
            pick_row(dy, 0100, 1110, 0000, 0000)
        } else {
            pick_row(dy, 0100, 0110, 0100, 0000)
        },
    }
}

} // verus!
