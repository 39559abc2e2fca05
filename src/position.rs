use vstd::prelude::*;

verus! {

/// Columns of the board.
pub const WIDTH: usize = 80;

/// Rows of the board.
pub const HEIGHT: usize = 23;

/// One of the four headings a snake can have.
#[derive(Debug, Clone, Copy, PartialEq, Eq, Structural)]
pub enum Dir {
    N,
    S,
    E,
    W,
}

/// The heading that points the opposite way.
pub open spec fn reverse_of(d: Dir) -> Dir {
    match d {
        Dir::N => Dir::S,
        Dir::S => Dir::N,
        Dir::E => Dir::W,
        Dir::W => Dir::E,
    }
}

/// The glyph that shows a head with this heading (and marks it in a board template).
pub open spec fn icon_of(d: Dir) -> char {
    match d {
        Dir::N => '^',
        Dir::S => 'v',
        Dir::E => '>',
        Dir::W => '<',
    }
}

/// The heading a glyph stands for, if it is one of the four head glyphs.
pub open spec fn dir_of_icon(c: char) -> Option<Dir> {
    if c == '^' {
        Some(Dir::N)
    } else if c == 'v' {
        Some(Dir::S)
    } else if c == '>' {
        Some(Dir::E)
    } else if c == '<' {
        Some(Dir::W)
    } else {
        None
    }
}

/// Reversal is an involution and never a fixed point.
pub proof fn lemma_reverse_involution(d: Dir)
    ensures
        reverse_of(reverse_of(d)) == d,
        reverse_of(d) != d,
{
}

impl Dir {
    pub fn icon(&self) -> (r: char)
        ensures
            r == icon_of(*self),
    {
        match self {
            Dir::N => '^',
            Dir::S => 'v',
            Dir::E => '>',
            Dir::W => '<',
        }
    }

    pub fn reverse(&self) -> (r: Dir)
        ensures
            r == reverse_of(*self),
    {
        match self {
            Dir::N => Dir::S,
            Dir::S => Dir::N,
            Dir::E => Dir::W,
            Dir::W => Dir::E,
        }
    }

    /// The heading of a head glyph; `None` for any other character.
    pub fn from_icon(c: char) -> (r: Option<Dir>)
        ensures
            r == dir_of_icon(c),
    {
        match c {
            '^' => Some(Dir::N),
            'v' => Some(Dir::S),
            '>' => Some(Dir::E),
            '<' => Some(Dir::W),
            _ => None,
        }
    }
}

/// A cell coordinate, row and column. It may lie off the board; only legal
/// positions are ever read from or written to it.
#[derive(Debug, Clone, Copy, PartialEq, Eq, Structural)]
pub struct Position {
    pub col: i16,
    pub row: i16,
}

impl Position {
    pub open spec fn legal(self) -> bool {
        0 <= self.col < WIDTH && 0 <= self.row < HEIGHT
    }

    /// Index of a legal position in a row-major grid.
    pub open spec fn index(self) -> int {
        self.row * WIDTH + self.col
    }

    /// The position one step away in direction `d`.
    pub open spec fn step(self, d: Dir) -> (int, int) {
        match d {
            Dir::N => (self.row - 1, self.col as int),
            Dir::S => (self.row + 1, self.col as int),
            Dir::E => (self.row as int, self.col + 1),
            Dir::W => (self.row as int, self.col - 1),
        }
    }

    /// Stepping from this position in any direction stays within `i16`.
    pub open spec fn steppable(self) -> bool {
        i16::MIN < self.row < i16::MAX && i16::MIN < self.col < i16::MAX
    }

    pub fn new(row: i16, col: i16) -> (r: Self)
        ensures
            r.row == row,
            r.col == col,
    {
        Position { col, row }
    }

    pub fn is_legal(&self) -> (r: bool)
        ensures
            r == self.legal(),
    {
        0 <= self.col && self.col < WIDTH as i16 && 0 <= self.row && self.row < HEIGHT as i16
    }

    /// Row and column as indices.
    pub fn row_col(&self) -> (r: (usize, usize))
        requires
            0 <= self.row,
            0 <= self.col,
        ensures
            r.0 == self.row,
            r.1 == self.col,
    {
        (self.row as usize, self.col as usize)
    }

    pub fn neighbor(&self, d: Dir) -> (r: Position)
        requires
            self.steppable(),
        ensures
            (r.row as int, r.col as int) == self.step(d),
    {
        match d {
            Dir::N => Position { row: self.row - 1, col: self.col },
            Dir::S => Position { row: self.row + 1, col: self.col },
            Dir::E => Position { row: self.row, col: self.col + 1 },
            Dir::W => Position { row: self.row, col: self.col - 1 },
        }
    }
}

} // verus!
