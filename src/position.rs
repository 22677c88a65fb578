use vstd::prelude::*;
use vstd::string::StrSliceExecFns;

use crate::error::Error;
use crate::pieces::decoded;

verus! {

/// One of the sixteen cells of the 4×4 grid.
///
/// The letter names the column (`i` to `l`, x from 1 to 4) and the digit
/// names the row (`1` to `4`, y from 1 to 4).
#[allow(non_camel_case_types)]
#[derive(Debug, Clone, Copy, PartialEq, Eq, Structural, Hash, PartialOrd, Ord)]
pub enum Position {
    i1,
    i2,
    i3,
    i4,
    j1,
    j2,
    j3,
    j4,
    k1,
    k2,
    k3,
    k4,
    l1,
    l2,
    l3,
    l4,
}

impl Position {
    /// The place of the cell in column-major order, from 0 (`i1`) to 15 (`l4`).
    pub open spec fn spec_index(self) -> int {
        match self {
            Position::i1 => 0,
            Position::i2 => 1,
            Position::i3 => 2,
            Position::i4 => 3,
            Position::j1 => 4,
            Position::j2 => 5,
            Position::j3 => 6,
            Position::j4 => 7,
            Position::k1 => 8,
            Position::k2 => 9,
            Position::k3 => 10,
            Position::k4 => 11,
            Position::l1 => 12,
            Position::l2 => 13,
            Position::l3 => 14,
            Position::l4 => 15,
        }
    }

    /// The cell whose index is `i` (meaningful for `0 <= i < 16`).
    pub open spec fn from_index_spec(i: int) -> Position {
        if i <= 0 {
            Position::i1
        } else if i == 1 {
            Position::i2
        } else if i == 2 {
            Position::i3
        } else if i == 3 {
            Position::i4
        } else if i == 4 {
            Position::j1
        } else if i == 5 {
            Position::j2
        } else if i == 6 {
            Position::j3
        } else if i == 7 {
            Position::j4
        } else if i == 8 {
            Position::k1
        } else if i == 9 {
            Position::k2
        } else if i == 10 {
            Position::k3
        } else if i == 11 {
            Position::k4
        } else if i == 12 {
            Position::l1
        } else if i == 13 {
            Position::l2
        } else if i == 14 {
            Position::l3
        } else {
            Position::l4
        }
    }

    /// The column, from 1 (`i`) to 4 (`l`).
    pub open spec fn x(self) -> int {
        self.spec_index() / 4 + 1
    }

    /// The row, from 1 to 4.
    pub open spec fn y(self) -> int {
        self.spec_index() % 4 + 1
    }

    /// The cell at column `x` and row `y`, or `None` off the grid.
    pub open spec fn at(x: int, y: int) -> Option<Position> {
        if 1 <= x <= 4 && 1 <= y <= 4 {
            Some(Position::from_index_spec(4 * (x - 1) + (y - 1)))
        } else {
            None
        }
    }

    /// The cell reached from `self` by moving `dx` columns and `dy` rows.
    pub open spec fn step(self, dx: int, dy: int) -> Option<Position> {
        Position::at(self.x() + dx, self.y() + dy)
    }

    /// The two-character label of the cell, such as `k3`.
    pub open spec fn label(self) -> Seq<char> {
        seq![column_letter(self.x()), row_digit(self.y())]
    }

    /// The cell at column `x` and row `y`; `OutOfBounds` off the grid.
    pub fn from_coords(x: u8, y: u8) -> (r: Result<Position, Error>)
        ensures
            r == match Position::at(x as int, y as int) {
                Some(p) => Ok(p),
                None => Err(Error::OutOfBounds),
            },
    {
        match x {
            1 => {
                match y {
                    1 => Ok(Position::i1),
                    2 => Ok(Position::i2),
                    3 => Ok(Position::i3),
                    4 => Ok(Position::i4),
                    _ => Err(Error::OutOfBounds),
                }
            },
            2 => {
                match y {
                    1 => Ok(Position::j1),
                    2 => Ok(Position::j2),
                    3 => Ok(Position::j3),
                    4 => Ok(Position::j4),
                    _ => Err(Error::OutOfBounds),
                }
            },
            3 => {
                match y {
                    1 => Ok(Position::k1),
                    2 => Ok(Position::k2),
                    3 => Ok(Position::k3),
                    4 => Ok(Position::k4),
                    _ => Err(Error::OutOfBounds),
                }
            },
            4 => {
                match y {
                    1 => Ok(Position::l1),
                    2 => Ok(Position::l2),
                    3 => Ok(Position::l3),
                    4 => Ok(Position::l4),
                    _ => Err(Error::OutOfBounds),
                }
            },
            _ => Err(Error::OutOfBounds),
        }
    }

    /// The column and row of the cell.
    pub fn to_coords(&self) -> (r: (u8, u8))
        ensures
            r.0 as int == self.x(),
            r.1 as int == self.y(),
    {
        match self {
            Position::i1 => (1, 1),
            Position::i2 => (1, 2),
            Position::i3 => (1, 3),
            Position::i4 => (1, 4),
            Position::j1 => (2, 1),
            Position::j2 => (2, 2),
            Position::j3 => (2, 3),
            Position::j4 => (2, 4),
            Position::k1 => (3, 1),
            Position::k2 => (3, 2),
            Position::k3 => (3, 3),
            Position::k4 => (3, 4),
            Position::l1 => (4, 1),
            Position::l2 => (4, 2),
            Position::l3 => (4, 3),
            Position::l4 => (4, 4),
        }
    }

    /// The cell above, or `None` on the top row.
    pub fn up(&self) -> (r: Option<Position>)
        ensures
            r == self.step(0, 1),
    {
        let (x, y) = self.to_coords();
        Position::from_coords(x, y + 1).ok()
    }

    /// The cell below, or `None` on the bottom row.
    pub fn down(&self) -> (r: Option<Position>)
        ensures
            r == self.step(0, -1),
    {
        let (x, y) = self.to_coords();
        Position::from_coords(x, y - 1).ok()
    }

    /// The cell to the left, or `None` in the leftmost column.
    pub fn left(&self) -> (r: Option<Position>)
        ensures
            r == self.step(-1, 0),
    {
        let (x, y) = self.to_coords();
        Position::from_coords(x - 1, y).ok()
    }

    /// The cell to the right, or `None` in the rightmost column.
    pub fn right(&self) -> (r: Option<Position>)
        ensures
            r == self.step(1, 0),
    {
        let (x, y) = self.to_coords();
        Position::from_coords(x + 1, y).ok()
    }

    /// The cell above and to the left, or `None` past an edge.
    pub fn upleft(&self) -> (r: Option<Position>)
        ensures
            r == self.step(-1, 1),
    {
        let (x, y) = self.to_coords();
        Position::from_coords(x - 1, y + 1).ok()
    }

    /// The cell below and to the left, or `None` past an edge.
    pub fn downleft(&self) -> (r: Option<Position>)
        ensures
            r == self.step(-1, -1),
    {
        let (x, y) = self.to_coords();
        Position::from_coords(x - 1, y - 1).ok()
    }

    /// The cell above and to the right, or `None` past an edge.
    pub fn upright(&self) -> (r: Option<Position>)
        ensures
            r == self.step(1, 1),
    {
        let (x, y) = self.to_coords();
        Position::from_coords(x + 1, y + 1).ok()
    }

    /// The cell below and to the right, or `None` past an edge.
    pub fn downright(&self) -> (r: Option<Position>)
        ensures
            r == self.step(1, -1),
    {
        let (x, y) = self.to_coords();
        Position::from_coords(x + 1, y - 1).ok()
    }

    /// The index of the cell, as a number for indexing.
    pub fn index(&self) -> (r: usize)
        ensures
            r as int == self.spec_index(),
            r < 16,
    {
        match self {
            Position::i1 => 0,
            Position::i2 => 1,
            Position::i3 => 2,
            Position::i4 => 3,
            Position::j1 => 4,
            Position::j2 => 5,
            Position::j3 => 6,
            Position::j4 => 7,
            Position::k1 => 8,
            Position::k2 => 9,
            Position::k3 => 10,
            Position::k4 => 11,
            Position::l1 => 12,
            Position::l2 => 13,
            Position::l3 => 14,
            Position::l4 => 15,
        }
    }

    /// The cell with the given index.
    pub fn from_index(i: usize) -> (r: Position)
        requires
            i < 16,
        ensures
            r.spec_index() == i,
            r == Position::from_index_spec(i as int),
    {
        match i {
            0 => Position::i1,
            1 => Position::i2,
            2 => Position::i3,
            3 => Position::i4,
            4 => Position::j1,
            5 => Position::j2,
            6 => Position::j3,
            7 => Position::j4,
            8 => Position::k1,
            9 => Position::k2,
            10 => Position::k3,
            11 => Position::k4,
            12 => Position::l1,
            13 => Position::l2,
            14 => Position::l3,
            _ => Position::l4,
        }
    }
}

/// The letter of column `x`.
pub open spec fn column_letter(x: int) -> char {
    if x == 1 {
        'i'
    } else if x == 2 {
        'j'
    } else if x == 3 {
        'k'
    } else {
        'l'
    }
}

/// The digit of row `y`.
pub open spec fn row_digit(y: int) -> char {
    if y == 1 {
        '1'
    } else if y == 2 {
        '2'
    } else if y == 3 {
        '3'
    } else {
        '4'
    }
}

/// The column that a letter names.
pub open spec fn column_of_letter(c: char) -> Option<int> {
    if c == 'i' {
        Some(1)
    } else if c == 'j' {
        Some(2)
    } else if c == 'k' {
        Some(3)
    } else if c == 'l' {
        Some(4)
    } else {
        None
    }
}

/// The row that a digit names.
pub open spec fn row_of_digit(c: char) -> Option<int> {
    if c == '1' {
        Some(1)
    } else if c == '2' {
        Some(2)
    } else if c == '3' {
        Some(3)
    } else if c == '4' {
        Some(4)
    } else {
        None
    }
}

/// The cell that a two-character label names.
pub open spec fn parse_position(s: Seq<char>) -> Option<Position> {
    if s.len() == 2 {
        match (column_of_letter(s[0]), row_of_digit(s[1])) {
            (Some(x), Some(y)) => Position::at(x, y),
            _ => None,
        }
    } else {
        None
    }
}

/// Every cell lies at its own coordinates, and its index fixes it.
pub proof fn lemma_position_coords(p: Position)
    ensures
        0 <= p.spec_index() < 16,
        Position::from_index_spec(p.spec_index()) == p,
        1 <= p.x() <= 4,
        1 <= p.y() <= 4,
        Position::at(p.x(), p.y()) == Some(p),
{
}

/// The cell at in-range coordinates has exactly those coordinates.
pub proof fn lemma_at_coords(x: int, y: int)
    requires
        1 <= x <= 4,
        1 <= y <= 4,
    ensures
        Position::at(x, y) is Some,
        Position::at(x, y)->Some_0.x() == x,
        Position::at(x, y)->Some_0.y() == y,
{
}

impl<'a> TryFrom<&'a str> for Position {
    type Error = Error;

    fn try_from(notation: &'a str) -> (r: Result<Self, Self::Error>) {
        if notation.unicode_len() != 2 {
            return Err(Error::InvalidNotation);
        }
        let x: u8 = match notation.get_char(0) {
            'i' => 1,
            'j' => 2,
            'k' => 3,
            'l' => 4,
            _ => return Err(Error::InvalidNotation),
        };
        let y: u8 = match notation.get_char(1) {
            '1' => 1,
            '2' => 2,
            '3' => 3,
            '4' => 4,
            _ => return Err(Error::InvalidNotation),
        };
        match Position::from_coords(x, y) {
            Ok(position) => Ok(position),
            Err(_) => Err(Error::InvalidNotation),
        }
    }
}

impl<'a> vstd::std_specs::convert::TryFromSpecImpl<&'a str> for Position {
    open spec fn obeys_try_from_spec() -> bool {
        true
    }

    open spec fn try_from_spec(notation: &'a str) -> Result<Self, Error> {
        decoded(parse_position(notation@))
    }
}

/// Decoding the label of a cell gives the cell back, and a label is the
/// only text that decodes to its cell.
pub proof fn lemma_label_round_trip(p: Position, s: Seq<char>)
    ensures
        parse_position(p.label()) == Some(p),
        parse_position(s) == Some(p) ==> s == p.label(),
{
    if parse_position(s) == Some(p) {
        assert(s =~= p.label());
    }
}

/// A neighbour is missing exactly where the step would leave the grid: the
/// top row has no cell above, the bottom row none below, the leftmost column
/// none to the left and the rightmost column none to the right; a diagonal
/// neighbour is missing where either of its two steps is. A neighbour that
/// exists lies one step away in the named direction.
pub proof fn lemma_neighbours_at_edges(p: Position, dx: int, dy: int)
    requires
        -1 <= dx <= 1,
        -1 <= dy <= 1,
    ensures
        p.step(0, 1) is None <==> p.y() == 4,
        p.step(0, -1) is None <==> p.y() == 1,
        p.step(-1, 0) is None <==> p.x() == 1,
        p.step(1, 0) is None <==> p.x() == 4,
        p.step(-1, 1) is None <==> (p.x() == 1 || p.y() == 4),
        p.step(-1, -1) is None <==> (p.x() == 1 || p.y() == 1),
        p.step(1, 1) is None <==> (p.x() == 4 || p.y() == 4),
        p.step(1, -1) is None <==> (p.x() == 4 || p.y() == 1),
        p.step(dx, dy) matches Some(q) ==> q.x() == p.x() + dx && q.y() == p.y() + dy,
{
    if p.step(dx, dy) is Some {
        lemma_at_coords(p.x() + dx, p.y() + dy);
    }
}

} // verus!
