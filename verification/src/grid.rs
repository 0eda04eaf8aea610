//! The maze itself: a bounded grid of rooms with a sparse list of mirrors.

use vstd::prelude::*;

verus! {

/// A compass heading of the moving ray.
#[derive(Clone, Copy, Debug, PartialEq, Eq, Structural)]
pub enum Direction {
    North,
    South,
    East,
    West,
}

/// What one room holds: a diagonal mirror, or nothing.
#[derive(Clone, Copy, Debug, PartialEq, Eq, Structural)]
pub enum RoomContents {
    /// A "\" mirror.
    Descending,
    /// A "/" mirror.
    Ascending,
    /// No mirror; the ray passes straight through.
    Empty,
}

/// One room of the maze: row `n`, column `m`, and its contents.
#[derive(Clone, Copy, Debug, PartialEq, Eq, Structural)]
pub struct Room {
    pub m: usize,
    pub n: usize,
    pub content: RoomContents,
}

/// The mathematical value of a [`Maze`]: its declared bounds, the sparse
/// room list it was built from, and the configured start state.
#[verifier::ext_equal]
pub ghost struct MazeModel {
    pub n_size: int,
    pub m_size: int,
    pub layout: Seq<Room>,
    pub start_n: int,
    pub start_m: int,
    pub start_direction: Direction,
}

/// The contents a sparse room list gives to coordinate `(n, m)`: the last
/// entry for that coordinate wins, and an absent coordinate is empty.
pub open spec fn entry_content(entries: Seq<Room>, n: int, m: int) -> RoomContents
    decreases entries.len(),
{
    if entries.len() == 0 {
        RoomContents::Empty
    } else if entries.last().n as int == n && entries.last().m as int == m {
        entries.last().content
    } else {
        entry_content(entries.drop_last(), n, m)
    }
}

/// Whether coordinate `(n, m)` lies inside the grid's declared bounds.
pub open spec fn in_bounds(g: MazeModel, n: int, m: int) -> bool {
    0 <= n < g.n_size && 0 <= m < g.m_size
}

/// The contents of coordinate `(n, m)` in the grid.
pub open spec fn content_at(g: MazeModel, n: int, m: int) -> RoomContents {
    entry_content(g.layout, n, m)
}

/// Row displacement of one step in heading `d`.
pub open spec fn row_step(d: Direction) -> int {
    match d {
        Direction::North => -1,
        Direction::South => 1,
        Direction::East => 0,
        Direction::West => 0,
    }
}

/// Column displacement of one step in heading `d`.
pub open spec fn col_step(d: Direction) -> int {
    match d {
        Direction::North => 0,
        Direction::South => 0,
        Direction::East => 1,
        Direction::West => -1,
    }
}

/// The deflection table: the heading a ray leaves with after entering a room
/// with the given contents while travelling in heading `d`. An empty room
/// never changes the heading; a "/" mirror sends North to East, South to
/// West, East to North and West to South; a "\" mirror sends North to West,
/// South to East, East to South and West to North.
pub open spec fn deflection(d: Direction, content: RoomContents) -> Direction {
    match (d, content) {
        (_, RoomContents::Empty) => d,
        (Direction::North, RoomContents::Ascending) => Direction::East,
        (Direction::South, RoomContents::Ascending) => Direction::West,
        (Direction::East, RoomContents::Ascending) => Direction::North,
        (Direction::West, RoomContents::Ascending) => Direction::South,
        (Direction::North, RoomContents::Descending) => Direction::West,
        (Direction::South, RoomContents::Descending) => Direction::East,
        (Direction::East, RoomContents::Descending) => Direction::South,
        (Direction::West, RoomContents::Descending) => Direction::North,
    }
}

/// An immutable maze: `n_size` rows by `m_size` columns, a sparse list of
/// rooms (coordinates not listed are empty), and the start state a cursor
/// is given.
pub struct Maze {
    pub m_size: usize,
    pub n_size: usize,
    pub layout: Vec<Room>,
    pub start_position: (usize, usize),
    pub start_direction: Direction,
}

impl View for Maze {
    type V = MazeModel;

    open spec fn view(&self) -> MazeModel {
        MazeModel {
            n_size: self.n_size as int,
            m_size: self.m_size as int,
            layout: self.layout@,
            start_n: self.start_position.0 as int,
            start_m: self.start_position.1 as int,
            start_direction: self.start_direction,
        }
    }
}

impl Maze {
    /// Builds a maze of `size.0` rows by `size.1` columns from a sparse room
    /// list; a coordinate listed more than once takes its last entry.
    pub fn new(
        size: (usize, usize),
        start_position: (usize, usize),
        start_direction: Direction,
        contents: Vec<Room>,
    ) -> (maze: Maze)
        ensures
            maze.n_size == size.0,
            maze.m_size == size.1,
            maze.layout@ == contents@,
            maze.start_position == start_position,
            maze.start_direction == start_direction,
    {
        let (n, m) = size;
        Maze {
            m_size: m,
            n_size: n,
            layout: contents,
            start_direction,
            start_position,
        }
    }

    /// Looks up the room at row `n`, column `m`: out of bounds gives `None`,
    /// an unlisted in-bounds coordinate gives an empty room, and a listed
    /// coordinate gives its last listed contents.
    pub fn get_room(&self, n: usize, m: usize) -> (r: Option<Room>)
        ensures
            in_bounds(self@, n as int, m as int) ==> r == Some(
                Room { m, n, content: content_at(self@, n as int, m as int) },
            ),
            !in_bounds(self@, n as int, m as int) ==> r is None,
    {
        if m >= self.m_size || n >= self.n_size {
            return None;
        }
        let mut i: usize = self.layout.len();
        proof {
            assert(self.layout@.take(i as int) =~= self.layout@);
        }
        while i > 0
            invariant
                i <= self.layout@.len(),
                n < self.n_size,
                m < self.m_size,
                content_at(self@, n as int, m as int) == entry_content(
                    self.layout@.take(i as int),
                    n as int,
                    m as int,
                ),
            decreases i,
        {
            i = i - 1;
            let entry = self.layout[i];
            if entry.n == n && entry.m == m {
                proof {
                    assert(self.layout@.take(i as int + 1).last() == entry);
                }
                return Some(Room { m, n, content: entry.content });
            }
            proof {
                assert(self.layout@.take(i as int + 1).drop_last() =~= self.layout@.take(i as int));
            }
        }
        Some(Room { m, n, content: RoomContents::Empty })
    }
}

} // verus!
