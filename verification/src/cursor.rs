//! The ray cursor: stepping, deflection, cycle detection, and `solve`.

use vstd::prelude::*;

use crate::grid::col_step;
use crate::grid::content_at;
use crate::grid::deflection;
use crate::grid::in_bounds;
use crate::grid::row_step;
use crate::grid::Direction;
use crate::grid::Maze;
use crate::grid::MazeModel;
use crate::grid::Room;
use crate::grid::RoomContents;

verus! {

/// One recorded visit: the room at row `n`, column `m` was occupied while
/// travelling in heading `direction`. Two visits to the same room under
/// different headings are distinct, which is what lets a ray cross its own
/// path without being mistaken for a cycle.
#[derive(Clone, Copy, Debug, PartialEq, Eq, Structural)]
pub struct BreadCrumb {
    pub m: usize,
    pub n: usize,
    pub direction: Direction,
}

/// The visit signature of position `(n, m)` under heading `d`.
pub open spec fn sig(n: int, m: int, d: Direction) -> BreadCrumb {
    BreadCrumb { m: m as usize, n: n as usize, direction: d }
}

/// Fuel that always suffices for a full run: a maze has at most
/// `4 * n_size * m_size` distinct visit signatures, so any run takes at most
/// one step more than that before it exits or meets a repeat.
pub open spec fn solve_fuel(g: MazeModel) -> nat {
    (4 * g.n_size * g.m_size + 1) as nat
}

/// One full run of the state machine, as a mathematical function. From
/// position `(n, m)` heading `d` with the signatures in `visited` already
/// recorded: a repeat of the current signature is a cycle (`Some(None)`); a
/// candidate next coordinate out of bounds is an exit (`Some(Some((steps,
/// room)))`, with `steps` the number of recorded signatures and `room` the
/// room the ray leaves from); otherwise the current signature is recorded and
/// the ray moves one room in its heading, deflected by the contents of the
/// room it enters. `None` means the fuel ran out first, which
/// [`solve_fuel`] makes impossible for runs that start from a real cursor.
pub open spec fn spec_solve(
    g: MazeModel,
    n: int,
    m: int,
    d: Direction,
    visited: Seq<BreadCrumb>,
    fuel: nat,
) -> Option<Option<(int, Room)>>
    decreases fuel,
{
    if fuel == 0 {
        None
    } else if visited.contains(sig(n, m, d)) {
        Some(None)
    } else if !in_bounds(g, n + row_step(d), m + col_step(d)) {
        Some(
            Some(
                (
                    visited.len() as int,
                    Room { m: m as usize, n: n as usize, content: content_at(g, n, m) },
                ),
            ),
        )
    } else {
        spec_solve(
            g,
            n + row_step(d),
            m + col_step(d),
            deflection(d, content_at(g, n + row_step(d), m + col_step(d))),
            visited.push(sig(n, m, d)),
            (fuel - 1) as nat,
        )
    }
}

/// The run's verdict with enough fuel for any start: either an exit report
/// or a cycle.
pub open spec fn solve_outcome(
    g: MazeModel,
    n: int,
    m: int,
    d: Direction,
    visited: Seq<BreadCrumb>,
) -> Option<Option<(int, Room)>> {
    spec_solve(g, n, m, d, visited, solve_fuel(g))
}

/// The moving ray: its maze, current room, current heading, and the ordered
/// trace of visit signatures recorded so far. The trace doubles as the
/// membership structure for cycle detection; it holds no duplicates, so a
/// signature is visited exactly when it occurs in the trace.
pub struct Cursor {
    pub path: Vec<BreadCrumb>,
    pub direction: Direction,
    pub current_room: Room,
    pub maze: Maze,
}

impl Cursor {
    /// The signature of the cursor's current position and heading.
    pub open spec fn current_sig(self) -> BreadCrumb {
        BreadCrumb { m: self.current_room.m, n: self.current_room.n, direction: self.direction }
    }

    /// Well-formedness: the current room is in bounds and carries the maze's
    /// contents for its coordinate, and the trace holds distinct, in-bounds
    /// signatures.
    pub open spec fn wf(self) -> bool {
        &&& in_bounds(self.maze@, self.current_room.n as int, self.current_room.m as int)
        &&& self.current_room.content == content_at(
            self.maze@,
            self.current_room.n as int,
            self.current_room.m as int,
        )
        &&& forall|i: int|
            0 <= i < self.path@.len() ==> in_bounds(
                self.maze@,
                (#[trigger] self.path@[i]).n as int,
                self.path@[i].m as int,
            )
        &&& self.path@.no_duplicates()
    }

    /// The verdict the state machine is committed to from this state.
    pub open spec fn outcome(self) -> Option<Option<(int, Room)>> {
        solve_outcome(
            self.maze@,
            self.current_room.n as int,
            self.current_room.m as int,
            self.direction,
            self.path@,
        )
    }

    /// Starts a fresh cursor at the maze's start position and heading, with
    /// an empty trace. The start coordinate must lie inside the declared
    /// bounds; collaborators that build mazes hand over validated starts.
    pub fn new(maze: &Maze) -> (c: Cursor)
        requires
            in_bounds(maze@, maze.start_position.0 as int, maze.start_position.1 as int),
        ensures
            c.wf(),
            c.maze@ == maze@,
            c.path@ == Seq::<BreadCrumb>::empty(),
            c.direction == maze.start_direction,
            c.current_room.n == maze.start_position.0,
            c.current_room.m == maze.start_position.1,
    {
        let mut rooms: Vec<Room> = Vec::new();
        let mut i: usize = 0;
        while i < maze.layout.len()
            invariant
                i <= maze.layout@.len(),
                rooms@ == maze.layout@.take(i as int),
            decreases maze.layout@.len() - i,
        {
            rooms.push(maze.layout[i]);
            proof {
                assert(maze.layout@.take(i as int).push(maze.layout@[i as int]) =~= maze.layout@.take(
                    i as int + 1,
                ));
            }
            i = i + 1;
        }
        proof {
            assert(rooms@ =~= maze.layout@);
        }
        let new_maze = Maze {
            m_size: maze.m_size,
            n_size: maze.n_size,
            layout: rooms,
            start_position: maze.start_position,
            start_direction: maze.start_direction,
        };
        proof {
            assert(new_maze@ =~= maze@);
        }
        let (n, m) = new_maze.start_position;
        let current_room = match new_maze.get_room(n, m) {
            Some(room) => room,
            None => Room { m, n, content: RoomContents::Empty },
        };
        Cursor {
            path: Vec::new(),
            direction: new_maze.start_direction,
            current_room,
            maze: new_maze,
        }
    }

    /// Whether the current position and heading were already visited: true
    /// exactly when the trace holds the current signature.
    pub fn check_for_cycle(&self) -> (cyclic: bool)
        ensures
            cyclic == self.path@.contains(self.current_sig()),
    {
        let target = BreadCrumb {
            m: self.current_room.m,
            n: self.current_room.n,
            direction: self.direction,
        };
        let mut i: usize = 0;
        while i < self.path.len()
            invariant
                i <= self.path@.len(),
                target == self.current_sig(),
                forall|j: int| 0 <= j < i as int ==> self.path@[j] != target,
            decreases self.path@.len() - i,
        {
            if self.path[i] == target {
                proof {
                    assert(self.path@.contains(target));
                }
                return true;
            }
            i = i + 1;
        }
        false
    }

    /// The candidate next coordinate, one room onward in the current heading,
    /// or `None` when that room lies outside the declared bounds: a row or
    /// column that would go negative, or that would reach or pass the
    /// declared row or column count.
    pub fn next_coordinates(&self) -> (r: Option<(usize, usize)>)
        requires
            self.wf(),
        ensures
            ({
                let cn = self.current_room.n as int + row_step(self.direction);
                let cm = self.current_room.m as int + col_step(self.direction);
                match r {
                    Some(c) => in_bounds(self.maze@, cn, cm) && c.0 as int == cn && c.1 as int
                        == cm,
                    None => !in_bounds(self.maze@, cn, cm),
                }
            }),
    {
        match self.direction {
            Direction::North => {
                if self.current_room.n == 0 {
                    None
                } else {
                    Some((self.current_room.n - 1, self.current_room.m))
                }
            },
            Direction::South => {
                if self.current_room.n + 1 >= self.maze.n_size {
                    None
                } else {
                    Some((self.current_room.n + 1, self.current_room.m))
                }
            },
            Direction::East => {
                if self.current_room.m + 1 >= self.maze.m_size {
                    None
                } else {
                    Some((self.current_room.n, self.current_room.m + 1))
                }
            },
            Direction::West => {
                if self.current_room.m == 0 {
                    None
                } else {
                    Some((self.current_room.n, self.current_room.m - 1))
                }
            },
        }
    }

    /// Whether a coordinate lies outside the maze's declared bounds.
    pub fn out_of_bounds(&self, coordinates: (usize, usize)) -> (r: bool)
        ensures
            r == !in_bounds(self.maze@, coordinates.0 as int, coordinates.1 as int),
    {
        let (n, m) = coordinates;
        m >= self.maze.m_size || n >= self.maze.n_size
    }

    /// Whether the ray has an in-bounds room to move into.
    pub fn has_next(&self) -> (r: bool)
        requires
            self.wf(),
        ensures
            r == in_bounds(
                self.maze@,
                self.current_room.n as int + row_step(self.direction),
                self.current_room.m as int + col_step(self.direction),
            ),
    {
        match self.next_coordinates() {
            Some(_) => true,
            None => false,
        }
    }

    /// Moves the cursor into the candidate next room without recording a
    /// signature or deflecting the heading; with no in-bounds next room the
    /// cursor is left unchanged.
    pub fn iterate(&mut self)
        requires
            old(self).wf(),
        ensures
            final(self).wf(),
            final(self).maze == old(self).maze,
            final(self).direction == old(self).direction,
            final(self).path == old(self).path,
            ({
                let cn = old(self).current_room.n as int + row_step(old(self).direction);
                let cm = old(self).current_room.m as int + col_step(old(self).direction);
                if in_bounds(old(self).maze@, cn, cm) {
                    final(self).current_room == (Room {
                        m: cm as usize,
                        n: cn as usize,
                        content: content_at(old(self).maze@, cn, cm),
                    })
                } else {
                    final(self).current_room == old(self).current_room
                }
            }),
    {
        match self.next_coordinates() {
            Some(coordinates) => {
                let (n, m) = coordinates;
                match self.maze.get_room(n, m) {
                    Some(room) => {
                        self.current_room = room;
                    },
                    None => {},
                }
            },
            None => {},
        }
    }

    /// The deflection table as executable code: the heading after entering a
    /// room with the given contents while travelling in `direction`.
    pub fn adjust_heading(&self, direction: Direction, content: RoomContents) -> (adjusted:
        Direction)
        ensures
            adjusted == deflection(direction, content),
    {
        match (direction, content) {
            (_, RoomContents::Empty) => direction,
            (Direction::North, RoomContents::Ascending) => Direction::East,
            (Direction::South, RoomContents::Ascending) => Direction::West,
            (Direction::East, RoomContents::Ascending) => Direction::North,
            (Direction::West, RoomContents::Ascending) => Direction::South,
            (Direction::North, RoomContents::Descending) => Direction::West,
            (Direction::South, RoomContents::Descending) => Direction::East,
            (Direction::East, RoomContents::Descending) => Direction::South,
            (Direction::West, RoomContents::Descending) => Direction::North,
        }
    }

    /// One full step: records the current signature into the trace, moves
    /// into the candidate next room, and deflects the heading by that room's
    /// contents. With no in-bounds next room the cursor is left unchanged.
    /// It is only called on a signature the trace does not yet hold, as the
    /// step loop checks for a repeat first.
    pub fn next(&mut self)
        requires
            old(self).wf(),
            !old(self).path@.contains(old(self).current_sig()),
        ensures
            final(self).wf(),
            final(self).maze == old(self).maze,
            ({
                let cn = old(self).current_room.n as int + row_step(old(self).direction);
                let cm = old(self).current_room.m as int + col_step(old(self).direction);
                if in_bounds(old(self).maze@, cn, cm) {
                    &&& final(self).path@ == old(self).path@.push(old(self).current_sig())
                    &&& final(self).current_room == (Room {
                        m: cm as usize,
                        n: cn as usize,
                        content: content_at(old(self).maze@, cn, cm),
                    })
                    &&& final(self).direction == deflection(
                        old(self).direction,
                        content_at(old(self).maze@, cn, cm),
                    )
                } else {
                    *final(self) == *old(self)
                }
            }),
    {
        match self.next_coordinates() {
            Some(coordinates) => {
                let (n, m) = coordinates;
                let room: Room = self.maze.get_room(n, m).unwrap();
                let direction: Direction = self.adjust_heading(self.direction, room.content);
                let bread_crumb = BreadCrumb {
                    n: self.current_room.n,
                    m: self.current_room.m,
                    direction: self.direction,
                };
                self.path.push(bread_crumb);
                self.direction = direction;
                self.current_room = room;
                proof {
                    let p = self.path@;
                    let q = old(self).path@;
                    assert forall|i: int, j: int|
                        0 <= i < p.len() && 0 <= j < p.len() && i != j implies p[i] != p[j] by {
                        if i < q.len() && j < q.len() {
                            assert(q.no_duplicates());
                        } else if i == q.len() {
                            assert(!q.contains(p[i]));
                            assert(q[j] == p[j]);
                        } else {
                            assert(!q.contains(p[j]));
                            assert(q[i] == p[i]);
                        }
                    }
                }
            },
            None => {},
        }
    }

    /// Runs the state machine to its end: `Some((steps, room))` when the
    /// ray exits the grid after `steps` recorded signatures, leaving from
    /// `room`; `None` when the ray revisits a position under a heading it
    /// already held there, so it can never exit. The verdict is exactly
    /// [`Cursor::outcome`], a function of the starting state alone, so
    /// repeated runs from identical states give identical results.
    pub fn solve(&mut self) -> (r: Option<(usize, Room)>)
        requires
            old(self).wf(),
        ensures
            final(self).wf(),
            final(self).maze == old(self).maze,
            old(self).outcome() is Some,
            match r {
                Some(exit) => old(self).outcome() == Some(Some((exit.0 as int, exit.1))),
                None => old(self).outcome() == Some(None::<(int, Room)>),
            },
    {
        let ghost g = old(self).maze@;
        let ghost fuel0 = solve_fuel(g) as int;
        proof {
            assert(g.n_size * g.m_size >= 0) by (nonlinear_arith)
                requires
                    g.n_size >= 0,
                    g.m_size >= 0,
            ;
            crate::laws::lemma_trace_len_bound(g, self.path@);
        }
        loop
            invariant
                g == old(self).maze@,
                self.wf(),
                self.maze == old(self).maze,
                old(self).path@.len() <= self.path@.len(),
                self.path@.len() <= 4 * g.n_size * g.m_size,
                fuel0 == solve_fuel(g),
                fuel0 - (self.path@.len() - old(self).path@.len()) >= 1,
                spec_solve(
                    g,
                    self.current_room.n as int,
                    self.current_room.m as int,
                    self.direction,
                    self.path@,
                    (fuel0 - (self.path@.len() - old(self).path@.len())) as nat,
                ) == old(self).outcome(),
            decreases fuel0 - (self.path@.len() - old(self).path@.len()),
        {
            if self.check_for_cycle() {
                return None;
            }
            if self.has_next() {
                self.next();
                proof {
                    crate::laws::lemma_trace_len_bound(g, self.path@);
                }
            } else {
                return Some((self.path.len(), self.current_room));
            }
        }
    }
}

} // verus!
