//! A light-ray simulation over a rectangular grid of rooms, some holding
//! diagonal mirrors that deflect the ray by ninety degrees.
//!
//! A [`grid::Maze`] is an immutable, bounds-checked lookup from coordinates to
//! room contents. A [`cursor::Cursor`] walks the maze one room at a time,
//! recording a [`cursor::BreadCrumb`] (position plus heading) for every step,
//! until the ray either leaves the grid (an exit, reported with the step count
//! and the room it left from) or revisits a position under a heading it
//! already held there (a cycle, so the ray never exits).

pub mod cursor;
pub mod grid;
pub mod laws;

pub use cursor::BreadCrumb;
pub use cursor::Cursor;
pub use grid::Direction;
pub use grid::Maze;
pub use grid::Room;
pub use grid::RoomContents;
