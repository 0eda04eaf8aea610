use mirror_maze::BreadCrumb;
use mirror_maze::Cursor;
use mirror_maze::Direction;
use mirror_maze::Maze;
use mirror_maze::Room;
use mirror_maze::RoomContents;

fn empty_maze(rows: usize, cols: usize, start: (usize, usize), heading: Direction) -> Maze {
    Maze::new((rows, cols), start, heading, vec![])
}

#[test]
fn test_regression_fixture_four_by_five() {
    // The 4x5 maze with "/" mirrors at (1, 2) and (1, 4) and a "\" mirror at
    // (3, 2), entered at (3, 4) heading West: the ray bounces North at the
    // "\", East at the first "/", North again at the second "/", and leaves
    // through the top row after seven recorded steps.
    let rooms = vec![
        Room { m: 2, n: 1, content: RoomContents::Ascending },
        Room { m: 4, n: 1, content: RoomContents::Ascending },
        Room { m: 2, n: 3, content: RoomContents::Descending },
    ];
    let maze = Maze::new((4, 5), (3, 4), Direction::West, rooms);
    let mut cursor = Cursor::new(&maze);
    let result = cursor.solve();
    assert_eq!(result, Some((7, Room { m: 4, n: 0, content: RoomContents::Empty })));
}

#[test]
fn test_no_mirrors_exit_steps_match_boundary_distance() {
    // From (2, 3) in a 4x5 grid with no mirrors, the step count is the
    // straight-line distance to the boundary in the start heading.
    let cases = vec![
        (Direction::North, 2, Room { m: 3, n: 0, content: RoomContents::Empty }),
        (Direction::South, 1, Room { m: 3, n: 3, content: RoomContents::Empty }),
        (Direction::East, 1, Room { m: 4, n: 2, content: RoomContents::Empty }),
        (Direction::West, 3, Room { m: 0, n: 2, content: RoomContents::Empty }),
    ];
    for (heading, steps, room) in cases {
        let maze = empty_maze(4, 5, (2, 3), heading);
        let mut cursor = Cursor::new(&maze);
        assert_eq!(cursor.solve(), Some((steps, room)));
    }
}

#[test]
fn test_two_by_two_mirror_ring_reports_cycle() {
    // Four mirrors arranged so the ray circles the 2x2 grid clockwise and
    // comes back to (0, 0) heading East, the signature it started with.
    let rooms = vec![
        Room { m: 0, n: 0, content: RoomContents::Ascending },
        Room { m: 1, n: 0, content: RoomContents::Descending },
        Room { m: 0, n: 1, content: RoomContents::Descending },
        Room { m: 1, n: 1, content: RoomContents::Ascending },
    ];
    let maze = Maze::new((2, 2), (0, 0), Direction::East, rooms);
    let mut cursor = Cursor::new(&maze);
    assert_eq!(cursor.solve(), None);
}

#[test]
fn test_crossing_same_room_under_two_headings_is_not_a_cycle() {
    // The ray passes through (1, 1) heading East, is bent around by three
    // mirrors, and passes through (1, 1) again heading North: no cycle, and
    // it exits through the top row.
    let rooms = vec![
        Room { m: 2, n: 1, content: RoomContents::Descending },
        Room { m: 2, n: 2, content: RoomContents::Ascending },
        Room { m: 1, n: 2, content: RoomContents::Descending },
    ];
    let maze = Maze::new((3, 3), (1, 0), Direction::East, rooms);
    let mut cursor = Cursor::new(&maze);
    assert_eq!(cursor.solve(), Some((6, Room { m: 1, n: 0, content: RoomContents::Empty })));
}

#[test]
fn test_solve_is_deterministic() {
    let build = || {
        let rooms = vec![
            Room { m: 2, n: 1, content: RoomContents::Ascending },
            Room { m: 4, n: 1, content: RoomContents::Ascending },
            Room { m: 2, n: 3, content: RoomContents::Descending },
        ];
        Maze::new((4, 5), (3, 4), Direction::West, rooms)
    };
    let maze_a = build();
    let maze_b = build();
    let mut cursor_a = Cursor::new(&maze_a);
    let mut cursor_b = Cursor::new(&maze_b);
    let first = cursor_a.solve();
    let second = cursor_b.solve();
    assert_eq!(first, second);
    assert_eq!(cursor_a.path.len(), cursor_b.path.len());
}

#[test]
fn test_start_facing_boundary_exits_with_zero_steps() {
    // Starting at row 0 heading North: the very first candidate coordinate is
    // out of bounds, so the run exits at once from the start room.
    let maze = empty_maze(3, 3, (0, 2), Direction::North);
    let mut cursor = Cursor::new(&maze);
    assert_eq!(cursor.solve(), Some((0, Room { m: 2, n: 0, content: RoomContents::Empty })));

    let maze = empty_maze(3, 3, (1, 0), Direction::West);
    let mut cursor = Cursor::new(&maze);
    assert_eq!(cursor.solve(), Some((0, Room { m: 0, n: 1, content: RoomContents::Empty })));
}

#[test]
fn test_one_by_one_grid_exits_immediately_in_every_heading() {
    let headings = vec![Direction::North, Direction::South, Direction::East, Direction::West];
    for heading in headings {
        let maze = empty_maze(1, 1, (0, 0), heading);
        let mut cursor = Cursor::new(&maze);
        assert_eq!(cursor.solve(), Some((0, Room { m: 0, n: 0, content: RoomContents::Empty })));
    }
}

#[test]
fn test_get_room_bounds_and_default() {
    let rooms = vec![Room { m: 2, n: 1, content: RoomContents::Ascending }];
    let maze = Maze::new((3, 4), (0, 0), Direction::East, rooms);
    // Out of bounds: row or column at or past the declared count.
    assert_eq!(maze.get_room(3, 0), None);
    assert_eq!(maze.get_room(0, 4), None);
    assert_eq!(maze.get_room(3, 4), None);
    // A listed coordinate returns its contents.
    assert_eq!(maze.get_room(1, 2), Some(Room { m: 2, n: 1, content: RoomContents::Ascending }));
    // An unlisted in-bounds coordinate is an empty room.
    assert_eq!(maze.get_room(2, 3), Some(Room { m: 3, n: 2, content: RoomContents::Empty }));
}

#[test]
fn test_get_room_last_entry_wins() {
    let rooms = vec![
        Room { m: 1, n: 1, content: RoomContents::Ascending },
        Room { m: 1, n: 1, content: RoomContents::Descending },
    ];
    let maze = Maze::new((2, 2), (0, 0), Direction::East, rooms);
    assert_eq!(maze.get_room(1, 1), Some(Room { m: 1, n: 1, content: RoomContents::Descending }));
}

#[test]
fn test_adjust_heading_full_table() {
    let maze = empty_maze(1, 1, (0, 0), Direction::North);
    let cursor = Cursor::new(&maze);
    let table = vec![
        (Direction::North, RoomContents::Empty, Direction::North),
        (Direction::South, RoomContents::Empty, Direction::South),
        (Direction::East, RoomContents::Empty, Direction::East),
        (Direction::West, RoomContents::Empty, Direction::West),
        (Direction::North, RoomContents::Ascending, Direction::East),
        (Direction::South, RoomContents::Ascending, Direction::West),
        (Direction::East, RoomContents::Ascending, Direction::North),
        (Direction::West, RoomContents::Ascending, Direction::South),
        (Direction::North, RoomContents::Descending, Direction::West),
        (Direction::South, RoomContents::Descending, Direction::East),
        (Direction::East, RoomContents::Descending, Direction::South),
        (Direction::West, RoomContents::Descending, Direction::North),
    ];
    for (heading, content, adjusted) in table {
        assert_eq!(cursor.adjust_heading(heading, content), adjusted);
    }
}

#[test]
fn test_next_coordinates_and_boundary_equality_policy() {
    // In a 4x5 grid, a candidate row or column equal to the declared count is
    // already out of bounds: from the last row heading South there is no next
    // coordinate, and likewise from the last column heading East.
    let maze = empty_maze(4, 5, (3, 4), Direction::South);
    let cursor = Cursor::new(&maze);
    assert_eq!(cursor.next_coordinates(), None);
    assert!(!cursor.has_next());

    let maze = empty_maze(4, 5, (3, 4), Direction::East);
    let cursor = Cursor::new(&maze);
    assert_eq!(cursor.next_coordinates(), None);
    assert!(!cursor.has_next());

    let maze = empty_maze(4, 5, (2, 3), Direction::North);
    let cursor = Cursor::new(&maze);
    assert_eq!(cursor.next_coordinates(), Some((1, 3)));
    assert!(cursor.has_next());

    let maze = empty_maze(4, 5, (2, 3), Direction::West);
    let cursor = Cursor::new(&maze);
    assert_eq!(cursor.next_coordinates(), Some((2, 2)));

    let maze = empty_maze(4, 5, (0, 0), Direction::North);
    let cursor = Cursor::new(&maze);
    assert_eq!(cursor.next_coordinates(), None);

    let maze = empty_maze(4, 5, (0, 0), Direction::West);
    let cursor = Cursor::new(&maze);
    assert_eq!(cursor.next_coordinates(), None);
}

#[test]
fn test_out_of_bounds() {
    let maze = empty_maze(3, 4, (0, 0), Direction::East);
    let cursor = Cursor::new(&maze);
    assert!(!cursor.out_of_bounds((0, 0)));
    assert!(!cursor.out_of_bounds((2, 3)));
    assert!(cursor.out_of_bounds((3, 0)));
    assert!(cursor.out_of_bounds((0, 4)));
}

#[test]
fn test_new_cursor_starts_fresh() {
    let rooms = vec![Room { m: 1, n: 1, content: RoomContents::Ascending }];
    let maze = Maze::new((3, 3), (1, 1), Direction::South, rooms);
    let cursor = Cursor::new(&maze);
    assert_eq!(cursor.path.len(), 0);
    assert_eq!(cursor.direction, Direction::South);
    assert_eq!(
        cursor.current_room,
        Room { m: 1, n: 1, content: RoomContents::Ascending },
    );
    assert!(!cursor.check_for_cycle());
}

#[test]
fn test_iterate_moves_without_recording_or_deflecting() {
    // iterate moves into the next room but records nothing and keeps the
    // heading, even over a mirror.
    let rooms = vec![Room { m: 3, n: 1, content: RoomContents::Descending }];
    let maze = Maze::new((4, 5), (2, 3), Direction::North, rooms);
    let mut cursor = Cursor::new(&maze);
    cursor.iterate();
    assert_eq!(cursor.current_room, Room { m: 3, n: 1, content: RoomContents::Descending });
    assert_eq!(cursor.direction, Direction::North);
    assert_eq!(cursor.path.len(), 0);

    // With the boundary ahead, iterate leaves the cursor unchanged.
    let maze = empty_maze(4, 5, (0, 3), Direction::North);
    let mut cursor = Cursor::new(&maze);
    cursor.iterate();
    assert_eq!(cursor.current_room, Room { m: 3, n: 0, content: RoomContents::Empty });
}

#[test]
fn test_next_records_pre_move_signature_and_deflects() {
    let rooms = vec![Room { m: 3, n: 1, content: RoomContents::Descending }];
    let maze = Maze::new((4, 5), (2, 3), Direction::North, rooms);
    let mut cursor = Cursor::new(&maze);
    cursor.next();
    assert_eq!(cursor.path.len(), 1);
    assert_eq!(cursor.path[0], BreadCrumb { m: 3, n: 2, direction: Direction::North });
    assert_eq!(cursor.current_room, Room { m: 3, n: 1, content: RoomContents::Descending });
    assert_eq!(cursor.direction, Direction::West);
}

#[test]
fn test_breadcrumb_equality_distinguishes_heading() {
    let east = BreadCrumb { m: 1, n: 1, direction: Direction::East };
    let north = BreadCrumb { m: 1, n: 1, direction: Direction::North };
    assert_ne!(east, north);
    assert_eq!(east, BreadCrumb { m: 1, n: 1, direction: Direction::East });
}

#[test]
fn test_check_for_cycle_fires_only_on_exact_repeat() {
    // Drive the mirror ring by hand: after four steps the cursor is back at
    // (0, 0) heading East, and only then does the cycle check fire.
    let rooms = vec![
        Room { m: 0, n: 0, content: RoomContents::Ascending },
        Room { m: 1, n: 0, content: RoomContents::Descending },
        Room { m: 0, n: 1, content: RoomContents::Descending },
        Room { m: 1, n: 1, content: RoomContents::Ascending },
    ];
    let maze = Maze::new((2, 2), (0, 0), Direction::East, rooms);
    let mut cursor = Cursor::new(&maze);
    for _ in 0..4 {
        assert!(!cursor.check_for_cycle());
        cursor.next();
    }
    assert_eq!(cursor.path.len(), 4);
    assert!(cursor.check_for_cycle());
}
