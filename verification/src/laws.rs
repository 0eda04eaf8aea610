//! Proved laws of the simulation: the pigeonhole bound on traces, and the
//! general properties of `solve`'s verdict.

use vstd::prelude::*;
use vstd::set_lib::lemma_int_range;
use vstd::set_lib::lemma_len_subset;
use vstd::set_lib::set_int_range;

use crate::cursor::sig;
use crate::cursor::solve_outcome;
use crate::cursor::spec_solve;
use crate::cursor::BreadCrumb;
use crate::grid::col_step;
use crate::grid::content_at;
use crate::grid::in_bounds;
use crate::grid::row_step;
use crate::grid::Direction;
use crate::grid::MazeModel;
use crate::grid::Room;
use crate::grid::RoomContents;

verus! {

/// A distinct number for each heading.
pub open spec fn heading_index(d: Direction) -> int {
    match d {
        Direction::North => 0,
        Direction::South => 1,
        Direction::East => 2,
        Direction::West => 3,
    }
}

/// A distinct number for each in-bounds visit signature, lying in
/// `[0, 4 * n_size * m_size)`.
pub open spec fn sig_index(g: MazeModel, b: BreadCrumb) -> int {
    4 * ((b.n as int) * g.m_size + b.m as int) + heading_index(b.direction)
}

proof fn lemma_sig_index_injective(g: MazeModel, a: BreadCrumb, b: BreadCrumb)
    requires
        in_bounds(g, a.n as int, a.m as int),
        in_bounds(g, b.n as int, b.m as int),
        sig_index(g, a) == sig_index(g, b),
    ensures
        a == b,
{
    assert((a.n as int) * g.m_size + a.m as int == (b.n as int) * g.m_size + b.m as int);
    assert(a.n == b.n && a.m == b.m) by (nonlinear_arith)
        requires
            (a.n as int) * g.m_size + a.m as int == (b.n as int) * g.m_size + b.m as int,
            0 <= a.m as int,
            (a.m as int) < g.m_size,
            0 <= b.m as int,
            (b.m as int) < g.m_size,
    ;
}

proof fn lemma_sig_index_range(g: MazeModel, b: BreadCrumb)
    requires
        in_bounds(g, b.n as int, b.m as int),
    ensures
        0 <= sig_index(g, b) < 4 * g.n_size * g.m_size,
{
    assert(0 <= 4 * ((b.n as int) * g.m_size + b.m as int) && 4 * ((b.n as int) * g.m_size
        + b.m as int) + 3 < 4 * g.n_size * g.m_size) by (nonlinear_arith)
        requires
            0 <= b.n as int,
            (b.n as int) < g.n_size,
            0 <= b.m as int,
            (b.m as int) < g.m_size,
    ;
    assert(0 <= heading_index(b.direction) <= 3);
}

/// The pigeonhole bound: a trace of distinct, in-bounds visit signatures can
/// hold at most `4 * n_size * m_size` entries, one per position and heading.
/// This is what bounds every run of `solve`.
pub proof fn lemma_trace_len_bound(g: MazeModel, trace: Seq<BreadCrumb>)
    requires
        g.n_size >= 0,
        g.m_size >= 0,
        trace.no_duplicates(),
        forall|i: int|
            0 <= i < trace.len() ==> in_bounds(
                g,
                (#[trigger] trace[i]).n as int,
                trace[i].m as int,
            ),
    ensures
        trace.len() <= 4 * g.n_size * g.m_size,
{
    broadcast use vstd::set::group_set_axioms;

    let bound = 4 * g.n_size * g.m_size;
    assert(4 * g.n_size * g.m_size >= 0) by (nonlinear_arith)
        requires
            g.n_size >= 0,
            g.m_size >= 0,
    ;
    let idxs = trace.map_values(|b: BreadCrumb| sig_index(g, b));
    assert forall|i: int, j: int|
        0 <= i < idxs.len() && 0 <= j < idxs.len() && i != j implies idxs[i] != idxs[j] by {
        if idxs[i] == idxs[j] {
            lemma_sig_index_injective(g, trace[i], trace[j]);
        }
    }
    idxs.unique_seq_to_set();
    assert forall|x: int| idxs.to_set().contains(x) implies set_int_range(0, bound).contains(
        x,
    ) by {
        let i = choose|i: int| 0 <= i < idxs.len() && idxs[i] == x;
        lemma_sig_index_range(g, trace[i]);
    }
    lemma_int_range(0, bound);
    lemma_len_subset(idxs.to_set(), set_int_range(0, bound));
}

/// Re-entering a state whose visit signature the trace already holds is
/// reported as a cycle, whatever the maze looks like.
pub proof fn lemma_repeat_signature_reports_cycle(
    g: MazeModel,
    n: int,
    m: int,
    d: Direction,
    visited: Seq<BreadCrumb>,
)
    requires
        g.n_size >= 0,
        g.m_size >= 0,
        visited.contains(sig(n, m, d)),
    ensures
        solve_outcome(g, n, m, d, visited) == Some(None::<(int, Room)>),
{
    assert(g.n_size * g.m_size >= 0) by (nonlinear_arith)
        requires
            g.n_size >= 0,
            g.m_size >= 0,
    ;
}

/// The simulation is deterministic: two cursors in identical observable
/// states (same maze value, same room, same heading, same trace) are
/// committed to identical outcomes, so repeated runs of `solve` from
/// identical starts report identical exits or identical cycles.
pub proof fn lemma_solve_deterministic(a: crate::cursor::Cursor, b: crate::cursor::Cursor)
    requires
        a.maze@ == b.maze@,
        a.current_room == b.current_room,
        a.direction == b.direction,
        a.path@ == b.path@,
    ensures
        a.outcome() == b.outcome(),
{
}

/// A cycle verdict needs position and heading to repeat together: a trace
/// that crossed room `(n, m)` only under other headings does not hold the
/// signature of `(n, m)` under heading `d`.
pub proof fn lemma_cycle_needs_matching_heading(
    visited: Seq<BreadCrumb>,
    n: usize,
    m: usize,
    d: Direction,
)
    requires
        forall|i: int|
            0 <= i < visited.len() && (#[trigger] visited[i]).n == n && visited[i].m == m
                ==> visited[i].direction != d,
    ensures
        !visited.contains(sig(n as int, m as int, d)),
{
    if visited.contains(sig(n as int, m as int, d)) {
        let i = choose|i: int| 0 <= i < visited.len() && visited[i] == sig(n as int, m as int, d);
        assert(visited[i].n == n && visited[i].m == m && visited[i].direction == d);
        assert(false);
    }
}

/// A start that already faces out of the grid exits at once with zero steps,
/// reporting the start room itself.
pub proof fn lemma_facing_boundary_exits_immediately(g: MazeModel, n: int, m: int, d: Direction)
    requires
        in_bounds(g, n, m),
        !in_bounds(g, n + row_step(d), m + col_step(d)),
    ensures
        solve_outcome(g, n, m, d, Seq::<BreadCrumb>::empty()) == Some(
            Some((0int, Room { m: m as usize, n: n as usize, content: content_at(g, n, m) })),
        ),
{
    assert(g.n_size * g.m_size >= 0) by (nonlinear_arith)
        requires
            g.n_size >= 0,
            g.m_size >= 0,
    ;
    assert(!Seq::<BreadCrumb>::empty().contains(sig(n, m, d)));
}

/// Whether every in-bounds room of the grid is empty.
pub open spec fn mirror_free(g: MazeModel) -> bool {
    forall|n: int, m: int| in_bounds(g, n, m) ==> content_at(g, n, m) == RoomContents::Empty
}

/// The straight-line distance from `(n, m)` to the boundary in heading `d`:
/// the number of moves before the next one would leave the grid.
pub open spec fn boundary_distance(g: MazeModel, n: int, m: int, d: Direction) -> int {
    match d {
        Direction::North => n,
        Direction::South => g.n_size - 1 - n,
        Direction::East => g.m_size - 1 - m,
        Direction::West => m,
    }
}

/// The row of the boundary room a straight ray from `(n, m)` in heading `d`
/// exits from.
pub open spec fn straight_exit_row(g: MazeModel, n: int, d: Direction) -> int {
    match d {
        Direction::North => 0,
        Direction::South => g.n_size - 1,
        Direction::East => n,
        Direction::West => n,
    }
}

/// The column of the boundary room a straight ray from `(n, m)` in heading
/// `d` exits from.
pub open spec fn straight_exit_col(g: MazeModel, m: int, d: Direction) -> int {
    match d {
        Direction::North => m,
        Direction::South => m,
        Direction::East => g.m_size - 1,
        Direction::West => 0,
    }
}

/// Whether `(bn, bm)` lies on the forward ray from `(n, m)` in heading `d`,
/// the start itself included.
spec fn on_forward_ray(n: int, m: int, d: Direction, bn: int, bm: int) -> bool {
    match d {
        Direction::North => bm == m && bn <= n,
        Direction::South => bm == m && bn >= n,
        Direction::East => bn == n && bm >= m,
        Direction::West => bn == n && bm <= m,
    }
}

proof fn lemma_straight_run(
    g: MazeModel,
    n: int,
    m: int,
    d: Direction,
    visited: Seq<BreadCrumb>,
    fuel: nat,
)
    requires
        mirror_free(g),
        in_bounds(g, n, m),
        g.n_size <= usize::MAX as int,
        g.m_size <= usize::MAX as int,
        fuel > boundary_distance(g, n, m, d),
        forall|b: BreadCrumb|
            #[trigger] visited.contains(b) ==> b.direction != d || !on_forward_ray(
                n,
                m,
                d,
                b.n as int,
                b.m as int,
            ),
    ensures
        spec_solve(g, n, m, d, visited, fuel) == Some(
            Some(
                (
                    visited.len() + boundary_distance(g, n, m, d),
                    Room {
                        m: straight_exit_col(g, m, d) as usize,
                        n: straight_exit_row(g, n, d) as usize,
                        content: RoomContents::Empty,
                    },
                ),
            ),
        ),
    decreases boundary_distance(g, n, m, d),
{
    let dist = boundary_distance(g, n, m, d);
    let s0 = sig(n, m, d);
    assert(on_forward_ray(n, m, d, n, m));
    assert(!visited.contains(s0));
    let cn = n + row_step(d);
    let cm = m + col_step(d);
    if dist == 0 {
        assert(!in_bounds(g, cn, cm));
        assert(content_at(g, n, m) == RoomContents::Empty);
    } else {
        assert(in_bounds(g, cn, cm));
        assert(content_at(g, cn, cm) == RoomContents::Empty);
        let visited2 = visited.push(s0);
        assert forall|b: BreadCrumb| #[trigger] visited2.contains(b) implies b.direction != d
            || !on_forward_ray(cn, cm, d, b.n as int, b.m as int) by {
            let i = choose|i: int| 0 <= i < visited2.len() && visited2[i] == b;
            if i < visited.len() {
                assert(visited[i] == b);
                assert(visited.contains(b));
            } else {
                assert(b == s0);
                assert(!on_forward_ray(cn, cm, d, n, m));
            }
        }
        lemma_straight_run(g, cn, cm, d, visited2, (fuel - 1) as nat);
        assert(boundary_distance(g, cn, cm, d) == dist - 1);
        assert(straight_exit_row(g, cn, d) == straight_exit_row(g, n, d));
        assert(straight_exit_col(g, cm, d) == straight_exit_col(g, m, d));
    }
}

/// On a maze with no mirrors a fresh run travels straight: it exits after
/// exactly the distance from the start to the boundary in the start heading,
/// leaving from the boundary room on that line.
pub proof fn lemma_no_mirrors_straight_exit(g: MazeModel, n: int, m: int, d: Direction)
    requires
        mirror_free(g),
        in_bounds(g, n, m),
        g.n_size <= usize::MAX as int,
        g.m_size <= usize::MAX as int,
    ensures
        solve_outcome(g, n, m, d, Seq::<BreadCrumb>::empty()) == Some(
            Some(
                (
                    boundary_distance(g, n, m, d),
                    Room {
                        m: straight_exit_col(g, m, d) as usize,
                        n: straight_exit_row(g, n, d) as usize,
                        content: RoomContents::Empty,
                    },
                ),
            ),
        ),
{
    assert(4 * g.n_size * g.m_size + 1 > g.n_size && 4 * g.n_size * g.m_size + 1 > g.m_size)
        by (nonlinear_arith)
        requires
            g.n_size >= 1,
            g.m_size >= 1,
    ;
    lemma_straight_run(
        g,
        n,
        m,
        d,
        Seq::<BreadCrumb>::empty(),
        (4 * g.n_size * g.m_size + 1) as nat,
    );
}

} // verus!
