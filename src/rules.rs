use vstd::prelude::*;
use crate::grid::Grid;

verus! {

/// Whether `(x, y)` lies inside `g` and holds a live cell; positions off the
/// grid count as dead, so nothing wraps around.
pub open spec fn live_at(g: Grid, x: int, y: int) -> bool {
    0 <= x < g.cols() && 0 <= y < g.rows() && g.alive(x, y)
}

pub open spec fn bit(b: bool) -> nat {
    if b { 1 } else { 0 }
}

/// Number of live cells among the eight Moore neighbours of `(x, y)`.
pub open spec fn live_neighbors(g: Grid, x: int, y: int) -> nat {
    bit(live_at(g, x - 1, y - 1)) + bit(live_at(g, x, y - 1)) + bit(live_at(g, x + 1, y - 1))
        + bit(live_at(g, x - 1, y)) + bit(live_at(g, x + 1, y))
        + bit(live_at(g, x - 1, y + 1)) + bit(live_at(g, x, y + 1)) + bit(live_at(g, x + 1, y + 1))
}

/// Whether `(x, y)` is a position of a grid of `w` columns and `h` rows.
pub open spec fn in_bounds(w: int, h: int, x: int, y: int) -> bool {
    0 <= x < w && 0 <= y < h
}

/// Number of the eight Moore offsets of `(x, y)` that stay inside a `w` by `h` grid.
pub open spec fn candidate_neighbors(w: int, h: int, x: int, y: int) -> nat {
    bit(in_bounds(w, h, x - 1, y - 1)) + bit(in_bounds(w, h, x, y - 1)) + bit(in_bounds(w, h, x + 1, y - 1))
        + bit(in_bounds(w, h, x - 1, y)) + bit(in_bounds(w, h, x + 1, y))
        + bit(in_bounds(w, h, x - 1, y + 1)) + bit(in_bounds(w, h, x, y + 1)) + bit(in_bounds(w, h, x + 1, y + 1))
}

/// The rule of life: a live cell survives with two or three live neighbours,
/// a dead cell is born with exactly three, every other cell is dead.
pub open spec fn next_state(alive: bool, neighbors: nat) -> bool {
    if alive {
        neighbors == 2 || neighbors == 3
    } else {
        neighbors == 3
    }
}

/// Whether `next` is the successor generation of `g`.
pub open spec fn is_successor(g: Grid, next: Grid) -> bool {
    &&& next.wf()
    &&& next.cols() == g.cols()
    &&& next.rows() == g.rows()
    &&& forall|x: int, y: int|
        0 <= x < g.cols() && 0 <= y < g.rows() ==> #[trigger] next.alive(x, y) == next_state(
            g.alive(x, y),
            live_neighbors(g, x, y),
        )
}

fn live_at_exec(g: &Grid, x: usize, y: usize, dx: i8, dy: i8) -> (r: u8)
    requires
        g.wf(),
        x < g.cols(),
        y < g.rows(),
        -1 <= dx <= 1,
        -1 <= dy <= 1,
    ensures
        r == bit(live_at(*g, x + dx, y + dy)),
{
    proof {
        g.lemma_wf_dims();
    }
    let inside_x = if dx < 0 { x > 0 } else if dx > 0 { x < g.width() - 1 } else { true };
    let inside_y = if dy < 0 { y > 0 } else if dy > 0 { y < g.height() - 1 } else { true };
    if inside_x && inside_y {
        let nx = if dx < 0 { x - 1 } else if dx > 0 { x + 1 } else { x };
        let ny = if dy < 0 { y - 1 } else if dy > 0 { y + 1 } else { y };
        if g.get(nx, ny) { 1 } else { 0 }
    } else {
        0
    }
}

/// Number of live neighbours of `(x, y)`, clipped at the grid's border.
pub fn count_neighbors(g: &Grid, x: usize, y: usize) -> (n: u8)
    requires
        g.wf(),
        x < g.cols(),
        y < g.rows(),
    ensures
        n == live_neighbors(*g, x as int, y as int),
{
    live_at_exec(g, x, y, -1, -1) + live_at_exec(g, x, y, 0, -1) + live_at_exec(g, x, y, 1, -1)
        + live_at_exec(g, x, y, -1, 0) + live_at_exec(g, x, y, 1, 0)
        + live_at_exec(g, x, y, -1, 1) + live_at_exec(g, x, y, 0, 1) + live_at_exec(g, x, y, 1, 1)
}

/// The next generation of `g`, as a new grid of the same dimensions; `g` is
/// left untouched.
pub fn advance(g: &Grid) -> (next: Grid)
    requires
        g.wf(),
    ensures
        is_successor(*g, next),
{
    let width = g.width();
    let height = g.height();
    proof {
        g.lemma_wf_dims();
    }
    let mut next = Grid::new(width, height);
    let mut y: usize = 0;
    while y < height
        invariant
            g.wf(),
            width == g.cols(),
            height == g.rows(),
            y <= height,
            next.wf(),
            next.cols() == width,
            next.rows() == height,
            forall|i: int, j: int|
                0 <= i < width && 0 <= j < y ==> #[trigger] next.alive(i, j) == next_state(
                    g.alive(i, j),
                    live_neighbors(*g, i, j),
                ),
        decreases height - y,
    {
        let mut x: usize = 0;
        while x < width
            invariant
                g.wf(),
                width == g.cols(),
                height == g.rows(),
                y < height,
                x <= width,
                next.wf(),
                next.cols() == width,
                next.rows() == height,
                forall|i: int, j: int|
                    0 <= i < width && 0 <= j < height && (j < y || (j == y && i < x))
                        ==> #[trigger] next.alive(i, j) == next_state(
                        g.alive(i, j),
                        live_neighbors(*g, i, j),
                    ),
            decreases width - x,
        {
            let n = count_neighbors(g, x, y);
            let alive = g.get(x, y);
            let lives = if alive { n == 2 || n == 3 } else { n == 3 };
            next.set(x, y, lives);
            x = x + 1;
        }
        y = y + 1;
    }
    next
}

/// Two successors of one grid are the same grid: the next generation is a
/// function of the current one alone.
pub proof fn lemma_successor_unique(g: Grid, a: Grid, b: Grid)
    requires
        g.wf(),
        is_successor(g, a),
        is_successor(g, b),
    ensures
        a.same_cells(&b),
        a.flat() == b.flat(),
{
    assert(a.flat() =~= b.flat()) by {
        assert forall|i: int| 0 <= i < a.flat().len() implies #[trigger] a.flat()[i] == b.flat()[i] by {
            let w = a.cols() as int;
            vstd::arithmetic::div_mod::lemma_mod_bound(i, w);
            vstd::arithmetic::div_mod::lemma_div_pos_is_pos(i, w);
            assert(i / w < a.rows()) by {
                assert(w * a.rows() as int - 1 == (a.rows() as int - 1) * w + (w - 1)) by (nonlinear_arith);
                vstd::arithmetic::div_mod::lemma_div_is_ordered(i, w * a.rows() as int - 1, w);
                vstd::arithmetic::div_mod::lemma_fundamental_div_mod_converse(
                    w * a.rows() as int - 1, w, a.rows() as int - 1, w - 1);
            }
        }
    }
}

/// A live cell with no live neighbour is dead in the next generation, and a
/// grid with no live cell stays without one.
pub proof fn lemma_isolation_kills(g: Grid, next: Grid)
    requires
        g.wf(),
        is_successor(g, next),
    ensures
        forall|x: int, y: int|
            0 <= x < g.cols() && 0 <= y < g.rows() && live_neighbors(g, x, y) == 0 ==> !#[trigger] next.alive(x, y),
        (forall|x: int, y: int| 0 <= x < g.cols() && 0 <= y < g.rows() ==> !#[trigger] g.alive(x, y)) ==> forall|
            x: int,
            y: int,
        | 0 <= x < g.cols() && 0 <= y < g.rows() ==> !#[trigger] next.alive(x, y),
{
    if forall|x: int, y: int| 0 <= x < g.cols() && 0 <= y < g.rows() ==> !#[trigger] g.alive(x, y) {
        assert forall|x: int, y: int| 0 <= x < g.cols() && 0 <= y < g.rows() implies !#[trigger] next.alive(x, y) by {
            assert(!g.alive(x - 1, y - 1) || !in_bounds(g.cols() as int, g.rows() as int, x - 1, y - 1));
            assert(!g.alive(x, y - 1) || !in_bounds(g.cols() as int, g.rows() as int, x, y - 1));
            assert(!g.alive(x + 1, y - 1) || !in_bounds(g.cols() as int, g.rows() as int, x + 1, y - 1));
            assert(!g.alive(x - 1, y) || !in_bounds(g.cols() as int, g.rows() as int, x - 1, y));
            assert(!g.alive(x + 1, y) || !in_bounds(g.cols() as int, g.rows() as int, x + 1, y));
            assert(!g.alive(x - 1, y + 1) || !in_bounds(g.cols() as int, g.rows() as int, x - 1, y + 1));
            assert(!g.alive(x, y + 1) || !in_bounds(g.cols() as int, g.rows() as int, x, y + 1));
            assert(!g.alive(x + 1, y + 1) || !in_bounds(g.cols() as int, g.rows() as int, x + 1, y + 1));
        }
    }
}

/// At the border fewer neighbours count: a corner cell has at most three
/// candidates, a cell on an edge at most five, and the live neighbours never
/// outnumber the candidates.
pub proof fn lemma_border_candidates(g: Grid, x: int, y: int)
    requires
        g.wf(),
        in_bounds(g.cols() as int, g.rows() as int, x, y),
    ensures
        live_neighbors(g, x, y) <= candidate_neighbors(g.cols() as int, g.rows() as int, x, y),
        (x == 0 || x == g.cols() - 1) && (y == 0 || y == g.rows() - 1)
            ==> candidate_neighbors(g.cols() as int, g.rows() as int, x, y) <= 3,
        (x == 0 || x == g.cols() - 1 || y == 0 || y == g.rows() - 1)
            ==> candidate_neighbors(g.cols() as int, g.rows() as int, x, y) <= 5,
{
}

/// The neighbour count of `(x, y)` depends only on the cells next to it, so a
/// cell on one edge never sees the opposite edge of a grid three or more cells
/// across.
pub proof fn lemma_neighbors_local(g1: Grid, g2: Grid, x: int, y: int)
    requires
        g1.cols() == g2.cols(),
        g1.rows() == g2.rows(),
        forall|i: int, j: int|
            x - 1 <= i <= x + 1 && y - 1 <= j <= y + 1 && in_bounds(g1.cols() as int, g1.rows() as int, i, j)
                ==> #[trigger] g1.alive(i, j) == g2.alive(i, j),
    ensures
        live_neighbors(g1, x, y) == live_neighbors(g2, x, y),
{
    assert(g1.alive(x - 1, y - 1) == g2.alive(x - 1, y - 1) || !in_bounds(g1.cols() as int, g1.rows() as int, x - 1, y - 1));
    assert(g1.alive(x, y - 1) == g2.alive(x, y - 1) || !in_bounds(g1.cols() as int, g1.rows() as int, x, y - 1));
    assert(g1.alive(x + 1, y - 1) == g2.alive(x + 1, y - 1) || !in_bounds(g1.cols() as int, g1.rows() as int, x + 1, y - 1));
    assert(g1.alive(x - 1, y) == g2.alive(x - 1, y) || !in_bounds(g1.cols() as int, g1.rows() as int, x - 1, y));
    assert(g1.alive(x + 1, y) == g2.alive(x + 1, y) || !in_bounds(g1.cols() as int, g1.rows() as int, x + 1, y));
    assert(g1.alive(x - 1, y + 1) == g2.alive(x - 1, y + 1) || !in_bounds(g1.cols() as int, g1.rows() as int, x - 1, y + 1));
    assert(g1.alive(x, y + 1) == g2.alive(x, y + 1) || !in_bounds(g1.cols() as int, g1.rows() as int, x, y + 1));
    assert(g1.alive(x + 1, y + 1) == g2.alive(x + 1, y + 1) || !in_bounds(g1.cols() as int, g1.rows() as int, x + 1, y + 1));
}

/// Replaces `board` by its next generation.
pub fn iterate_board(board: &mut Grid)
    requires
        old(board).wf(),
    ensures
        is_successor(*old(board), *final(board)),
{
    let next = advance(board);
    *board = next;
}

} // verus!
