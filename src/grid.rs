use vstd::prelude::*;

verus! {

/// Relies on fastrand::bool: one value drawn from the thread-local generator.
/// Nothing is promised about which value comes out.
pub assume_specification[ fastrand::bool ]() -> bool;

/// A rectangular matrix of cells, stored flat in row-major order.
pub struct Grid {
    width: usize,
    height: usize,
    cells: Vec<bool>,
}

/// The position of cell `(x, y)` in the row-major layout of a grid `w` cells wide.
pub open spec fn flat_index(w: int, x: int, y: int) -> int {
    y * w + x
}

proof fn lemma_flat_index_in_range(w: int, h: int, x: int, y: int)
    requires
        0 <= x < w,
        0 <= y < h,
    ensures
        0 <= flat_index(w, x, y) < w * h,
        y * w <= w * h - w,
{
    assert(y * w <= (h - 1) * w) by (nonlinear_arith)
        requires
            0 <= y < h,
            0 <= w,
    ;
    assert((h - 1) * w == w * h - w) by (nonlinear_arith);
    assert(0 <= y * w) by (nonlinear_arith)
        requires
            0 <= y,
            0 <= w,
    ;
}

proof fn lemma_flat_index_injective(w: int, x1: int, y1: int, x2: int, y2: int)
    requires
        0 <= x1 < w,
        0 <= x2 < w,
        0 <= y1,
        0 <= y2,
        flat_index(w, x1, y1) == flat_index(w, x2, y2),
    ensures
        x1 == x2,
        y1 == y2,
{
    if y1 < y2 {
        assert(y1 * w + w <= y2 * w) by (nonlinear_arith)
            requires
                y1 < y2,
                0 <= w,
        ;
    } else if y2 < y1 {
        assert(y2 * w + w <= y1 * w) by (nonlinear_arith)
            requires
                y2 < y1,
                0 <= w,
        ;
    }
}

/// Number of `true` entries in `s`.
pub open spec fn count_true(s: Seq<bool>) -> nat
    decreases s.len(),
{
    if s.len() == 0 {
        0
    } else {
        count_true(s.drop_last()) + if s.last() { 1nat } else { 0nat }
    }
}

proof fn lemma_count_true_bounded(s: Seq<bool>)
    ensures
        count_true(s) <= s.len(),
    decreases s.len(),
{
    if s.len() > 0 {
        lemma_count_true_bounded(s.drop_last());
    }
}

impl Grid {
    /// Number of columns.
    pub closed spec fn cols(&self) -> nat {
        self.width as nat
    }

    /// Number of rows.
    pub closed spec fn rows(&self) -> nat {
        self.height as nat
    }

    /// Whether cell `(x, y)` is alive; meaningful for `x < cols()` and `y < rows()`.
    pub closed spec fn alive(&self, x: int, y: int) -> bool {
        self.cells@[flat_index(self.width as int, x, y)]
    }

    /// Both dimensions are positive, the cell count fits in `usize`, and the
    /// storage holds exactly one entry per cell.
    pub closed spec fn wf(&self) -> bool {
        &&& self.width >= 1
        &&& self.height >= 1
        &&& self.width * self.height <= usize::MAX
        &&& self.cells@.len() == self.width * self.height
    }

    /// The cells in row-major order: the canonical flattening of the grid.
    pub open spec fn flat(&self) -> Seq<bool> {
        Seq::new(self.cols() * self.rows(), |i: int| self.alive(i % self.cols() as int, i / self.cols() as int))
    }

    /// The fingerprint of the grid: its width and its cells in row-major
    /// order, which together fix the height too.
    pub open spec fn key(&self) -> (usize, Seq<bool>) {
        (self.cols() as usize, self.flat())
    }

    /// Whether `other` has the same dimensions and the same cell states.
    pub open spec fn same_cells(&self, other: &Grid) -> bool {
        &&& self.cols() == other.cols()
        &&& self.rows() == other.rows()
        &&& forall|x: int, y: int|
            0 <= x < self.cols() && 0 <= y < self.rows() ==> #[trigger] self.alive(x, y) == other.alive(x, y)
    }

    proof fn lemma_flat_is_cells(&self)
        requires
            self.wf(),
        ensures
            self.flat() == self.cells@,
    {
        let w = self.width as int;
        assert forall|i: int| 0 <= i < self.flat().len() implies #[trigger] self.flat()[i] == self.cells@[i] by {
            vstd::arithmetic::div_mod::lemma_fundamental_div_mod(i, w);
            assert(0 <= i % w < w) by {
                vstd::arithmetic::div_mod::lemma_mod_bound(i, w);
            }
            assert(i == w * (i / w) + i % w);
            assert(w * (i / w) == (i / w) * w) by (nonlinear_arith);
        }
        assert(self.flat() =~= self.cells@);
    }

    /// A well-formed grid has positive dimensions whose product fits in `usize`.
    pub proof fn lemma_wf_dims(&self)
        requires
            self.wf(),
        ensures
            self.cols() >= 1,
            self.rows() >= 1,
            self.cols() * self.rows() <= usize::MAX,
    {
    }

    /// A grid of `width` by `height` dead cells.
    pub fn new(width: usize, height: usize) -> (g: Grid)
        requires
            width >= 1,
            height >= 1,
            width * height <= usize::MAX,
        ensures
            g.wf(),
            g.cols() == width,
            g.rows() == height,
            forall|x: int, y: int| 0 <= x < width && 0 <= y < height ==> !#[trigger] g.alive(x, y),
    {
        let cells = vec![false; width * height];
        let g = Grid { width, height, cells };
        assert forall|x: int, y: int| 0 <= x < width && 0 <= y < height implies !#[trigger] g.alive(x, y) by {
            lemma_flat_index_in_range(width as int, height as int, x, y);
        }
        g
    }

    pub fn width(&self) -> (r: usize)
        ensures
            r == self.cols(),
    {
        self.width
    }

    pub fn height(&self) -> (r: usize)
        ensures
            r == self.rows(),
    {
        self.height
    }

    /// A grid filled column by column from `draws`: cell `(x, y)` is alive
    /// exactly when `draws[x * height + y]` is true.
    pub fn from_draws(width: usize, height: usize, draws: &Vec<bool>) -> (g: Grid)
        requires
            width >= 1,
            height >= 1,
            width * height <= usize::MAX,
            draws@.len() == width * height,
        ensures
            g.wf(),
            g.cols() == width,
            g.rows() == height,
            forall|x: int, y: int|
                0 <= x < width && 0 <= y < height ==> #[trigger] g.alive(x, y) == draws@[x * height + y],
    {
        let mut g = Grid::new(width, height);
        let mut x: usize = 0;
        let mut k: usize = 0;
        while x < width
            invariant
                g.wf(),
                g.cols() == width,
                g.rows() == height,
                width * height <= usize::MAX,
                draws@.len() == width * height,
                x <= width,
                k == x * height,
                forall|i: int, j: int|
                    0 <= i < x && 0 <= j < height ==> #[trigger] g.alive(i, j) == draws@[i * height + j],
            decreases width - x,
        {
            proof {
                assert((x + 1) * height <= width * height) by (nonlinear_arith)
                    requires
                        x < width,
                        height >= 1,
                ;
                assert((x + 1) * height == x * height + height) by (nonlinear_arith);
            }
            let mut y: usize = 0;
            while y < height
                invariant
                    g.wf(),
                    g.cols() == width,
                    g.rows() == height,
                    draws@.len() == width * height,
                    x < width,
                    y <= height,
                    k == x * height + y,
                    x * height + height <= width * height,
                    forall|i: int, j: int|
                        0 <= j < height && (i < x || (i == x && j < y)) && 0 <= i
                            ==> #[trigger] g.alive(i, j) == draws@[i * height + j],
                decreases height - y,
            {
                g.set(x, y, draws[k]);
                y = y + 1;
                k = k + 1;
            }
            x = x + 1;
        }
        g
    }

    /// A grid whose cells are each drawn at random, alive or dead: the
    /// draws are made one after another and laid out column by column as
    /// `from_draws` states.
    pub fn random(width: usize, height: usize) -> (g: Grid)
        requires
            width >= 1,
            height >= 1,
            width * height <= usize::MAX,
        ensures
            g.wf(),
            g.cols() == width,
            g.rows() == height,
    {
        let n = width * height;
        let mut draws: Vec<bool> = Vec::new();
        let mut i: usize = 0;
        while i < n
            invariant
                i <= n,
                draws@.len() == i,
            decreases n - i,
        {
            draws.push(fastrand::bool());
            i = i + 1;
        }
        Grid::from_draws(width, height, &draws)
    }

    /// The width and the cells in row-major order, used to recognise a
    /// repeated generation.
    pub fn fingerprint(&self) -> (r: (usize, Vec<bool>))
        requires
            self.wf(),
        ensures
            (r.0, r.1@) == self.key(),
    {
        proof {
            self.lemma_flat_is_cells();
        }
        let cells = self.cells.clone();
        assert(cells@ =~= self.cells@);
        (self.width, cells)
    }

    /// Number of live cells.
    pub fn population(&self) -> (r: usize)
        requires
            self.wf(),
        ensures
            r == count_true(self.flat()),
    {
        proof {
            self.lemma_flat_is_cells();
        }
        let mut count: usize = 0;
        let mut i: usize = 0;
        while i < self.cells.len()
            invariant
                i <= self.cells@.len(),
                count == count_true(self.cells@.subrange(0, i as int)),
            decreases self.cells@.len() - i,
        {
            proof {
                let s = self.cells@.subrange(0, i as int + 1);
                assert(s.drop_last() =~= self.cells@.subrange(0, i as int));
                lemma_count_true_bounded(self.cells@.subrange(0, i as int));
            }
            if self.cells[i] {
                count = count + 1;
            }
            i = i + 1;
        }
        assert(self.cells@.subrange(0, i as int) =~= self.cells@);
        count
    }

    /// The state of cell `(x, y)`.
    pub fn get(&self, x: usize, y: usize) -> (r: bool)
        requires
            self.wf(),
            x < self.cols(),
            y < self.rows(),
        ensures
            r == self.alive(x as int, y as int),
    {
        proof {
            lemma_flat_index_in_range(self.width as int, self.height as int, x as int, y as int);
        }
        self.cells[y * self.width + x]
    }

    /// Sets cell `(x, y)` to `state`, leaving every other cell as it was.
    pub fn set(&mut self, x: usize, y: usize, state: bool)
        requires
            old(self).wf(),
            x < old(self).cols(),
            y < old(self).rows(),
        ensures
            final(self).wf(),
            final(self).cols() == old(self).cols(),
            final(self).rows() == old(self).rows(),
            final(self).alive(x as int, y as int) == state,
            forall|i: int, j: int|
                0 <= i < old(self).cols() && 0 <= j < old(self).rows() && (i != x || j != y)
                    ==> #[trigger] final(self).alive(i, j) == old(self).alive(i, j),
    {
        proof {
            lemma_flat_index_in_range(self.width as int, self.height as int, x as int, y as int);
        }
        let k = y * self.width + x;
        self.cells.set(k, state);
        proof {
            assert forall|i: int, j: int|
                0 <= i < old(self).cols() && 0 <= j < old(self).rows() && (i != x || j != y)
                    implies #[trigger] self.alive(i, j) == old(self).alive(i, j) by {
                lemma_flat_index_in_range(self.width as int, self.height as int, i, j);
                if flat_index(self.width as int, i, j) == k {
                    lemma_flat_index_injective(self.width as int, i, j, x as int, y as int);
                }
            }
        }
    }
}

} // verus!
