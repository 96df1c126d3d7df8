//! The executable grid and the operations on it.

use vstd::prelude::*;
use crate::cell::{CellState, symbol_of};
use crate::stats::{PopulationStats, occurrences, lemma_occurrences_partition};
use crate::laws::lemma_step_transitions_everywhere;
use crate::model::{
    GridModel, lemma_index, lemma_index_split, lemma_iterate_wf, lemma_wrap, wrap, offset_dx,
    offset_dy, translate, shift_between, all_land_in, is_glider_shift, first_glider_shift,
    glider_shift,
};

verus! {

/// A 2D grid for ternary Game of Life, stored row by row.
#[derive(Debug, Clone, PartialEq, Eq)]
pub struct TernaryGrid {
    width: usize,
    height: usize,
    cells: Vec<CellState>,
}

impl View for TernaryGrid {
    type V = GridModel;

    closed spec fn view(&self) -> GridModel {
        GridModel { width: self.width as nat, height: self.height as nat, cells: self.cells@ }
    }
}

impl TernaryGrid {
    /// Create a new grid filled with Dead cells.
    pub fn new(width: usize, height: usize) -> (g: TernaryGrid)
        requires
            width * height <= usize::MAX,
        ensures
            g@ == GridModel::blank(width as nat, height as nat),
            g@.wf(),
    {
        let n = width * height;
        let mut cells: Vec<CellState> = Vec::new();
        let mut i: usize = 0;
        while i < n
            invariant
                i <= n,
                cells@ == Seq::new(i as nat, |k: int| CellState::Dead),
            decreases n - i,
        {
            cells.push(CellState::Dead);
            i = i + 1;
        }
        TernaryGrid { width, height, cells }
    }

    /// Create a grid from its cells in row-major order; None unless there
    /// are exactly `width * height` of them.
    pub fn from_cells(width: usize, height: usize, cells: Vec<CellState>) -> (r: Option<TernaryGrid>)
        ensures
            r is None <==> cells@.len() != width * height,
            r matches Some(g) ==> g@.wf() && g@ == (GridModel { width: width as nat, height: height as nat, cells: cells@ }),
    {
        let len = cells.len();
        match width.checked_mul(height) {
            Some(n) => {
                if len != n {
                    return None;
                }
                Some(TernaryGrid { width, height, cells })
            },
            None => None,
        }
    }

    /// Width of the grid.
    pub fn width(&self) -> (w: usize)
        ensures
            w == self@.width,
    {
        self.width
    }

    /// Height of the grid.
    pub fn height(&self) -> (h: usize)
        ensures
            h == self@.height,
    {
        self.height
    }

    /// Get the cell at (x, y), or None off the grid.
    pub fn get(&self, x: usize, y: usize) -> (r: Option<CellState>)
        requires
            self@.wf(),
        ensures
            r == self@.get(x as int, y as int),
    {
        if x < self.width && y < self.height {
            proof {
                lemma_index(self.width as int, self.height as int, x as int, y as int);
            }
            Some(self.cells[y * self.width + x])
        } else {
            None
        }
    }

    /// Set the cell at (x, y); off the grid nothing changes.
    pub fn set(&mut self, x: usize, y: usize, state: CellState)
        requires
            old(self)@.wf(),
        ensures
            final(self)@.wf(),
            final(self)@.width == old(self)@.width,
            final(self)@.height == old(self)@.height,
            final(self)@ == old(self)@.set(x as int, y as int, state),
    {
        if x < self.width && y < self.height {
            proof {
                lemma_index(self.width as int, self.height as int, x as int, y as int);
            }
            let i = y * self.width + x;
            self.cells.set(i, state);
        }
    }

    /// The coordinate one step before, at, or after `a` (for `d` = 0, 1, 2)
    /// on a torus of size `n`.
    fn wrapped(a: usize, d: usize, n: usize) -> (r: usize)
        requires
            0 < n <= i32::MAX,
            d < 3,
        ensures
            r == wrap(a as int, d - 1, n as int),
            r < n,
    {
        proof {
            lemma_wrap(a as int, d - 1, n as int);
        }
        let m = a % n;
        if d == 0 {
            if m == 0 {
                n - 1
            } else {
                m - 1
            }
        } else if d == 1 {
            m
        } else if m + 1 == n {
            0
        } else {
            m + 1
        }
    }

    /// Count the neighbours of (x, y) in each state, wrapping at the edges
    /// (toroidal): the result is (dead, dormant, alive).
    pub fn count_neighbors(&self, x: usize, y: usize) -> (r: (usize, usize, usize))
        requires
            self@.wf(),
            0 < self@.width <= i32::MAX,
            0 < self@.height <= i32::MAX,
            x < i32::MAX,
            y < i32::MAX,
        ensures
            r.0 == self@.neighbor_count(x as int, y as int, CellState::Dead),
            r.1 == self@.neighbor_count(x as int, y as int, CellState::Dormant),
            r.2 == self@.neighbor_count(x as int, y as int, CellState::Alive),
            r.0 + r.1 + r.2 == 8,
    {
        let mut dead: usize = 0;
        let mut dormant: usize = 0;
        let mut alive: usize = 0;
        let mut k: usize = 0;
        while k < 8
            invariant
                self@.wf(),
                0 < self@.width <= i32::MAX,
                0 < self@.height <= i32::MAX,
                k <= 8,
                dead == self@.count_first_neighbors(x as int, y as int, CellState::Dead, k as nat),
                dormant == self@.count_first_neighbors(x as int, y as int, CellState::Dormant, k as nat),
                alive == self@.count_first_neighbors(x as int, y as int, CellState::Alive, k as nat),
                dead + dormant + alive == k,
            decreases 8 - k,
        {
            let dx: usize = if k == 0 || k == 3 || k == 5 {
                0
            } else if k == 1 || k == 6 {
                1
            } else {
                2
            };
            let dy: usize = if k < 3 {
                0
            } else if k < 5 {
                1
            } else {
                2
            };
            assert(dx - 1 == offset_dx(k as int));
            assert(dy - 1 == offset_dy(k as int));
            let nx = Self::wrapped(x, dx, self.width);
            let ny = Self::wrapped(y, dy, self.height);
            proof {
                lemma_index(self.width as int, self.height as int, nx as int, ny as int);
            }
            match self.cells[ny * self.width + nx] {
                CellState::Dead => dead += 1,
                CellState::Dormant => dormant += 1,
                CellState::Alive => alive += 1,
            }
            k = k + 1;
        }
        (dead, dormant, alive)
    }

    /// The state cell (x, y) takes in the next generation (see `rule`).
    fn next_state(&self, x: usize, y: usize) -> (s: CellState)
        requires
            self@.wf(),
            self@.width <= i32::MAX,
            self@.height <= i32::MAX,
            x < self@.width,
            y < self@.height,
        ensures
            s == self@.next_cell(x as int, y as int),
    {
        let (_dead, dormant, alive) = self.count_neighbors(x, y);
        proof {
            lemma_index(self.width as int, self.height as int, x as int, y as int);
        }
        let current = self.cells[y * self.width + x];
        match current {
            CellState::Alive => {
                if alive < 2 || alive > 3 {
                    CellState::Dead
                } else {
                    CellState::Alive
                }
            },
            CellState::Dormant => {
                if alive == 3 {
                    CellState::Alive
                } else {
                    CellState::Dormant
                }
            },
            CellState::Dead => {
                if alive == 3 {
                    CellState::Dormant
                } else if alive == 2 && dormant >= 3 {
                    CellState::Dormant
                } else {
                    CellState::Dead
                }
            },
        }
    }

    /// Advance the grid by one generation.
    pub fn step(&self) -> (next: TernaryGrid)
        requires
            self@.wf(),
            self@.coords_fit(),
        ensures
            next@ == self@.step(),
            next@.wf(),
            next@.width == self@.width,
            next@.height == self@.height,
            forall|x: int, y: int|
                #![trigger next@.cell(x, y)]
                self@.in_bounds(x, y) ==> {
                    &&& self@.cell(x, y) == CellState::Dead ==> next@.cell(x, y) != CellState::Alive
                    &&& self@.cell(x, y) == CellState::Alive ==> next@.cell(x, y) != CellState::Dormant
                    &&& self@.cell(x, y) == CellState::Dormant ==> next@.cell(x, y) != CellState::Dead
                },
    {
        let w = self.width;
        let h = self.height;
        let mut cells: Vec<CellState> = Vec::new();
        let mut y: usize = 0;
        while y < h
            invariant
                self@.wf(),
                self@.coords_fit(),
                w == self@.width,
                h == self@.height,
                y <= h,
                cells@.len() == y * w,
                forall|i: int|
                    0 <= i < cells@.len() ==> #[trigger] cells@[i] == self@.next_cell(
                        i % (w as int),
                        i / (w as int),
                    ),
            decreases h - y,
        {
            let mut x: usize = 0;
            while x < w
                invariant
                    self@.wf(),
                    self@.coords_fit(),
                    w == self@.width,
                    h == self@.height,
                    y < h,
                    x <= w,
                    cells@.len() == y * w + x,
                    forall|i: int|
                        0 <= i < cells@.len() ==> #[trigger] cells@[i] == self@.next_cell(
                            i % (w as int),
                            i / (w as int),
                        ),
                decreases w - x,
            {
                proof {
                    lemma_index(w as int, h as int, x as int, y as int);
                    assert(w * h > 0) by (nonlinear_arith)
                        requires
                            x < w,
                            y < h,
                    ;
                }
                let s = self.next_state(x, y);
                cells.push(s);
                x = x + 1;
            }
            proof {
                assert((y + 1) * w == y * w + w) by (nonlinear_arith);
            }
            y = y + 1;
        }
        proof {
            assert(y * w == w * h) by (nonlinear_arith)
                requires
                    y == h,
            ;
            assert(cells@ =~= self@.step().cells);
            lemma_step_transitions_everywhere(self@);
        }
        TernaryGrid { width: w, height: h, cells }
    }

    /// A copy of the grid with the same dimensions and cells.
    pub fn duplicate(&self) -> (g: TernaryGrid)
        ensures
            g@ == self@,
    {
        let cells = self.cells.clone();
        proof {
            assert(cells@ =~= self.cells@);
        }
        TernaryGrid { width: self.width, height: self.height, cells }
    }

    /// Whether two grids have the same dimensions and the same cells.
    pub fn same_as(&self, other: &TernaryGrid) -> (r: bool)
        requires
            self@.wf(),
            other@.wf(),
        ensures
            r == (self@ == other@),
    {
        if self.width != other.width || self.height != other.height {
            return false;
        }
        let n = self.cells.len();
        let mut i: usize = 0;
        while i < n
            invariant
                n == self.cells@.len(),
                n == other.cells@.len(),
                i <= n,
                forall|j: int| 0 <= j < i ==> self.cells@[j] == other.cells@[j],
            decreases n - i,
        {
            if self.cells[i] != other.cells[i] {
                return false;
            }
            i = i + 1;
        }
        proof {
            assert(self.cells@ =~= other.cells@);
        }
        true
    }

    /// Population statistics: how many cells are in each state, and how many
    /// cells there are.
    pub fn population(&self) -> (p: PopulationStats)
        requires
            self@.wf(),
        ensures
            p.dead == occurrences(self@.cells, CellState::Dead),
            p.dormant == occurrences(self@.cells, CellState::Dormant),
            p.alive == occurrences(self@.cells, CellState::Alive),
            p.total == self@.cells.len(),
            p.total == self@.width * self@.height,
            p.dead + p.dormant + p.alive == p.total,
    {
        let mut dead: usize = 0;
        let mut dormant: usize = 0;
        let mut alive: usize = 0;
        let n = self.cells.len();
        let mut i: usize = 0;
        while i < n
            invariant
                n == self.cells@.len(),
                i <= n,
                dead == occurrences(self.cells@.take(i as int), CellState::Dead),
                dormant == occurrences(self.cells@.take(i as int), CellState::Dormant),
                alive == occurrences(self.cells@.take(i as int), CellState::Alive),
                dead + dormant + alive == i,
            decreases n - i,
        {
            proof {
                assert(self.cells@.take(i + 1).drop_last() =~= self.cells@.take(i as int));
            }
            match self.cells[i] {
                CellState::Dead => dead += 1,
                CellState::Dormant => dormant += 1,
                CellState::Alive => alive += 1,
            }
            i = i + 1;
        }
        proof {
            assert(self.cells@.take(n as int) =~= self.cells@);
            lemma_occurrences_partition(self.cells@);
        }
        PopulationStats { dead, dormant, alive, total: n }
    }

    /// Advance `n` generations, returning every intermediate grid: the
    /// `i`-th grid is the grid after `i + 1` generations.
    pub fn steps(&self, n: usize) -> (history: Vec<TernaryGrid>)
        requires
            self@.wf(),
            self@.coords_fit(),
        ensures
            history@.len() == n,
            forall|i: int| 0 <= i < n ==> #[trigger] history@[i]@ == self@.iterate((i + 1) as nat),
            forall|i: int|
                0 <= i < n ==> #[trigger] history@[i]@.wf() && history@[i]@.width == self@.width
                    && history@[i]@.height == self@.height,
    {
        let mut history: Vec<TernaryGrid> = Vec::new();
        let mut current = self.duplicate();
        let mut i: usize = 0;
        while i < n
            invariant
                self@.wf(),
                self@.coords_fit(),
                i <= n,
                current@ == self@.iterate(i as nat),
                history@.len() == i,
                forall|j: int| 0 <= j < i ==> #[trigger] history@[j]@ == self@.iterate((j + 1) as nat),
                forall|j: int|
                    0 <= j < i ==> #[trigger] history@[j]@.wf() && history@[j]@.width == self@.width
                        && history@[j]@.height == self@.height,
            decreases n - i,
        {
            proof {
                lemma_iterate_wf(self@, i as nat);
            }
            current = current.step();
            proof {
                lemma_iterate_wf(self@, (i + 1) as nat);
            }
            history.push(current.duplicate());
            i = i + 1;
        }
        history
    }

    /// Whether the grid is a still life: one generation leaves it unchanged.
    pub fn is_still_life(&self) -> (r: bool)
        requires
            self@.wf(),
            self@.coords_fit(),
        ensures
            r == (self@.step() == self@),
    {
        let next = self.step();
        next.same_as(self)
    }

    /// The smallest period in 1..=20 after which the grid comes back to
    /// itself, or None if it does not within 20 generations.
    pub fn detect_oscillator(&self) -> (r: Option<usize>)
        requires
            self@.wf(),
            self@.coords_fit(),
        ensures
            match r {
                Some(p) => {
                    &&& 1 <= p <= 20
                    &&& self@.iterate(p as nat) == self@
                    &&& forall|q: nat| 1 <= q < p ==> #[trigger] self@.iterate(q) != self@
                },
                None => forall|q: nat| 1 <= q <= 20 ==> #[trigger] self@.iterate(q) != self@,
            },
    {
        let mut current = self.duplicate();
        let mut period: usize = 1;
        while period <= 20
            invariant
                self@.wf(),
                self@.coords_fit(),
                1 <= period <= 21,
                current@ == self@.iterate((period - 1) as nat),
                forall|q: nat| 1 <= q < period ==> #[trigger] self@.iterate(q) != self@,
            decreases 21 - period,
        {
            proof {
                lemma_iterate_wf(self@, (period - 1) as nat);
            }
            current = current.step();
            if current.same_as(self) {
                return Some(period);
            }
            period = period + 1;
        }
        None
    }

    /// Render the grid as text: each row as one symbol per cell followed by a
    /// newline.
    pub fn render(&self) -> (out: String)
        requires
            self@.wf(),
        ensures
            out@ == self@.render(),
    {
        let w = self.width;
        let h = self.height;
        let mut out = String::new();
        let mut y: usize = 0;
        while y < h
            invariant
                self@.wf(),
                w == self@.width,
                h == self@.height,
                y <= h,
                out@ == self@.render_rows(y as nat),
            decreases h - y,
        {
            let mut x: usize = 0;
            while x < w
                invariant
                    self@.wf(),
                    w == self@.width,
                    h == self@.height,
                    y < h,
                    x <= w,
                    out@ == self@.render_rows(y as nat) + Seq::new(
                        x as nat,
                        |i: int| symbol_of(self@.cell(i, y as int)),
                    ),
                decreases w - x,
            {
                proof {
                    lemma_index(w as int, h as int, x as int, y as int);
                }
                let sym = self.cells[y * w + x].symbol_str();
                out.append(sym);
                proof {
                    assert(Seq::new((x + 1) as nat, |i: int| symbol_of(self@.cell(i, y as int)))
                        =~= Seq::new(x as nat, |i: int| symbol_of(self@.cell(i, y as int))).push(
                        symbol_of(self@.cell(x as int, y as int)),
                    ));
                }
                x = x + 1;
            }
            let newline = "\n";
            proof {
                reveal_strlit("\n");
            }
            out.append(newline);
            proof {
                assert(self@.render_rows((y + 1) as nat) =~= self@.render_rows(y as nat)
                    + self@.render_row(y as int));
                assert(out@ =~= self@.render_rows((y + 1) as nat));
            }
            y = y + 1;
        }
        out
    }

    /// Positions of all Alive cells, row by row, left to right.
    fn alive_positions(&self) -> (positions: Vec<(usize, usize)>)
        requires
            self@.wf(),
        ensures
            positions@ == self@.alive_positions(),
            forall|k: int|
                0 <= k < positions@.len() ==> #[trigger] positions@[k].0 < self@.width
                    && positions@[k].1 < self@.height,
    {
        let w = self.width;
        let n = self.cells.len();
        let mut positions: Vec<(usize, usize)> = Vec::new();
        let mut i: usize = 0;
        while i < n
            invariant
                self@.wf(),
                w == self@.width,
                n == self@.cells.len(),
                i <= n,
                positions@ == self@.alive_prefix(i as nat),
                forall|k: int|
                    0 <= k < positions@.len() ==> #[trigger] positions@[k].0 < self@.width
                        && positions@[k].1 < self@.height,
            decreases n - i,
        {
            proof {
                lemma_index_split(w as int, self.height as int, i as int);
            }
            if self.cells[i] == CellState::Alive {
                positions.push((i % w, i / w));
            }
            i = i + 1;
        }
        positions
    }

    /// Whether position `p` occurs in `v`.
    fn contains_position(v: &Vec<(usize, usize)>, p: (usize, usize)) -> (r: bool)
        ensures
            r == v@.contains(p),
    {
        let mut i: usize = 0;
        while i < v.len()
            invariant
                i <= v@.len(),
                forall|k: int| 0 <= k < i ==> v@[k] != p,
            decreases v@.len() - i,
        {
            let q = v[i];
            if q.0 == p.0 && q.1 == p.1 {
                return true;
            }
            i = i + 1;
        }
        false
    }

    /// Coordinate `a` moved by `d` on a torus of size `n`.
    fn wrap_signed(a: usize, d: i64, n: usize) -> (r: usize)
        requires
            0 < n <= i32::MAX,
            a <= i32::MAX,
            -i32::MAX <= d <= i32::MAX,
        ensures
            r == wrap(a as int, d as int, n as int),
            r < n,
    {
        let t: i64 = a as i64 + d;
        let nn: u64 = n as u64;
        if t >= 0 {
            let r = (t as u64) % nn;
            r as usize
        } else {
            let neg: u64 = (-t) as u64;
            let m = neg % nn;
            proof {
                vstd::arithmetic::div_mod::lemma_fundamental_div_mod(neg as int, nn as int);
                let q = neg as int / nn as int;
                if m == 0 {
                    assert(t == (-q) * nn + 0) by (nonlinear_arith)
                        requires
                            neg == nn * q + m,
                            m == 0,
                            t == -neg,
                    ;
                    vstd::arithmetic::div_mod::lemma_fundamental_div_mod_converse(t as int, nn as int, -q, 0);
                } else {
                    assert(t == (-q - 1) * nn + (nn - m)) by (nonlinear_arith)
                        requires
                            neg == nn * q + m,
                            t == -neg,
                    ;
                    vstd::arithmetic::div_mod::lemma_fundamental_div_mod_converse(
                        t as int,
                        nn as int,
                        -q - 1,
                        nn - m,
                    );
                }
            }
            if m == 0 {
                0
            } else {
                (nn - m) as usize
            }
        }
    }

    /// Whether moving every position of `from` by (dx, dy) on a `w` by `h`
    /// torus lands on a position of `to`.
    fn all_translated(
        from: &Vec<(usize, usize)>,
        to: &Vec<(usize, usize)>,
        dx: i64,
        dy: i64,
        w: usize,
        h: usize,
    ) -> (r: bool)
        requires
            0 < w <= i32::MAX,
            0 < h <= i32::MAX,
            -i32::MAX <= dx <= i32::MAX,
            -i32::MAX <= dy <= i32::MAX,
            forall|k: int| 0 <= k < from@.len() ==> #[trigger] from@[k].0 < w && from@[k].1 < h,
        ensures
            r == all_land_in(from@, to@, (dx as int, dy as int), w as int, h as int),
    {
        let mut k: usize = 0;
        while k < from.len()
            invariant
                0 < w <= i32::MAX,
                0 < h <= i32::MAX,
                -i32::MAX <= dx <= i32::MAX,
                -i32::MAX <= dy <= i32::MAX,
                forall|k: int| 0 <= k < from@.len() ==> #[trigger] from@[k].0 < w && from@[k].1 < h,
                k <= from@.len(),
                forall|j: int|
                    0 <= j < k ==> to@.contains(
                        #[trigger] translate(from@[j], (dx as int, dy as int), w as int, h as int),
                    ),
            decreases from@.len() - k,
        {
            let p = from[k];
            let tx = Self::wrap_signed(p.0, dx, w);
            let ty = Self::wrap_signed(p.1, dy, h);
            assert((tx, ty) == translate(from@[k as int], (dx as int, dy as int), w as int, h as int));
            if !Self::contains_position(to, (tx, ty)) {
                return false;
            }
            k = k + 1;
        }
        true
    }

    /// Detect whether the Alive cells of `initial` have moved, as one rigid
    /// pattern, to give those of `after_steps`, and by which shift (see
    /// `glider_shift`).
    pub fn detect_glider(initial: &TernaryGrid, after_steps: &TernaryGrid) -> (r: Option<(i32, i32)>)
        requires
            initial@.wf(),
            after_steps@.wf(),
            initial@.alive_positions().len() == after_steps@.alive_positions().len()
                && initial@.alive_positions().len() > 0 ==> initial@.coords_fit()
                && after_steps@.coords_fit(),
        ensures
            match r {
                Some((dx, dy)) => glider_shift(initial@, after_steps@) == Some((dx as int, dy as int)),
                None => glider_shift(initial@, after_steps@) is None,
            },
    {
        let from = initial.alive_positions();
        let to = after_steps.alive_positions();
        if from.len() != to.len() || from.len() == 0 {
            return None;
        }
        let w = initial.width;
        let h = initial.height;
        proof {
            assert(w * h > 0) by (nonlinear_arith)
                requires
                    from@[0].0 < w,
                    from@[0].1 < h,
            ;
            assert(after_steps@.width * after_steps@.height > 0) by (nonlinear_arith)
                requires
                    to@[0].0 < after_steps@.width,
                    to@[0].1 < after_steps@.height,
            ;
        }
        let first = from[0];
        let mut j: usize = 0;
        while j < to.len()
            invariant
                from@ == initial@.alive_positions(),
                to@ == after_steps@.alive_positions(),
                from@.len() == to@.len(),
                from@.len() > 0,
                first == from@[0],
                w == initial@.width,
                h == initial@.height,
                0 < w <= i32::MAX,
                0 < h <= i32::MAX,
                after_steps@.width <= i32::MAX,
                after_steps@.height <= i32::MAX,
                forall|k: int| 0 <= k < from@.len() ==> #[trigger] from@[k].0 < w && from@[k].1 < h,
                forall|k: int|
                    0 <= k < to@.len() ==> #[trigger] to@[k].0 < after_steps@.width && to@[k].1
                        < after_steps@.height,
                j <= to@.len(),
                glider_shift(initial@, after_steps@) == first_glider_shift(
                    from@,
                    to@,
                    j as int,
                    w as int,
                    h as int,
                ),
            decreases to@.len() - j,
        {
            let p = to[j];
            let dx: i64 = p.0 as i64 - first.0 as i64;
            let dy: i64 = p.1 as i64 - first.1 as i64;
            assert((dx as int, dy as int) == shift_between(from@[0], to@[j as int]));
            if (dx != 0 || dy != 0) && Self::all_translated(&from, &to, dx, dy, w, h) {
                assert(is_glider_shift(from@, to@, j as int, w as int, h as int));
                return Some((dx as i32, dy as i32));
            }
            assert(!is_glider_shift(from@, to@, j as int, w as int, h as int));
            j = j + 1;
        }
        None
    }

    /// Whether every cell of the `s` by `s` window at (x, y) keeps its
    /// state, `next` being the next generation.
    fn window_unchanged(&self, next: &TernaryGrid, x: usize, y: usize, s: usize) -> (r: bool)
        requires
            self@.wf(),
            next@ == self@.step(),
            x + s <= self@.width,
            y + s <= self@.height,
        ensures
            r == self@.window_still(x as int, y as int, s as int),
    {
        let w = self.width;
        let h = self.height;
        let mut dy: usize = 0;
        while dy < s
            invariant
                self@.wf(),
                next@ == self@.step(),
                w == self@.width,
                h == self@.height,
                x + s <= w,
                y + s <= h,
                dy <= s,
                forall|i: int, j: int|
                    0 <= i < s && 0 <= j < dy ==> #[trigger] self@.next_cell(x + i, y + j)
                        == self@.cell(x + i, y + j),
            decreases s - dy,
        {
            let mut dx: usize = 0;
            while dx < s
                invariant
                    self@.wf(),
                    next@ == self@.step(),
                    w == self@.width,
                    h == self@.height,
                    x + s <= w,
                    y + s <= h,
                    dy < s,
                    dx <= s,
                    forall|i: int, j: int|
                        0 <= i < s && 0 <= j < dy ==> #[trigger] self@.next_cell(x + i, y + j)
                            == self@.cell(x + i, y + j),
                    forall|i: int|
                        0 <= i < dx ==> #[trigger] self@.next_cell(x + i, y + dy) == self@.cell(
                            x + i,
                            y + dy,
                        ),
                decreases s - dx,
            {
                let cx = x + dx;
                let cy = y + dy;
                proof {
                    lemma_index(w as int, h as int, cx as int, cy as int);
                }
                let i = cy * w + cx;
                if next.cells[i] != self.cells[i] {
                    assert(self@.next_cell(x + dx, y + dy) != self@.cell(x + dx, y + dy));
                    return false;
                }
                dx = dx + 1;
            }
            dy = dy + 1;
        }
        true
    }

    /// Whether some cell of the `s` by `s` window at (x, y) is Alive.
    fn window_alive(&self, x: usize, y: usize, s: usize) -> (r: bool)
        requires
            self@.wf(),
            x + s <= self@.width,
            y + s <= self@.height,
        ensures
            r == self@.window_has_alive(x as int, y as int, s as int),
    {
        let w = self.width;
        let h = self.height;
        let mut dy: usize = 0;
        while dy < s
            invariant
                self@.wf(),
                w == self@.width,
                h == self@.height,
                x + s <= w,
                y + s <= h,
                dy <= s,
                forall|i: int, j: int|
                    0 <= i < s && 0 <= j < dy ==> #[trigger] self@.cell(x + i, y + j)
                        != CellState::Alive,
            decreases s - dy,
        {
            let mut dx: usize = 0;
            while dx < s
                invariant
                    self@.wf(),
                    w == self@.width,
                    h == self@.height,
                    x + s <= w,
                    y + s <= h,
                    dy < s,
                    dx <= s,
                    forall|i: int, j: int|
                        0 <= i < s && 0 <= j < dy ==> #[trigger] self@.cell(x + i, y + j)
                            != CellState::Alive,
                    forall|i: int| 0 <= i < dx ==> #[trigger] self@.cell(x + i, y + dy) != CellState::Alive,
                decreases s - dx,
            {
                let cx = x + dx;
                let cy = y + dy;
                proof {
                    lemma_index(w as int, h as int, cx as int, cy as int);
                }
                if self.cells[cy * w + cx] == CellState::Alive {
                    assert(self@.cell(x + dx, y + dy) == CellState::Alive);
                    return true;
                }
                dx = dx + 1;
            }
            dy = dy + 1;
        }
        false
    }

    /// Find every `search_size` by `search_size` window of the grid that
    /// holds an Alive cell and does not change in one generation; each is
    /// returned as (x, y, width, height), row by row.
    pub fn find_still_lives(&self, search_size: usize) -> (found: Vec<(usize, usize, usize, usize)>)
        requires
            self@.wf(),
            0 < search_size <= self@.width && search_size <= self@.height ==> self@.coords_fit(),
        ensures
            found@ == self@.still_lives(search_size as nat),
    {
        let mut found: Vec<(usize, usize, usize, usize)> = Vec::new();
        let s = search_size;
        if s == 0 || s > self.width || s > self.height {
            return found;
        }
        let next = self.step();
        let cols = self.width - s + 1;
        let rows = self.height - s + 1;
        proof {
            assert(cols * rows <= self.width * self.height) by (nonlinear_arith)
                requires
                    0 < cols <= self.width,
                    0 < rows <= self.height,
            ;
        }
        let n = cols * rows;
        let mut i: usize = 0;
        while i < n
            invariant
                self@.wf(),
                next@ == self@.step(),
                0 < s <= self@.width,
                s <= self@.height,
                cols == self@.width - s + 1,
                rows == self@.height - s + 1,
                n == cols * rows,
                i <= n,
                found@ == self@.still_windows_prefix(s as nat, i as nat),
            decreases n - i,
        {
            proof {
                lemma_index_split(cols as int, rows as int, i as int);
            }
            let x = i % cols;
            let y = i / cols;
            if self.window_unchanged(&next, x, y, s) && self.window_alive(x, y, s) {
                found.push((x, y, s, s));
            }
            i = i + 1;
        }
        found
    }
}

} // verus!
