//! The mathematical model of a grid and of the ternary rules.

use vstd::prelude::*;
use crate::cell::{CellState, symbol_of};

verus! {

/// What a grid is: its dimensions and its cells in row-major order.
pub struct GridModel {
    pub width: nat,
    pub height: nat,
    pub cells: Seq<CellState>,
}

/// Index of cell (x, y) in a row-major sequence of rows of `width` cells.
pub open spec fn index_of(width: int, x: int, y: int) -> int {
    y * width + x
}

impl GridModel {
    /// The cell sequence holds exactly `width * height` cells, a count that
    /// fits in a `usize`.
    pub open spec fn wf(self) -> bool {
        &&& self.cells.len() == self.width * self.height
        &&& self.width * self.height <= usize::MAX
    }

    /// A grid of the given size whose cells are all Dead.
    pub open spec fn blank(width: nat, height: nat) -> GridModel {
        GridModel { width, height, cells: Seq::new(width * height, |i: int| CellState::Dead) }
    }

    /// (x, y) lies on the grid.
    pub open spec fn in_bounds(self, x: int, y: int) -> bool {
        0 <= x < self.width && 0 <= y < self.height
    }

    /// The cell at (x, y); meaningful for positions on the grid.
    pub open spec fn cell(self, x: int, y: int) -> CellState {
        self.cells[index_of(self.width as int, x, y)]
    }

    /// The cell at (x, y), or None off the grid.
    pub open spec fn get(self, x: int, y: int) -> Option<CellState> {
        if self.in_bounds(x, y) {
            Some(self.cell(x, y))
        } else {
            None
        }
    }

    /// The grid with cell (x, y) replaced by `s`; unchanged off the grid.
    pub open spec fn set(self, x: int, y: int, s: CellState) -> GridModel {
        if self.in_bounds(x, y) {
            GridModel { cells: self.cells.update(index_of(self.width as int, x, y), s), ..self }
        } else {
            self
        }
    }
}

/// Column offset of the `k`-th neighbour, for `k` in 0..8. The neighbours are
/// taken row by row: the three above (left to right), the left and right ones,
/// then the three below.
pub open spec fn offset_dx(k: int) -> int {
    if k == 0 || k == 3 || k == 5 {
        -1
    } else if k == 1 || k == 6 {
        0
    } else {
        1
    }
}

/// Row offset of the `k`-th neighbour, for `k` in 0..8.
pub open spec fn offset_dy(k: int) -> int {
    if k < 3 {
        -1
    } else if k < 5 {
        0
    } else {
        1
    }
}

/// Coordinate `a` moved by `d` on a torus of size `n` (Euclidean remainder).
pub open spec fn wrap(a: int, d: int, n: int) -> int {
    (a + d) % n
}

/// The ternary rule: the next state of a cell in state `current` that has
/// `alive` Alive and `dormant` Dormant neighbours.
///
/// An Alive cell survives with 2 or 3 Alive neighbours and dies otherwise.
/// A Dormant cell becomes Alive with exactly 3 Alive neighbours and stays
/// Dormant otherwise. A Dead cell becomes Dormant with exactly 3 Alive
/// neighbours, or with 2 Alive and at least 3 Dormant ones, and stays Dead
/// otherwise.
pub open spec fn rule(current: CellState, alive: nat, dormant: nat) -> CellState {
    match current {
        CellState::Alive => if alive == 2 || alive == 3 {
            CellState::Alive
        } else {
            CellState::Dead
        },
        CellState::Dormant => if alive == 3 {
            CellState::Alive
        } else {
            CellState::Dormant
        },
        CellState::Dead => if alive == 3 || (alive == 2 && dormant >= 3) {
            CellState::Dormant
        } else {
            CellState::Dead
        },
    }
}

impl GridModel {
    /// The `k`-th of the eight neighbours of (x, y), wrapping at the edges.
    pub open spec fn neighbor(self, x: int, y: int, k: int) -> CellState {
        self.cell(
            wrap(x, offset_dx(k), self.width as int),
            wrap(y, offset_dy(k), self.height as int),
        )
    }

    /// How many of the first `k` neighbours of (x, y) are in state `s`.
    pub open spec fn count_first_neighbors(self, x: int, y: int, s: CellState, k: nat) -> nat
        decreases k,
    {
        if k == 0 {
            0
        } else {
            self.count_first_neighbors(x, y, s, (k - 1) as nat) + if self.neighbor(
                x,
                y,
                k - 1,
            ) == s {
                1nat
            } else {
                0nat
            }
        }
    }

    /// How many of the eight neighbours of (x, y) are in state `s`; a cell
    /// that is reached by several offsets (on a narrow grid) counts each time.
    pub open spec fn neighbor_count(self, x: int, y: int, s: CellState) -> nat {
        self.count_first_neighbors(x, y, s, 8)
    }

    /// The state that cell (x, y) takes in the next generation.
    pub open spec fn next_cell(self, x: int, y: int) -> CellState {
        rule(
            self.cell(x, y),
            self.neighbor_count(x, y, CellState::Alive),
            self.neighbor_count(x, y, CellState::Dormant),
        )
    }

    /// The next generation: every cell follows `rule` at once.
    pub open spec fn step(self) -> GridModel {
        GridModel {
            width: self.width,
            height: self.height,
            cells: Seq::new(
                self.width * self.height,
                |i: int| self.next_cell(i % (self.width as int), i / (self.width as int)),
            ),
        }
    }

    /// The grid after `n` generations.
    pub open spec fn iterate(self, n: nat) -> GridModel
        decreases n,
    {
        if n == 0 {
            self
        } else {
            self.iterate((n - 1) as nat).step()
        }
    }

    /// Row `y` drawn as text: one symbol per cell, then a newline.
    pub open spec fn render_row(self, y: int) -> Seq<char> {
        Seq::new(self.width, |x: int| symbol_of(self.cell(x, y))).push('\n')
    }

    /// The first `k` rows drawn as text, top to bottom.
    pub open spec fn render_rows(self, k: nat) -> Seq<char>
        decreases k,
    {
        if k == 0 {
            Seq::empty()
        } else {
            self.render_rows((k - 1) as nat) + self.render_row(k - 1)
        }
    }

    /// The whole grid drawn as text, row by row.
    pub open spec fn render(self) -> Seq<char> {
        self.render_rows(self.height)
    }

    /// Positions (x, y) of the Alive cells among the first `n` cells, in
    /// row-major order.
    pub open spec fn alive_prefix(self, n: nat) -> Seq<(usize, usize)>
        decreases n,
    {
        if n == 0 {
            Seq::empty()
        } else {
            let i = n - 1;
            let prev = self.alive_prefix((n - 1) as nat);
            if self.cells[i] == CellState::Alive {
                prev.push(((i % (self.width as int)) as usize, (i / (self.width as int)) as usize))
            } else {
                prev
            }
        }
    }

    /// Positions (x, y) of all Alive cells, row by row, left to right.
    pub open spec fn alive_positions(self) -> Seq<(usize, usize)> {
        self.alive_prefix(self.width * self.height)
    }

    /// Every cell of the `s` by `s` window at (x, y) keeps its state in the
    /// next generation.
    pub open spec fn window_still(self, x: int, y: int, s: int) -> bool {
        forall|dx: int, dy: int|
            0 <= dx < s && 0 <= dy < s ==> #[trigger] self.next_cell(x + dx, y + dy) == self.cell(
                x + dx,
                y + dy,
            )
    }

    /// Some cell of the `s` by `s` window at (x, y) is Alive.
    pub open spec fn window_has_alive(self, x: int, y: int, s: int) -> bool {
        exists|dx: int, dy: int|
            0 <= dx < s && 0 <= dy < s && #[trigger] self.cell(x + dx, y + dy) == CellState::Alive
    }

    /// The window at (x, y) of size `s` is a still life holding an Alive cell.
    pub open spec fn is_still_window(self, x: int, y: int, s: int) -> bool {
        self.window_still(x, y, s) && self.window_has_alive(x, y, s)
    }

    /// The still windows of size `s` among the first `n` window positions,
    /// taken row by row, as (x, y, s, s).
    pub open spec fn still_windows_prefix(self, s: nat, n: nat) -> Seq<(usize, usize, usize, usize)>
        decreases n,
    {
        if n == 0 {
            Seq::empty()
        } else {
            let i = n - 1;
            let cols = self.width - s + 1;
            let x = i % cols;
            let y = i / cols;
            let prev = self.still_windows_prefix(s, (n - 1) as nat);
            if self.is_still_window(x, y, s as int) {
                prev.push((x as usize, y as usize, s as usize, s as usize))
            } else {
                prev
            }
        }
    }

    /// All `s` by `s` windows that lie on the grid, hold an Alive cell and
    /// do not change in one generation, row by row, as (x, y, s, s); none if
    /// `s` is 0 or larger than the grid.
    pub open spec fn still_lives(self, s: nat) -> Seq<(usize, usize, usize, usize)> {
        if s == 0 || s > self.width || s > self.height {
            Seq::empty()
        } else {
            self.still_windows_prefix(s, ((self.width - s + 1) * (self.height - s + 1)) as nat)
        }
    }

    /// Coordinates fit the 32-bit signed arithmetic the neighbourhood is
    /// computed with (always true of a grid without cells).
    pub open spec fn coords_fit(self) -> bool {
        self.width * self.height == 0 || (self.width <= i32::MAX && self.height <= i32::MAX)
    }
}

/// A generation keeps the dimensions and the cell count of the grid.
pub proof fn lemma_step_wf(m: GridModel)
    requires
        m.wf(),
    ensures
        m.step().wf(),
        m.step().width == m.width,
        m.step().height == m.height,
        m.step().coords_fit() == m.coords_fit(),
{
}

/// Any number of generations keeps the dimensions and the cell count.
pub proof fn lemma_iterate_wf(m: GridModel, n: nat)
    requires
        m.wf(),
    ensures
        m.iterate(n).wf(),
        m.iterate(n).width == m.width,
        m.iterate(n).height == m.height,
        m.iterate(n).coords_fit() == m.coords_fit(),
    decreases n,
{
    if n > 0 {
        lemma_iterate_wf(m, (n - 1) as nat);
        lemma_step_wf(m.iterate((n - 1) as nat));
    }
}

/// A still life never changes: if one generation leaves the grid as it is,
/// so does every number of generations.
pub proof fn lemma_still_life_forever(m: GridModel, n: nat)
    requires
        m.step() == m,
    ensures
        m.iterate(n) == m,
    decreases n,
{
    if n > 0 {
        lemma_still_life_forever(m, (n - 1) as nat);
    }
}

/// Position `p` moved by `d` on a torus of size `w` by `h`.
pub open spec fn translate(p: (usize, usize), d: (int, int), w: int, h: int) -> (usize, usize) {
    (wrap(p.0 as int, d.0, w) as usize, wrap(p.1 as int, d.1, h) as usize)
}

/// The shift that takes position `from` to position `to`.
pub open spec fn shift_between(from: (usize, usize), to: (usize, usize)) -> (int, int) {
    (to.0 - from.0, to.1 - from.1)
}

/// Moving every position of `from` by `d` (on a `w` by `h` torus) lands on a
/// position of `to`.
pub open spec fn all_land_in(
    from: Seq<(usize, usize)>,
    to: Seq<(usize, usize)>,
    d: (int, int),
    w: int,
    h: int,
) -> bool {
    forall|k: int| 0 <= k < from.len() ==> to.contains(#[trigger] translate(from[k], d, w, h))
}

/// The shift that takes the first position of `from` to `to[j]` is a real
/// movement and carries all of `from` into `to`.
pub open spec fn is_glider_shift(
    from: Seq<(usize, usize)>,
    to: Seq<(usize, usize)>,
    j: int,
    w: int,
    h: int,
) -> bool {
    let d = shift_between(from[0], to[j]);
    &&& d != (0int, 0int)
    &&& all_land_in(from, to, d, w, h)
}

/// The first shift, trying the positions of `to` from index `j` on, that
/// carries `from` into `to`.
pub open spec fn first_glider_shift(
    from: Seq<(usize, usize)>,
    to: Seq<(usize, usize)>,
    j: int,
    w: int,
    h: int,
) -> Option<(int, int)>
    decreases to.len() - j,
{
    if j < 0 || j >= to.len() {
        None
    } else if is_glider_shift(from, to, j, w, h) {
        Some(shift_between(from[0], to[j]))
    } else {
        first_glider_shift(from, to, j + 1, w, h)
    }
}

/// How the Alive cells of `initial` moved to give those of `after`: None if
/// the two grids have different numbers of Alive cells or none at all;
/// otherwise the first non-zero shift (trying, in row-major order, each
/// Alive cell of `after` as the image of the first Alive cell of `initial`)
/// that carries every Alive cell of `initial`, wrapping on `initial`'s
/// torus, onto an Alive cell of `after`, or None if there is none.
pub open spec fn glider_shift(initial: GridModel, after: GridModel) -> Option<(int, int)> {
    let from = initial.alive_positions();
    let to = after.alive_positions();
    if from.len() != to.len() || from.len() == 0 {
        None
    } else {
        first_glider_shift(from, to, 0, initial.width as int, initial.height as int)
    }
}

/// Moving by -1, 0 or +1 on a torus, expressed through the remainder of `a`.
pub proof fn lemma_wrap(a: int, d: int, n: int)
    requires
        0 <= a,
        0 < n,
        -1 <= d <= 1,
    ensures
        wrap(a, d, n) == (if a % n + d < 0 {
            n - 1
        } else if a % n + d >= n {
            0
        } else {
            a % n + d
        }),
        0 <= wrap(a, d, n) < n,
{
    vstd::arithmetic::div_mod::lemma_fundamental_div_mod(a, n);
    let q = a / n;
    let r = a % n;
    assert(a == q * n + r) by (nonlinear_arith)
        requires
            a == n * q + r,
    ;
    if r + d < 0 {
        assert(a + d == (q - 1) * n + (n - 1)) by (nonlinear_arith)
            requires
                a == q * n + r,
                r + d == -1,
        ;
        vstd::arithmetic::div_mod::lemma_fundamental_div_mod_converse(a + d, n, q - 1, n - 1);
    } else if r + d >= n {
        assert(a + d == (q + 1) * n + 0) by (nonlinear_arith)
            requires
                a == q * n + r,
                r + d == n,
        ;
        vstd::arithmetic::div_mod::lemma_fundamental_div_mod_converse(a + d, n, q + 1, 0);
    } else {
        vstd::arithmetic::div_mod::lemma_fundamental_div_mod_converse(a + d, n, q, r + d);
    }
}

/// The three neighbour counts of a cell add up to the number of neighbours
/// looked at.
pub proof fn lemma_counts_sum(m: GridModel, x: int, y: int, k: nat)
    ensures
        m.count_first_neighbors(x, y, CellState::Dead, k) + m.count_first_neighbors(
            x,
            y,
            CellState::Dormant,
            k,
        ) + m.count_first_neighbors(x, y, CellState::Alive, k) == k,
    decreases k,
{
    if k > 0 {
        lemma_counts_sum(m, x, y, (k - 1) as nat);
    }
}

/// Facts about the row-major index of an on-grid cell.
pub proof fn lemma_index(width: int, height: int, x: int, y: int)
    requires
        0 <= x < width,
        0 <= y < height,
    ensures
        0 <= index_of(width, x, y) < width * height,
        index_of(width, x, y) % width == x,
        index_of(width, x, y) / width == y,
{
    assert(0 <= y * width + x < width * height) by (nonlinear_arith)
        requires
            0 <= x < width,
            0 <= y < height,
    ;
    vstd::arithmetic::div_mod::lemma_fundamental_div_mod_converse(y * width + x, width, y, x);
}

/// A row-major index splits back into its column and row.
pub proof fn lemma_index_split(width: int, height: int, i: int)
    requires
        0 <= width,
        0 <= height,
        0 <= i < width * height,
    ensures
        0 <= i % width < width,
        0 <= i / width < height,
        index_of(width, i % width, i / width) == i,
{
    assert(width > 0) by (nonlinear_arith)
        requires
            0 <= width,
            0 <= height,
            0 <= i < width * height,
    ;
    vstd::arithmetic::div_mod::lemma_fundamental_div_mod(i, width);
    assert(0 <= i / width < height && (i / width) * width + i % width == i) by (nonlinear_arith)
        requires
            width > 0,
            0 <= i < width * height,
            i == width * (i / width) + i % width,
            0 <= i % width < width,
    ;
}

} // verus!
