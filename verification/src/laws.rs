//! Properties of the ternary rules and of the grid operations.

use vstd::prelude::*;
use crate::cell::CellState;
use crate::stats::occurrences;
use crate::model::{
    GridModel, rule, lemma_index, lemma_index_split, lemma_wrap, wrap, offset_dx, offset_dy,
    glider_shift, first_glider_shift, is_glider_shift, all_land_in, translate, lemma_counts_sum, shift_between,
};

verus! {

/// Writing a cell and reading it back gives what was written; every other
/// cell reads as before; writing off the grid changes nothing; the grid stays
/// well formed.
pub proof fn lemma_get_set(m: GridModel, x: int, y: int, s: CellState, x2: int, y2: int)
    requires
        m.wf(),
    ensures
        m.set(x, y, s).wf(),
        m.set(x, y, s).width == m.width,
        m.set(x, y, s).height == m.height,
        m.in_bounds(x, y) ==> m.set(x, y, s).get(x, y) == Some(s),
        (x2, y2) != (x, y) ==> m.set(x, y, s).get(x2, y2) == m.get(x2, y2),
        !m.in_bounds(x, y) ==> m.set(x, y, s) == m,
{
    if m.in_bounds(x, y) {
        lemma_index(m.width as int, m.height as int, x, y);
        if m.in_bounds(x2, y2) {
            lemma_index(m.width as int, m.height as int, x2, y2);
        }
    }
}

/// A cell of the next generation is what `rule` gives for that cell.
pub proof fn lemma_step_cell(m: GridModel, x: int, y: int)
    requires
        m.wf(),
        m.in_bounds(x, y),
    ensures
        m.step().cell(x, y) == m.next_cell(x, y),
{
    lemma_index(m.width as int, m.height as int, x, y);
}

/// Under the rules a Dead cell cannot become Alive in one generation, an
/// Alive cell cannot become Dormant, and a Dormant cell cannot become Dead:
/// a Dead cell needs two generations (Dead, Dormant, Alive) to come alive.
pub proof fn lemma_rule_transitions(current: CellState, alive: nat, dormant: nat)
    ensures
        current == CellState::Dead ==> rule(current, alive, dormant) != CellState::Alive,
        current == CellState::Alive ==> rule(current, alive, dormant) != CellState::Dormant,
        current == CellState::Dormant ==> rule(current, alive, dormant) != CellState::Dead,
{
}

/// On any grid, no cell goes from Dead to Alive, from Alive to Dormant, or
/// from Dormant to Dead in one generation.
pub proof fn lemma_step_transitions(m: GridModel, x: int, y: int)
    requires
        m.wf(),
        m.in_bounds(x, y),
    ensures
        m.cell(x, y) == CellState::Dead ==> m.step().cell(x, y) != CellState::Alive,
        m.cell(x, y) == CellState::Alive ==> m.step().cell(x, y) != CellState::Dormant,
        m.cell(x, y) == CellState::Dormant ==> m.step().cell(x, y) != CellState::Dead,
{
    lemma_step_cell(m, x, y);
}

/// No cell of the grid goes from Dead to Alive, from Alive to Dormant, or
/// from Dormant to Dead in one generation.
pub proof fn lemma_step_transitions_everywhere(m: GridModel)
    requires
        m.wf(),
    ensures
        forall|x: int, y: int|
            #![trigger m.step().cell(x, y)]
            m.in_bounds(x, y) ==> {
                &&& m.cell(x, y) == CellState::Dead ==> m.step().cell(x, y) != CellState::Alive
                &&& m.cell(x, y) == CellState::Alive ==> m.step().cell(x, y) != CellState::Dormant
                &&& m.cell(x, y) == CellState::Dormant ==> m.step().cell(x, y) != CellState::Dead
            },
{
    assert forall|x: int, y: int| #![trigger m.step().cell(x, y)] m.in_bounds(x, y) implies {
        &&& m.cell(x, y) == CellState::Dead ==> m.step().cell(x, y) != CellState::Alive
        &&& m.cell(x, y) == CellState::Alive ==> m.step().cell(x, y) != CellState::Dormant
        &&& m.cell(x, y) == CellState::Dormant ==> m.step().cell(x, y) != CellState::Dead
    } by {
        lemma_step_transitions(m, x, y);
    }
}

/// On a grid without Alive cells no neighbour of any position is Alive.
proof fn lemma_no_alive_neighbors(m: GridModel, x: int, y: int, k: nat)
    requires
        m.cells.len() == m.width * m.height,
        forall|i: int| 0 <= i < m.cells.len() ==> #[trigger] m.cells[i] != CellState::Alive,
        m.width > 0,
        m.height > 0,
        0 <= x,
        0 <= y,
        k <= 8,
    ensures
        m.count_first_neighbors(x, y, CellState::Alive, k) == 0,
    decreases k,
{
    if k > 0 {
        lemma_no_alive_neighbors(m, x, y, (k - 1) as nat);
        let i = k - 1;
        lemma_wrap(x, offset_dx(i), m.width as int);
        lemma_wrap(y, offset_dy(i), m.height as int);
        let nx = wrap(x, offset_dx(i), m.width as int);
        let ny = wrap(y, offset_dy(i), m.height as int);
        lemma_index(m.width as int, m.height as int, nx, ny);
    }
}

/// A grid with no Alive cell is a still life: with no Alive neighbours a
/// Dead cell stays Dead and a Dormant cell stays Dormant.
pub proof fn lemma_no_alive_still(m: GridModel)
    requires
        m.cells.len() == m.width * m.height,
        forall|i: int| 0 <= i < m.cells.len() ==> #[trigger] m.cells[i] != CellState::Alive,
    ensures
        m.step() == m,
{
    let w = m.width as int;
    let h = m.height as int;
    assert forall|i: int| 0 <= i < m.step().cells.len() implies m.step().cells[i] == m.cells[i] by {
        lemma_index_split(w, h, i);
        lemma_index(w, h, i % w, i / w);
        lemma_no_alive_neighbors(m, i % w, i / w, 8);
    }
    assert(m.step().cells =~= m.cells);
}

/// A grid whose cells are all Dead is a still life.
pub proof fn lemma_blank_still(width: nat, height: nat)
    ensures
        GridModel::blank(width, height).step() == GridModel::blank(width, height),
{
    lemma_no_alive_still(GridModel::blank(width, height));
}

/// Shifting a position by `a` and then by `d` on a torus of size `n` lands
/// where shifting by `d` and then by `a` does.
proof fn lemma_shift_swap(x: int, a: int, d: int, n: int)
    requires
        n > 0,
    ensures
        ((x + a) % n + d) % n == ((x + d) % n + a) % n,
{
    vstd::arithmetic::div_mod::lemma_add_mod_noop_right(d, x + a, n);
    vstd::arithmetic::div_mod::lemma_add_mod_noop_right(a, x + d, n);
    assert(d + (x + a) == a + (x + d));
    assert((x + a) % n + d == d + (x + a) % n);
    assert((x + d) % n + a == a + (x + d) % n);
}

/// A grid shifted on the torus by (a, b) sees, around the shifted position,
/// the same neighbours as the original grid around the original position.
proof fn lemma_shift_counts(
    m: GridModel,
    m2: GridModel,
    a: int,
    b: int,
    x: int,
    y: int,
    s: CellState,
    k: nat,
)
    requires
        m.wf(),
        m2.wf(),
        m2.width == m.width,
        m2.height == m.height,
        m.width > 0,
        m.height > 0,
        forall|i: int, j: int|
            m.in_bounds(i, j) ==> #[trigger] m.cell(i, j) == m2.cell(
                (i + a) % (m.width as int),
                (j + b) % (m.height as int),
            ),
        k <= 8,
    ensures
        m2.count_first_neighbors(
            (x + a) % (m.width as int),
            (y + b) % (m.height as int),
            s,
            k,
        ) == m.count_first_neighbors(x, y, s, k),
    decreases k,
{
    let w = m.width as int;
    let h = m.height as int;
    if k > 0 {
        lemma_shift_counts(m, m2, a, b, x, y, s, (k - 1) as nat);
        let i = k - 1;
        let dx = offset_dx(i);
        let dy = offset_dy(i);
        lemma_shift_swap(x, a, dx, w);
        lemma_shift_swap(y, b, dy, h);
        let nx = (x + dx) % w;
        let ny = (y + dy) % h;
        assert(m.in_bounds(nx, ny));
        assert(m.cell(nx, ny) == m2.cell((nx + a) % w, (ny + b) % h));
        assert(m.neighbor(x, y, i) == m2.neighbor((x + a) % w, (y + b) % h, i));
    }
}

/// One generation commutes with shifting the grid on the torus: if `m2` is
/// `m` with every cell moved by (a, b), wrapping at the edges, then the next
/// generation of `m2` is the next generation of `m` moved by (a, b).
pub proof fn lemma_step_commutes_with_shift(m: GridModel, m2: GridModel, a: int, b: int, x: int, y: int)
    requires
        m.wf(),
        m2.wf(),
        m2.width == m.width,
        m2.height == m.height,
        forall|i: int, j: int|
            m.in_bounds(i, j) ==> #[trigger] m.cell(i, j) == m2.cell(
                (i + a) % (m.width as int),
                (j + b) % (m.height as int),
            ),
        m.in_bounds(x, y),
    ensures
        m2.step().cell((x + a) % (m.width as int), (y + b) % (m.height as int)) == m.step().cell(x, y),
{
    let w = m.width as int;
    let h = m.height as int;
    let x2 = (x + a) % w;
    let y2 = (y + b) % h;
    lemma_shift_counts(m, m2, a, b, x, y, CellState::Alive, 8);
    lemma_shift_counts(m, m2, a, b, x, y, CellState::Dormant, 8);
    assert(m.cell(x, y) == m2.cell(x2, y2));
    lemma_step_cell(m, x, y);
    lemma_step_cell(m2, x2, y2);
}

/// A grid is a still life exactly when it comes back to itself after one
/// generation, i.e. when it oscillates with period 1.
pub proof fn lemma_still_life_period_one(m: GridModel)
    ensures
        (m.step() == m) <==> (m.iterate(1) == m),
{
    assert(m.iterate(1) == m.iterate(0).step());
}

/// A shift reported for a glider is a real movement, and it carries every
/// Alive cell of the initial grid onto an Alive cell of the later grid.
pub proof fn lemma_glider_shift_sound(initial: GridModel, after: GridModel)
    ensures
        glider_shift(initial, after) matches Some(d) ==> {
            &&& d != (0int, 0int)
            &&& all_land_in(
                initial.alive_positions(),
                after.alive_positions(),
                d,
                initial.width as int,
                initial.height as int,
            )
            &&& initial.alive_positions().len() == after.alive_positions().len()
        },
{
    let from = initial.alive_positions();
    let to = after.alive_positions();
    if from.len() == to.len() && from.len() != 0 {
        lemma_first_glider_shift_sound(from, to, 0, initial.width as int, initial.height as int);
    }
}

proof fn lemma_first_glider_shift_sound(
    from: Seq<(usize, usize)>,
    to: Seq<(usize, usize)>,
    j: int,
    w: int,
    h: int,
)
    ensures
        first_glider_shift(from, to, j, w, h) matches Some(d) ==> d != (0int, 0int)
            && all_land_in(from, to, d, w, h),
    decreases to.len() - j,
{
    if 0 <= j < to.len() && !is_glider_shift(from, to, j, w, h) {
        lemma_first_glider_shift_sound(from, to, j + 1, w, h);
    }
}

/// A window of the list, by its position (x, y) and size.
pub open spec fn window_ok(m: GridModel, s: nat, r: (usize, usize, usize, usize)) -> bool {
    &&& r.2 == s && r.3 == s
    &&& r.0 + s <= m.width && r.1 + s <= m.height
    &&& m.is_still_window(r.0 as int, r.1 as int, s as int)
}

proof fn lemma_still_windows_prefix(m: GridModel, s: nat, n: nat)
    requires
        m.wf(),
        0 < s <= m.width,
        s <= m.height,
        n <= (m.width - s + 1) * (m.height - s + 1),
    ensures
        forall|k: int|
            0 <= k < m.still_windows_prefix(s, n).len() ==> window_ok(
                m,
                s,
                #[trigger] m.still_windows_prefix(s, n)[k],
            ) && m.still_windows_prefix(s, n)[k].1 * (m.width - s + 1) + m.still_windows_prefix(
                s,
                n,
            )[k].0 < n,
        forall|k1: int, k2: int|
            0 <= k1 < k2 < m.still_windows_prefix(s, n).len() ==> #[trigger] m.still_windows_prefix(
                s,
                n,
            )[k1].1 * (m.width - s + 1) + m.still_windows_prefix(s, n)[k1].0
                < #[trigger] m.still_windows_prefix(s, n)[k2].1 * (m.width - s + 1)
                + m.still_windows_prefix(s, n)[k2].0,
    decreases n,
{
    if n > 0 {
        let cols = m.width - s + 1;
        let rows = m.height - s + 1;
        lemma_still_windows_prefix(m, s, (n - 1) as nat);
        lemma_index_split(cols, rows, n - 1);
        assert(m.width <= usize::MAX && m.height <= usize::MAX) by (nonlinear_arith)
            requires
                m.width * m.height <= usize::MAX,
                m.width >= 1,
                m.height >= 1,
        ;
        let cur = m.still_windows_prefix(s, n);
        let prev = m.still_windows_prefix(s, (n - 1) as nat);
        assert forall|k: int| 0 <= k < prev.len() implies cur[k] == prev[k] by {}
    }
}

/// Every window reported as a still life lies on the grid and has the size
/// asked for; each of its cells is the same in the next generation; and it
/// holds a cell that is Alive.
pub proof fn lemma_still_lives_sound(m: GridModel, s: nat, k: int)
    requires
        m.wf(),
        0 <= k < m.still_lives(s).len(),
    ensures
        ({
            let r = m.still_lives(s)[k];
            &&& r.2 == s && r.3 == s
            &&& r.0 + s <= m.width && r.1 + s <= m.height
            &&& forall|dx: int, dy: int|
                0 <= dx < s && 0 <= dy < s ==> #[trigger] m.step().cell(r.0 + dx, r.1 + dy) == m.cell(
                    r.0 + dx,
                    r.1 + dy,
                )
            &&& exists|dx: int, dy: int|
                0 <= dx < s && 0 <= dy < s && #[trigger] m.cell(r.0 + dx, r.1 + dy)
                    == CellState::Alive
        }),
{
    let cols = m.width - s + 1;
    let rows = m.height - s + 1;
    lemma_still_windows_prefix(m, s, (cols * rows) as nat);
    let r = m.still_lives(s)[k];
    assert(window_ok(m, s, r));
    assert forall|dx: int, dy: int| 0 <= dx < s && 0 <= dy < s implies #[trigger] m.step().cell(
        r.0 + dx,
        r.1 + dy,
    ) == m.cell(r.0 + dx, r.1 + dy) by {
        lemma_step_cell(m, r.0 + dx, r.1 + dy);
        assert(m.next_cell(r.0 + dx, r.1 + dy) == m.cell(r.0 + dx, r.1 + dy));
    }
}

/// The windows are listed row by row, left to right within a row, each once.
pub proof fn lemma_still_lives_ordered(m: GridModel, s: nat, k1: int, k2: int)
    requires
        m.wf(),
        0 <= k1 < k2 < m.still_lives(s).len(),
    ensures
        ({
            let r1 = m.still_lives(s)[k1];
            let r2 = m.still_lives(s)[k2];
            r1.1 < r2.1 || (r1.1 == r2.1 && r1.0 < r2.0)
        }),
{
    let cols = m.width - s + 1;
    let rows = m.height - s + 1;
    lemma_still_windows_prefix(m, s, (cols * rows) as nat);
    let r1 = m.still_lives(s)[k1];
    let r2 = m.still_lives(s)[k2];
    assert(window_ok(m, s, r1));
    assert(window_ok(m, s, r2));
    assert(r1.1 * cols + r1.0 < r2.1 * cols + r2.0);
    assert(r1.1 < r2.1 || (r1.1 == r2.1 && r1.0 < r2.0)) by (nonlinear_arith)
        requires
            r1.1 * cols + r1.0 < r2.1 * cols + r2.0,
            0 <= r1.0 < cols,
            0 <= r2.0 < cols,
            0 <= r1.1,
            0 <= r2.1,
    ;
}

proof fn lemma_still_windows_complete(m: GridModel, s: nat, n: nat, x: int, y: int)
    requires
        m.wf(),
        0 < s,
        0 <= x,
        0 <= y,
        x + s <= m.width,
        y + s <= m.height,
        y * (m.width - s + 1) + x < n <= (m.width - s + 1) * (m.height - s + 1),
        m.is_still_window(x, y, s as int),
    ensures
        m.still_windows_prefix(s, n).contains((x as usize, y as usize, s as usize, s as usize)),
    decreases n,
{
    let cols = m.width - s + 1;
    let rows = m.height - s + 1;
    let i = y * cols + x;
    let prev = m.still_windows_prefix(s, (n - 1) as nat);
    let cur = m.still_windows_prefix(s, n);
    let e = (x as usize, y as usize, s as usize, s as usize);
    if i < n - 1 {
        lemma_still_windows_complete(m, s, (n - 1) as nat, x, y);
        let j = choose|j: int| 0 <= j < prev.len() && prev[j] == e;
        assert(cur[j] == e);
    } else {
        lemma_index(cols, rows, x, y);
        assert(cur[cur.len() - 1] == e);
    }
}

/// Every window on the grid of the size asked for, whose cells all stay the
/// same in the next generation and one of which is Alive, is reported.
pub proof fn lemma_still_lives_complete(m: GridModel, s: nat, x: int, y: int)
    requires
        m.wf(),
        0 < s,
        0 <= x,
        0 <= y,
        x + s <= m.width,
        y + s <= m.height,
        forall|dx: int, dy: int|
            0 <= dx < s && 0 <= dy < s ==> #[trigger] m.step().cell(x + dx, y + dy) == m.cell(
                x + dx,
                y + dy,
            ),
        exists|dx: int, dy: int|
            0 <= dx < s && 0 <= dy < s && #[trigger] m.cell(x + dx, y + dy) == CellState::Alive,
    ensures
        m.still_lives(s).contains((x as usize, y as usize, s as usize, s as usize)),
{
    let cols = m.width - s + 1;
    let rows = m.height - s + 1;
    assert forall|dx: int, dy: int| 0 <= dx < s && 0 <= dy < s implies #[trigger] m.next_cell(
        x + dx,
        y + dy,
    ) == m.cell(x + dx, y + dy) by {
        lemma_step_cell(m, x + dx, y + dy);
        assert(m.step().cell(x + dx, y + dy) == m.cell(x + dx, y + dy));
    }
    let (dx0, dy0) = choose|dx: int, dy: int|
        0 <= dx < s && 0 <= dy < s && #[trigger] m.cell(x + dx, y + dy) == CellState::Alive;
    assert(m.window_has_alive(x, y, s as int));
    lemma_index(cols, rows, x, y);
    lemma_still_windows_complete(m, s, (cols * rows) as nat, x, y);
}

/// The rendering has one line per row, each holding one symbol per cell and
/// a newline.
pub proof fn lemma_render_len(m: GridModel, k: nat)
    ensures
        m.render_rows(k).len() == k * (m.width + 1),
    decreases k,
{
    if k > 0 {
        lemma_render_len(m, (k - 1) as nat);
        assert(k * (m.width + 1) == (k - 1) * (m.width + 1) + (m.width + 1)) by (nonlinear_arith);
    }
}

/// The ternary rules, cell by cell, in terms of how many of the eight
/// neighbours are Alive (`a`) and Dormant (`d`):
/// an Alive cell stays Alive exactly when `a` is 2 or 3 and is Dead otherwise;
/// a Dormant cell becomes Alive exactly when `a` is 3 and stays Dormant
/// otherwise; a Dead cell becomes Dormant exactly when `a` is 3, or `a` is 2
/// and `d` is at least 3, and stays Dead otherwise.
pub proof fn lemma_step_rules(m: GridModel, x: int, y: int)
    requires
        m.wf(),
        m.in_bounds(x, y),
    ensures
        ({
            let a = m.neighbor_count(x, y, CellState::Alive);
            let d = m.neighbor_count(x, y, CellState::Dormant);
            let next = m.step().cell(x, y);
            &&& m.cell(x, y) == CellState::Alive ==> (next == CellState::Alive <==> (a == 2 || a
                == 3)) && (next == CellState::Alive || next == CellState::Dead)
            &&& m.cell(x, y) == CellState::Dormant ==> (next == CellState::Alive <==> a == 3) && (
            next == CellState::Alive || next == CellState::Dormant)
            &&& m.cell(x, y) == CellState::Dead ==> (next == CellState::Dormant <==> (a == 3 || (a
                == 2 && d >= 3))) && (next == CellState::Dormant || next == CellState::Dead)
        }),
{
    lemma_step_cell(m, x, y);
}

/// The eight neighbour offsets are exactly the eight non-zero moves by -1, 0
/// or +1 in each direction, each taken once.
pub proof fn lemma_offsets()
    ensures
        forall|k: int|
            0 <= k < 8 ==> -1 <= #[trigger] offset_dx(k) <= 1 && -1 <= offset_dy(k) <= 1 && (
            offset_dx(k) != 0 || offset_dy(k) != 0),
        forall|k: int, j: int|
            0 <= k < j < 8 ==> (#[trigger] offset_dx(k), offset_dy(k)) != (
            #[trigger] offset_dx(j),
            offset_dy(j),
            ),
{
}

/// Within the first `k` rows of the rendering, row `y` starts at character
/// `y * (width + 1)`.
proof fn lemma_render_rows_index(m: GridModel, k: nat, x: int, y: int)
    requires
        0 <= y < k,
        0 <= x <= m.width,
    ensures
        m.render_rows(k).len() == k * (m.width + 1),
        m.render_rows(k)[y * (m.width + 1) + x] == m.render_row(y)[x],
    decreases k,
{
    let w = m.width as int;
    lemma_render_len(m, k);
    lemma_render_len(m, (k - 1) as nat);
    if y < k - 1 {
        lemma_render_rows_index(m, (k - 1) as nat, x, y);
        assert(y * (w + 1) + x < (k - 1) * (w + 1)) by (nonlinear_arith)
            requires
                0 <= y < k - 1,
                0 <= x <= w,
        ;
    } else {
        assert(y * (w + 1) + x - (k - 1) * (w + 1) == x) by (nonlinear_arith)
            requires
                y == k - 1,
        ;
    }
}

/// The rendering shows row 0 first: it has `height` lines of `width + 1`
/// characters; character `y * (width + 1) + x` is the symbol of cell (x, y)
/// (`·` for Dead, `○` for Dormant, `●` for Alive) and each line ends with a
/// newline.
pub proof fn lemma_render_chars(m: GridModel, x: int, y: int)
    requires
        m.in_bounds(x, y),
    ensures
        m.render().len() == m.height * (m.width + 1),
        m.render()[y * (m.width + 1) + x] == (match m.cell(x, y) {
            CellState::Dead => '\u{B7}',
            CellState::Dormant => '\u{25CB}',
            CellState::Alive => '\u{25CF}',
        }),
        m.render()[y * (m.width + 1) + m.width] == '\n',
{
    lemma_render_rows_index(m, m.height, x, y);
    lemma_render_rows_index(m, m.height, m.width as int, y);
}

proof fn lemma_alive_prefix(m: GridModel, n: nat)
    requires
        m.wf(),
        n <= m.width * m.height,
    ensures
        forall|k: int|
            0 <= k < m.alive_prefix(n).len() ==> m.in_bounds(
                (#[trigger] m.alive_prefix(n)[k]).0 as int,
                m.alive_prefix(n)[k].1 as int,
            ) && m.cell(m.alive_prefix(n)[k].0 as int, m.alive_prefix(n)[k].1 as int)
                == CellState::Alive && m.alive_prefix(n)[k].1 * m.width + m.alive_prefix(n)[k].0
                < n,
        forall|k1: int, k2: int|
            0 <= k1 < k2 < m.alive_prefix(n).len() ==> (#[trigger] m.alive_prefix(n)[k1]).1
                * m.width + m.alive_prefix(n)[k1].0 < (#[trigger] m.alive_prefix(n)[k2]).1
                * m.width + m.alive_prefix(n)[k2].0,
    decreases n,
{
    if n > 0 {
        let w = m.width as int;
        let h = m.height as int;
        lemma_alive_prefix(m, (n - 1) as nat);
        lemma_index_split(w, h, n - 1);
        lemma_index(w, h, (n - 1) % w, (n - 1) / w);
        assert(m.width <= usize::MAX && m.height <= usize::MAX) by (nonlinear_arith)
            requires
                m.width * m.height <= usize::MAX,
                m.width >= 1,
                m.height >= 1,
        ;
        let cur = m.alive_prefix(n);
        let prev = m.alive_prefix((n - 1) as nat);
        assert forall|k: int| 0 <= k < prev.len() implies cur[k] == prev[k] by {}
    }
}

proof fn lemma_alive_prefix_complete(m: GridModel, n: nat, x: int, y: int)
    requires
        m.wf(),
        m.in_bounds(x, y),
        m.cell(x, y) == CellState::Alive,
        y * m.width + x < n <= m.width * m.height,
    ensures
        m.alive_prefix(n).contains((x as usize, y as usize)),
    decreases n,
{
    let w = m.width as int;
    let h = m.height as int;
    let prev = m.alive_prefix((n - 1) as nat);
    let cur = m.alive_prefix(n);
    let e = (x as usize, y as usize);
    lemma_index(w, h, x, y);
    assert(m.width <= usize::MAX && m.height <= usize::MAX) by (nonlinear_arith)
        requires
            m.width * m.height <= usize::MAX,
            m.width >= 1,
            m.height >= 1,
    ;
    if y * w + x < n - 1 {
        lemma_alive_prefix_complete(m, (n - 1) as nat, x, y);
        let j = choose|j: int| 0 <= j < prev.len() && prev[j] == e;
        assert(cur[j] == e);
    } else {
        assert(cur[cur.len() - 1] == e);
    }
}

/// The positions compared by glider detection are exactly the Alive cells:
/// each listed position is on the grid and Alive, every Alive cell is
/// listed, and the list runs row by row, left to right, without repeats.
pub proof fn lemma_alive_positions(m: GridModel)
    requires
        m.wf(),
    ensures
        forall|k: int|
            0 <= k < m.alive_positions().len() ==> m.in_bounds(
                (#[trigger] m.alive_positions()[k]).0 as int,
                m.alive_positions()[k].1 as int,
            ) && m.cell(m.alive_positions()[k].0 as int, m.alive_positions()[k].1 as int)
                == CellState::Alive,
        forall|x: int, y: int|
            m.in_bounds(x, y) && #[trigger] m.cell(x, y) == CellState::Alive
                ==> m.alive_positions().contains((x as usize, y as usize)),
        forall|k1: int, k2: int|
            0 <= k1 < k2 < m.alive_positions().len() ==> {
                let p1 = #[trigger] m.alive_positions()[k1];
                let p2 = #[trigger] m.alive_positions()[k2];
                p1.1 < p2.1 || (p1.1 == p2.1 && p1.0 < p2.0)
            },
{
    let w = m.width as int;
    let h = m.height as int;
    lemma_alive_prefix(m, m.width * m.height);
    assert forall|x: int, y: int| m.in_bounds(x, y) && #[trigger] m.cell(x, y) == CellState::Alive
        implies m.alive_positions().contains((x as usize, y as usize)) by {
        lemma_index(w, h, x, y);
        lemma_alive_prefix_complete(m, m.width * m.height, x, y);
    }
    assert forall|k1: int, k2: int| 0 <= k1 < k2 < m.alive_positions().len() implies {
        let p1 = #[trigger] m.alive_positions()[k1];
        let p2 = #[trigger] m.alive_positions()[k2];
        p1.1 < p2.1 || (p1.1 == p2.1 && p1.0 < p2.0)
    } by {
        let p1 = m.alive_positions()[k1];
        let p2 = m.alive_positions()[k2];
        assert(p1.1 * w + p1.0 < p2.1 * w + p2.0);
        assert(p1.1 < p2.1 || (p1.1 == p2.1 && p1.0 < p2.0)) by (nonlinear_arith)
            requires
                p1.1 * w + p1.0 < p2.1 * w + p2.0,
                0 <= p1.0 < w,
                0 <= p2.0 < w,
                0 <= p1.1,
                0 <= p2.1,
        ;
    }
}

proof fn lemma_alive_prefix_same(m1: GridModel, m2: GridModel, n: nat)
    requires
        m1.width == m2.width,
        m1.cells.len() == m2.cells.len(),
        n <= m1.cells.len(),
        forall|i: int|
            0 <= i < m1.cells.len() ==> ((#[trigger] m1.cells[i] == CellState::Alive) <==> (
            m2.cells[i] == CellState::Alive)),
    ensures
        m1.alive_prefix(n) == m2.alive_prefix(n),
    decreases n,
{
    if n > 0 {
        lemma_alive_prefix_same(m1, m2, (n - 1) as nat);
    }
}

/// Two grids of the same size with the same Alive cells list the same Alive
/// positions, whatever their Dead and Dormant cells.
pub proof fn lemma_alive_positions_same(m1: GridModel, m2: GridModel)
    requires
        m1.wf(),
        m2.wf(),
        m1.width == m2.width,
        m1.height == m2.height,
        forall|x: int, y: int|
            m1.in_bounds(x, y) ==> ((#[trigger] m1.cell(x, y) == CellState::Alive) <==> (m2.cell(
                x,
                y,
            ) == CellState::Alive)),
    ensures
        m1.alive_positions() == m2.alive_positions(),
{
    let w = m1.width as int;
    let h = m1.height as int;
    assert forall|i: int| 0 <= i < m1.cells.len() implies ((#[trigger] m1.cells[i]
        == CellState::Alive) <==> (m2.cells[i] == CellState::Alive)) by {
        lemma_index_split(w, h, i);
        assert(m1.in_bounds(i % w, i / w));
        assert(m1.cell(i % w, i / w) == m1.cells[i]);
        assert(m2.cell(i % w, i / w) == m2.cells[i]);
        assert((m1.cell(i % w, i / w) == CellState::Alive) <==> (m2.cell(i % w, i / w)
            == CellState::Alive));
    }
    lemma_alive_prefix_same(m1, m2, m1.width * m1.height);
}

/// Glider detection looks only at Alive cells: replacing the initial or the
/// later grid by one of the same size with the same Alive cells (turning
/// Dead cells Dormant, say) gives the same answer.
pub proof fn lemma_glider_ignores_non_alive(
    initial: GridModel,
    after: GridModel,
    initial2: GridModel,
    after2: GridModel,
)
    requires
        initial.wf(),
        after.wf(),
        initial2.wf(),
        after2.wf(),
        initial2.width == initial.width,
        initial2.height == initial.height,
        after2.width == after.width,
        after2.height == after.height,
        forall|x: int, y: int|
            initial.in_bounds(x, y) ==> ((#[trigger] initial.cell(x, y) == CellState::Alive) <==> (
            initial2.cell(x, y) == CellState::Alive)),
        forall|x: int, y: int|
            after.in_bounds(x, y) ==> ((#[trigger] after.cell(x, y) == CellState::Alive) <==> (
            after2.cell(x, y) == CellState::Alive)),
    ensures
        glider_shift(initial2, after2) == glider_shift(initial, after),
{
    lemma_alive_positions_same(initial, initial2);
    lemma_alive_positions_same(after, after2);
}

/// A single cell counts once for its own state and not at all for the
/// others.
pub proof fn lemma_occurrences_singleton(c: CellState, s: CellState)
    ensures
        occurrences(seq![c], s) == (if c == s {
            1nat
        } else {
            0nat
        }),
{
    assert(seq![c].drop_last() =~= Seq::<CellState>::empty());
    assert(occurrences(Seq::<CellState>::empty(), s) == 0);
    assert(seq![c].last() == c);
}

/// Counting the cells of two sequences put end to end adds the counts.
pub proof fn lemma_occurrences_concat(a: Seq<CellState>, b: Seq<CellState>, s: CellState)
    ensures
        occurrences(a + b, s) == occurrences(a, s) + occurrences(b, s),
    decreases b.len(),
{
    if b.len() == 0 {
        assert(a + b =~= a);
    } else {
        lemma_occurrences_concat(a, b.drop_last(), s);
        assert((a + b).drop_last() =~= a + b.drop_last());
    }
}

/// No cell is counted for a state that no cell is in, and a state some cell
/// is in is counted at least once.
pub proof fn lemma_occurrences_zero(cells: Seq<CellState>, s: CellState)
    ensures
        (occurrences(cells, s) == 0) <==> (forall|i: int|
            0 <= i < cells.len() ==> #[trigger] cells[i] != s),
    decreases cells.len(),
{
    if cells.len() > 0 {
        lemma_occurrences_zero(cells.drop_last(), s);
        if occurrences(cells, s) == 0 {
            assert forall|i: int| 0 <= i < cells.len() implies #[trigger] cells[i] != s by {
                if i < cells.len() - 1 {
                    assert(cells.drop_last()[i] == cells[i]);
                }
            }
        } else if forall|i: int| 0 <= i < cells.len() ==> #[trigger] cells[i] != s {
            assert forall|i: int| 0 <= i < cells.drop_last().len() implies #[trigger] cells.drop_last()[i] != s by {
                assert(cells.drop_last()[i] == cells[i]);
            }
            assert(cells[cells.len() - 1] != s);
        }
    }
}

/// A detected glider shift (dx, dy) is a real movement that takes every
/// Alive cell (x, y) of the initial grid to an Alive cell
/// ((x + dx) mod width, (y + dy) mod height) of the later grid, the torus
/// being the initial grid's.
pub proof fn lemma_glider_moves_alive_cells(initial: GridModel, after: GridModel, x: int, y: int)
    requires
        initial.wf(),
        after.wf(),
        glider_shift(initial, after) is Some,
        initial.in_bounds(x, y),
        initial.cell(x, y) == CellState::Alive,
    ensures
        ({
            let d = glider_shift(initial, after)->0;
            let x2 = (x + d.0) % (initial.width as int);
            let y2 = (y + d.1) % (initial.height as int);
            &&& d.0 != 0 || d.1 != 0
            &&& after.in_bounds(x2, y2)
            &&& after.cell(x2, y2) == CellState::Alive
        }),
{
    let d = glider_shift(initial, after)->0;
    let w = initial.width as int;
    let h = initial.height as int;
    lemma_glider_shift_sound(initial, after);
    lemma_alive_positions(initial);
    lemma_alive_positions(after);
    let from = initial.alive_positions();
    let to = after.alive_positions();
    assert(initial.in_bounds(x, y) && initial.cell(x, y) == CellState::Alive);
    assert(from.contains((x as usize, y as usize)));
    let k = choose|k: int| 0 <= k < from.len() && from[k] == (x as usize, y as usize);
    assert(initial.width <= usize::MAX && initial.height <= usize::MAX) by (nonlinear_arith)
        requires
            initial.width * initial.height <= usize::MAX,
            initial.width >= 1,
            initial.height >= 1,
    ;
    let t = translate(from[k], d, w, h);
    assert(to.contains(t));
    let j = choose|j: int| 0 <= j < to.len() && to[j] == t;
    assert(to[j] == t);
    lemma_wrap_range(x, d.0, w);
    lemma_wrap_range(y, d.1, h);
}

/// A wrapped coordinate lies on the torus.
proof fn lemma_wrap_range(a: int, d: int, n: int)
    requires
        n > 0,
    ensures
        0 <= wrap(a, d, n) < n,
{
}

/// Every neighbour lies next to the cell, wrapping across the edges: the
/// neighbour at offset (dx, dy) is the cell at (x + dx, y + dy), where a
/// column or row one before the first is the last and one after the last is
/// the first.
pub proof fn lemma_neighbor_position(m: GridModel, x: int, y: int, k: int)
    requires
        m.in_bounds(x, y),
        0 <= k < 8,
    ensures
        ({
            let nx = x + offset_dx(k);
            let ny = y + offset_dy(k);
            let cx = if nx < 0 {
                m.width - 1
            } else if nx >= m.width {
                0
            } else {
                nx
            };
            let cy = if ny < 0 {
                m.height - 1
            } else if ny >= m.height {
                0
            } else {
                ny
            };
            m.neighbor(x, y, k) == m.cell(cx, cy)
        }),
{
    lemma_wrap(x, offset_dx(k), m.width as int);
    lemma_wrap(y, offset_dy(k), m.height as int);
    vstd::arithmetic::div_mod::lemma_small_mod(x as nat, m.width);
    vstd::arithmetic::div_mod::lemma_small_mod(y as nat, m.height);
}

/// Each cell has eight neighbours, each Dead, Dormant or Alive.
pub proof fn lemma_neighbor_counts_sum(m: GridModel, x: int, y: int)
    ensures
        m.neighbor_count(x, y, CellState::Dead) + m.neighbor_count(x, y, CellState::Dormant)
            + m.neighbor_count(x, y, CellState::Alive) == 8,
{
    lemma_counts_sum(m, x, y, 8);
}

/// The generations follow one another: zero generations leave the grid as
/// it is, and `n + 1` generations are one more after `n`.
pub proof fn lemma_iterate_next(m: GridModel, n: nat)
    ensures
        m.iterate(0) == m,
        m.iterate(n + 1) == m.iterate(n).step(),
{
}

proof fn lemma_first_glider_shift_exact(
    from: Seq<(usize, usize)>,
    to: Seq<(usize, usize)>,
    j0: int,
    w: int,
    h: int,
)
    requires
        0 <= j0,
    ensures
        first_glider_shift(from, to, j0, w, h) matches Some(d) ==> exists|j: int|
            j0 <= j < to.len() && #[trigger] is_glider_shift(from, to, j, w, h) && d
                == shift_between(from[0], to[j]) && forall|i: int|
                j0 <= i < j ==> !#[trigger] is_glider_shift(from, to, i, w, h),
        first_glider_shift(from, to, j0, w, h) is None ==> forall|j: int|
            j0 <= j < to.len() ==> !#[trigger] is_glider_shift(from, to, j, w, h),
    decreases to.len() - j0,
{
    if j0 < to.len() && !is_glider_shift(from, to, j0, w, h) {
        lemma_first_glider_shift_exact(from, to, j0 + 1, w, h);
        if first_glider_shift(from, to, j0, w, h) is Some {
            let d = first_glider_shift(from, to, j0, w, h)->0;
            let j = choose|j: int|
                j0 + 1 <= j < to.len() && #[trigger] is_glider_shift(from, to, j, w, h) && d
                    == shift_between(from[0], to[j]) && forall|i: int|
                    j0 + 1 <= i < j ==> !#[trigger] is_glider_shift(from, to, i, w, h);
            assert forall|i: int| j0 <= i < j implies !#[trigger] is_glider_shift(from, to, i, w, h) by {}
        }
    }
}

/// Glider detection answers with the shift of the first Alive cell of the
/// later grid (in row-major order) that works: a shift is reported exactly
/// when the two grids have the same, non-zero number of Alive cells and some
/// Alive cell of the later grid gives a working shift, and then no earlier
/// one does.
pub proof fn lemma_glider_shift_first(initial: GridModel, after: GridModel)
    ensures
        ({
            let from = initial.alive_positions();
            let to = after.alive_positions();
            let w = initial.width as int;
            let h = initial.height as int;
            &&& (from.len() != to.len() || from.len() == 0) ==> glider_shift(initial, after) is None
            &&& (from.len() == to.len() && from.len() > 0 && exists|j: int|
                0 <= j < to.len() && #[trigger] is_glider_shift(from, to, j, w, h))
                ==> glider_shift(initial, after) is Some
            &&& glider_shift(initial, after) matches Some(d) ==> exists|j: int|
                0 <= j < to.len() && #[trigger] is_glider_shift(from, to, j, w, h) && d
                    == shift_between(from[0], to[j]) && forall|i: int|
                    0 <= i < j ==> !#[trigger] is_glider_shift(from, to, i, w, h)
        }),
{
    let from = initial.alive_positions();
    let to = after.alive_positions();
    lemma_first_glider_shift_exact(from, to, 0, initial.width as int, initial.height as int);
}

/// A blank grid has all its cells Dead.
pub proof fn lemma_blank_cells(width: nat, height: nat, x: int, y: int)
    requires
        GridModel::blank(width, height).in_bounds(x, y),
    ensures
        GridModel::blank(width, height).cell(x, y) == CellState::Dead,
        GridModel::blank(width, height).cells.len() == width * height,
{
    lemma_index(width as int, height as int, x, y);
}

/// No window is reported when the window size is 0 or larger than the grid.
pub proof fn lemma_still_lives_size(m: GridModel, s: nat)
    requires
        s == 0 || s > m.width || s > m.height,
    ensures
        m.still_lives(s).len() == 0,
{
}

} // verus!
