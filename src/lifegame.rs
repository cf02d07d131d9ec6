use vstd::prelude::*;

use crate::message::ICN2037Message;
use crate::patterns::{
    catalog_rows, oscillator_glyphs, oscillators, spaceship_glyphs, spaceships, still_life_glyphs,
    still_lifes,
};
use crate::rng::{fill_bytes, next_u32};

verus! {

/// The state of one cell.
#[derive(Debug, Clone, Copy, PartialEq, Eq, Structural)]
pub enum CellState {
    Dead,
    Alive,
}

/// How neighborhoods are formed at the edges of the grid.
#[derive(Debug, Clone, Copy, PartialEq, Eq, Structural)]
pub enum BoarderPolicy {
    /// Neighborhoods are clipped at the edges.
    Ignored,
    /// Coordinates wrap around: the grid is a torus.
    Looping,
}

/// A grid as a sequence of columns: `g[x][y]`.
pub type GridView = Seq<Seq<CellState>>;

pub open spec fn grid_view(g: &Vec<Vec<CellState>>) -> GridView {
    g@.map_values(|c: Vec<CellState>| c@)
}

/// `g` has `w` columns of `h` cells each.
pub open spec fn is_grid(g: GridView, w: int, h: int) -> bool {
    &&& g.len() == w
    &&& forall|x: int| 0 <= x < w ==> (#[trigger] g[x]).len() == h
}

pub open spec fn dead_grid(w: int, h: int) -> GridView {
    Seq::new(w as nat, |x: int| Seq::new(h as nat, |y: int| CellState::Dead))
}

pub open spec fn all_dead_spec(g: GridView) -> bool {
    forall|x: int, y: int|
        0 <= x < g.len() && 0 <= y < g[x].len() ==> #[trigger] g[x][y] == CellState::Dead
}

/// The cell that offset `(dx, dy)` designates from `(x, y)`, and whether it counts
/// as a neighbor.
pub open spec fn neighbor_of(
    policy: BoarderPolicy,
    w: int,
    h: int,
    x: int,
    y: int,
    dx: int,
    dy: int,
) -> (bool, int, int) {
    match policy {
        BoarderPolicy::Looping => {
            let nx = (x + dx) % w;
            let ny = (y + dy) % h;
            (!(nx == x && ny == y), nx, ny)
        },
        BoarderPolicy::Ignored => {
            let nx = x + dx;
            let ny = y + dy;
            (0 <= nx < w && 0 <= ny < h && !(dx == 0 && dy == 0), nx, ny)
        },
    }
}

/// 1 when offset `(dx, dy)` from `(x, y)` designates a live neighbor, else 0.
pub open spec fn neighbor_term(
    g: GridView,
    policy: BoarderPolicy,
    w: int,
    h: int,
    x: int,
    y: int,
    dx: int,
    dy: int,
) -> int {
    let (counts, nx, ny) = neighbor_of(policy, w, h, x, y, dx, dy);
    if counts && g[nx][ny] == CellState::Alive {
        1
    } else {
        0
    }
}

/// The number of live neighbors of `(x, y)` over the 3x3 neighborhood.
pub open spec fn live_neighbors(
    g: GridView,
    policy: BoarderPolicy,
    w: int,
    h: int,
    x: int,
    y: int,
) -> int {
    neighbor_term(g, policy, w, h, x, y, -1, -1) + neighbor_term(g, policy, w, h, x, y, -1, 0)
        + neighbor_term(g, policy, w, h, x, y, -1, 1) + neighbor_term(g, policy, w, h, x, y, 0, -1)
        + neighbor_term(g, policy, w, h, x, y, 0, 0) + neighbor_term(g, policy, w, h, x, y, 0, 1)
        + neighbor_term(g, policy, w, h, x, y, 1, -1) + neighbor_term(g, policy, w, h, x, y, 1, 0)
        + neighbor_term(g, policy, w, h, x, y, 1, 1)
}

/// Conway's rule: survival on 2 or 3 neighbors, birth on exactly 3.
pub open spec fn life_rule(c: CellState, n: int) -> CellState {
    match c {
        CellState::Alive => if n == 2 || n == 3 {
            CellState::Alive
        } else {
            CellState::Dead
        },
        CellState::Dead => if n == 3 {
            CellState::Alive
        } else {
            CellState::Dead
        },
    }
}

/// The generation that follows `g`.
pub open spec fn next_generation(g: GridView, policy: BoarderPolicy, w: int, h: int) -> GridView {
    Seq::new(
        w as nat,
        |x: int| Seq::new(h as nat, |y: int| life_rule(g[x][y], live_neighbors(g, policy, w, h, x, y))),
    )
}

/// `(x + d - 1) mod n`, for `d` in `0..3`.
fn wrap_step(x: usize, d: usize, n: usize) -> (r: usize)
    requires
        x < n,
        d < 3,
    ensures
        r as int == (x + d - 1) % (n as int),
{
    if d == 0 {
        if x == 0 {
            assert((x + d - 1) % (n as int) == n - 1) by (nonlinear_arith)
                requires x == 0, d == 0, n > 0;
            n - 1
        } else {
            assert((x + d - 1) % (n as int) == x - 1) by (nonlinear_arith)
                requires x > 0, d == 0, x < n;
            x - 1
        }
    } else if d == 1 {
        assert((x + d - 1) % (n as int) == x) by (nonlinear_arith)
            requires d == 1, x < n;
        x
    } else if x + 1 >= n {
        assert((x + d - 1) % (n as int) == 0) by (nonlinear_arith)
            requires d == 2, x + 1 == n;
        0
    } else {
        assert((x + d - 1) % (n as int) == x + 1) by (nonlinear_arith)
            requires d == 2, x + 1 < n;
        x + 1
    }
}

/// 1 when offset `(dx - 1, dy - 1)` from `(x, y)` designates a live neighbor in `map`.
fn neighbor_alive(
    policy: BoarderPolicy,
    w: usize,
    h: usize,
    x: usize,
    y: usize,
    dx: usize,
    dy: usize,
    map: &Vec<Vec<CellState>>,
) -> (r: usize)
    requires
        x < w,
        y < h,
        dx < 3,
        dy < 3,
        is_grid(grid_view(map), w as int, h as int),
    ensures
        r == neighbor_term(grid_view(map), policy, w as int, h as int, x as int, y as int, dx - 1, dy - 1),
{
    match policy {
        BoarderPolicy::Looping => {
            let nx = wrap_step(x, dx, w);
            let ny = wrap_step(y, dy, h);
            if !(nx == x && ny == y) && map[nx][ny] == CellState::Alive {
                1
            } else {
                0
            }
        },
        BoarderPolicy::Ignored => {
            if (dx == 0 && x == 0) || (dx == 2 && x + 1 >= w) || (dy == 0 && y == 0) || (dy == 2 && y
                + 1 >= h) || (dx == 1 && dy == 1) {
                0
            } else {
                let nx = x + dx - 1;
                let ny = y + dy - 1;
                assert(grid_view(map)[nx as int] == map@[nx as int]@);
                if map[nx][ny] == CellState::Alive {
                    1
                } else {
                    0
                }
            }
        },
    }
}

/// The number of live neighbors of `(x, y)` in `map`.
fn count_neighbors_alive(
    policy: BoarderPolicy,
    w: usize,
    h: usize,
    x: usize,
    y: usize,
    map: &Vec<Vec<CellState>>,
) -> (r: usize)
    requires
        x < w,
        y < h,
        is_grid(grid_view(map), w as int, h as int),
    ensures
        r == live_neighbors(grid_view(map), policy, w as int, h as int, x as int, y as int),
{
    let mut r: usize = 0;
    r += neighbor_alive(policy, w, h, x, y, 0, 0, map);
    r += neighbor_alive(policy, w, h, x, y, 0, 1, map);
    r += neighbor_alive(policy, w, h, x, y, 0, 2, map);
    r += neighbor_alive(policy, w, h, x, y, 1, 0, map);
    r += neighbor_alive(policy, w, h, x, y, 1, 1, map);
    r += neighbor_alive(policy, w, h, x, y, 1, 2, map);
    r += neighbor_alive(policy, w, h, x, y, 2, 0, map);
    r += neighbor_alive(policy, w, h, x, y, 2, 1, map);
    r += neighbor_alive(policy, w, h, x, y, 2, 2, map);
    r
}

fn rule(c: CellState, n: usize) -> (r: CellState)
    ensures
        r == life_rule(c, n as int),
{
    match c {
        CellState::Alive => if n == 2 || n == 3 {
            CellState::Alive
        } else {
            CellState::Dead
        },
        CellState::Dead => if n == 3 {
            CellState::Alive
        } else {
            CellState::Dead
        },
    }
}

/// Writes the generation that follows `last` into `next`.
fn next_into(
    policy: BoarderPolicy,
    w: usize,
    h: usize,
    last: &Vec<Vec<CellState>>,
    next: &mut Vec<Vec<CellState>>,
)
    requires
        is_grid(grid_view(last), w as int, h as int),
        is_grid(grid_view(old(next)), w as int, h as int),
    ensures
        grid_view(final(next)) == next_generation(grid_view(last), policy, w as int, h as int),
{
    let ghost target = next_generation(grid_view(last), policy, w as int, h as int);
    let mut x: usize = 0;
    while x < w
        invariant
            x <= w,
            is_grid(grid_view(last), w as int, h as int),
            is_grid(grid_view(next), w as int, h as int),
            target == next_generation(grid_view(last), policy, w as int, h as int),
            forall|i: int, j: int| 0 <= i < x && 0 <= j < h ==> grid_view(next)[i][j] == target[i][j],
        decreases w - x,
    {
        let mut y: usize = 0;
        while y < h
            invariant
                x < w,
                y <= h,
                is_grid(grid_view(last), w as int, h as int),
                is_grid(grid_view(next), w as int, h as int),
                target == next_generation(grid_view(last), policy, w as int, h as int),
                forall|i: int, j: int| 0 <= i < x && 0 <= j < h ==> grid_view(next)[i][j] == target[i][j],
                forall|j: int| 0 <= j < y ==> grid_view(next)[x as int][j] == target[x as int][j],
            decreases h - y,
        {
            let count = count_neighbors_alive(policy, w, h, x, y, last);
            assert(grid_view(last)[x as int] == last@[x as int]@);
            let c = rule(last[x][y], count);
            assert(grid_view(next)[x as int] == next@[x as int]@);
            let ghost before = grid_view(next);
            next[x][y] = c;
            proof {
                let after = grid_view(next);
                assert(after =~~= before.update(x as int, before[x as int].update(y as int, c)));
            }
            y += 1;
        }
        x += 1;
    }
    assert(grid_view(next) =~~= target);
}


/// Every cell of the board is stagnant: no change, nothing alive, or a period-2 cycle.
pub open spec fn still_spec(cur: GridView, upc: GridView, policy: BoarderPolicy, w: int, h: int) -> bool {
    ||| cur == upc
    ||| (all_dead_spec(cur) && all_dead_spec(upc))
    ||| next_generation(upc, policy, w, h) == cur
}

fn dead_cells(w: usize, h: usize) -> (r: Vec<Vec<CellState>>)
    ensures
        grid_view(&r) == dead_grid(w as int, h as int),
{
    let mut r: Vec<Vec<CellState>> = Vec::new();
    let mut x: usize = 0;
    while x < w
        invariant
            x <= w,
            r@.len() == x,
            forall|i: int| 0 <= i < x ==> #[trigger] r@[i]@ == Seq::new(h as nat, |y: int| CellState::Dead),
        decreases w - x,
    {
        let mut col: Vec<CellState> = Vec::new();
        let mut y: usize = 0;
        while y < h
            invariant
                y <= h,
                col@ == Seq::new(y as nat, |j: int| CellState::Dead),
            decreases h - y,
        {
            col.push(CellState::Dead);
            y += 1;
            assert(col@ =~= Seq::new(y as nat, |j: int| CellState::Dead));
        }
        r.push(col);
        x += 1;
    }
    assert(grid_view(&r) =~~= dead_grid(w as int, h as int));
    r
}

fn grid_all_dead(g: &Vec<Vec<CellState>>, w: usize, h: usize) -> (r: bool)
    requires
        is_grid(grid_view(g), w as int, h as int),
    ensures
        r == all_dead_spec(grid_view(g)),
{
    let mut x: usize = 0;
    while x < w
        invariant
            x <= w,
            is_grid(grid_view(g), w as int, h as int),
            forall|i: int, j: int| 0 <= i < x && 0 <= j < h ==> grid_view(g)[i][j] == CellState::Dead,
        decreases w - x,
    {
        let mut y: usize = 0;
        assert(grid_view(g)[x as int] == g@[x as int]@);
        while y < h
            invariant
                x < w,
                y <= h,
                is_grid(grid_view(g), w as int, h as int),
                grid_view(g)[x as int] == g@[x as int]@,
                forall|i: int, j: int| 0 <= i < x && 0 <= j < h ==> grid_view(g)[i][j] == CellState::Dead,
                forall|j: int| 0 <= j < y ==> grid_view(g)[x as int][j] == CellState::Dead,
            decreases h - y,
        {
            if g[x][y] != CellState::Dead {
                return false;
            }
            y += 1;
        }
        x += 1;
    }
    true
}

fn grids_equal(a: &Vec<Vec<CellState>>, b: &Vec<Vec<CellState>>, w: usize, h: usize) -> (r: bool)
    requires
        is_grid(grid_view(a), w as int, h as int),
        is_grid(grid_view(b), w as int, h as int),
    ensures
        r == (grid_view(a) == grid_view(b)),
{
    let mut x: usize = 0;
    while x < w
        invariant
            x <= w,
            is_grid(grid_view(a), w as int, h as int),
            is_grid(grid_view(b), w as int, h as int),
            forall|i: int, j: int| 0 <= i < x && 0 <= j < h ==> grid_view(a)[i][j] == grid_view(b)[i][j],
        decreases w - x,
    {
        let mut y: usize = 0;
        assert(grid_view(a)[x as int] == a@[x as int]@);
        assert(grid_view(b)[x as int] == b@[x as int]@);
        while y < h
            invariant
                x < w,
                y <= h,
                is_grid(grid_view(a), w as int, h as int),
                is_grid(grid_view(b), w as int, h as int),
                grid_view(a)[x as int] == a@[x as int]@,
                grid_view(b)[x as int] == b@[x as int]@,
                forall|i: int, j: int| 0 <= i < x && 0 <= j < h ==> grid_view(a)[i][j] == grid_view(b)[i][j],
                forall|j: int| 0 <= j < y ==> grid_view(a)[x as int][j] == grid_view(b)[x as int][j],
            decreases h - y,
        {
            if a[x][y] != b[x][y] {
                return false;
            }
            y += 1;
        }
        x += 1;
    }
    assert forall|i: int| 0 <= i < w implies grid_view(a)[i] == grid_view(b)[i] by {
        assert(grid_view(a)[i] =~= grid_view(b)[i]);
    }
    assert(grid_view(a) =~= grid_view(b));
    true
}

/// Copies every cell of `src` into `dst`.
fn copy_cells(src: &Vec<Vec<CellState>>, dst: &mut Vec<Vec<CellState>>, w: usize, h: usize)
    requires
        is_grid(grid_view(src), w as int, h as int),
        is_grid(grid_view(old(dst)), w as int, h as int),
    ensures
        grid_view(final(dst)) == grid_view(src),
{
    let mut x: usize = 0;
    while x < w
        invariant
            x <= w,
            is_grid(grid_view(src), w as int, h as int),
            is_grid(grid_view(dst), w as int, h as int),
            forall|i: int, j: int| 0 <= i < x && 0 <= j < h ==> grid_view(dst)[i][j] == grid_view(src)[i][j],
        decreases w - x,
    {
        let mut y: usize = 0;
        while y < h
            invariant
                x < w,
                y <= h,
                is_grid(grid_view(src), w as int, h as int),
                is_grid(grid_view(dst), w as int, h as int),
                forall|i: int, j: int| 0 <= i < x && 0 <= j < h ==> grid_view(dst)[i][j] == grid_view(src)[i][j],
                forall|j: int| 0 <= j < y ==> grid_view(dst)[x as int][j] == grid_view(src)[x as int][j],
            decreases h - y,
        {
            assert(grid_view(src)[x as int] == src@[x as int]@);
            assert(grid_view(dst)[x as int] == dst@[x as int]@);
            let c = src[x][y];
            let ghost before = grid_view(dst);
            dst[x][y] = c;
            proof {
                assert(grid_view(dst) =~~= before.update(x as int, before[x as int].update(y as int, c)));
            }
            y += 1;
        }
        x += 1;
    }
    assert forall|i: int| 0 <= i < w implies grid_view(dst)[i] == grid_view(src)[i] by {
        assert(grid_view(dst)[i] =~= grid_view(src)[i]);
    }
    assert(grid_view(dst) =~= grid_view(src));
}

/// The rows of a glyph, as characters.
pub open spec fn glyph_rows(p: Seq<&str>) -> Seq<Seq<char>> {
    p.map_values(|s: &str| s@)
}

/// The glyph position (row, column) that covers cell `(cx, cy)` when the glyph is
/// placed at `(x, y)`: row `r`, column `c` lands on `(x + c, y + r)`, or on
/// `(x + r, y + c)` when transposed.
pub open spec fn glyph_pos(x: int, y: int, cx: int, cy: int, transpose: bool) -> (int, int) {
    if transpose {
        (cx - x, cy - y)
    } else {
        (cy - y, cx - x)
    }
}

/// Whether glyph position `(r, c)` exists and comes before row `nr`, column `nc`.
pub open spec fn glyph_covers(rows: Seq<Seq<char>>, r: int, c: int, nr: int, nc: int) -> bool {
    &&& 0 <= r < rows.len()
    &&& 0 <= c < rows[r].len()
    &&& (r < nr || (r == nr && c < nc))
}

pub open spec fn glyph_cell(ch: char) -> CellState {
    if ch == ' ' {
        CellState::Dead
    } else {
        CellState::Alive
    }
}

/// `g` with the glyph positions before row `nr`, column `nc` written at offset
/// `(x, y)`; cells outside the grid are dropped.
pub open spec fn overlay_upto(
    g: GridView,
    x: int,
    y: int,
    rows: Seq<Seq<char>>,
    transpose: bool,
    nr: int,
    nc: int,
) -> GridView {
    Seq::new(
        g.len(),
        |cx: int|
            Seq::new(
                g[cx].len(),
                |cy: int|
                    {
                        let (r, c) = glyph_pos(x, y, cx, cy, transpose);
                        if glyph_covers(rows, r, c, nr, nc) {
                            glyph_cell(rows[r][c])
                        } else {
                            g[cx][cy]
                        }
                    },
            ),
    )
}

/// `g` with the whole glyph written at offset `(x, y)`, clipped to the grid.
pub open spec fn overlay(g: GridView, x: int, y: int, rows: Seq<Seq<char>>, transpose: bool) -> GridView {
    overlay_upto(g, x, y, rows, transpose, rows.len() as int, 0)
}

/// The offset that centers a span of `m` cells on a line of `n` cells (0 when it
/// does not fit in half).
pub open spec fn center_offset(n: int, m: int) -> int {
    if m / 2 <= n / 2 {
        n / 2 - m / 2
    } else {
        0
    }
}

/// Width of a glyph's bounding box: its longest row.
pub open spec fn glyph_width(rows: Seq<Seq<char>>) -> int
    decreases rows.len(),
{
    if rows.len() == 0 {
        0
    } else {
        let w = glyph_width(rows.drop_last());
        if rows.last().len() > w {
            rows.last().len() as int
        } else {
            w
        }
    }
}

/// `base + d` when it is below `n`.
fn offset_in(base: usize, d: usize, n: usize) -> (r: Option<usize>)
    ensures
        r == (if base + d < n {
            Some((base + d) as usize)
        } else {
            None::<usize>
        }),
{
    if base < n && d < n - base {
        Some(base + d)
    } else {
        None
    }
}

fn center(n: usize, m: usize) -> (r: usize)
    ensures
        r == center_offset(n as int, m as int),
{
    if m / 2 <= n / 2 {
        n / 2 - m / 2
    } else {
        0
    }
}

fn width_of(pattern: &[&str]) -> (r: usize)
    ensures
        r == glyph_width(glyph_rows(pattern@)),
{
    let mut w: usize = 0;
    let mut i: usize = 0;
    while i < pattern.len()
        invariant
            i <= pattern@.len(),
            w == glyph_width(glyph_rows(pattern@.subrange(0, i as int))),
        decreases pattern@.len() - i,
    {
        let n = pattern[i].unicode_len();
        proof {
            let next = pattern@.subrange(0, i + 1);
            assert(glyph_rows(next).drop_last() =~= glyph_rows(pattern@.subrange(0, i as int)));
        }
        if n > w {
            w = n;
        }
        i += 1;
    }
    assert(pattern@.subrange(0, pattern@.len() as int) =~= pattern@);
    w
}

/// The glyphs of a pattern category: 0 oscillators, 1 spaceships, 2 still lifes.
pub open spec fn catalog(k: int) -> Seq<Seq<Seq<char>>> {
    if k == 0 {
        oscillator_glyphs()
    } else if k == 1 {
        spaceship_glyphs()
    } else {
        still_life_glyphs()
    }
}

/// `g` with the glyph of category `k` that `ridx` picks written at the cell that
/// `(rx, ry)` picks.
pub open spec fn placement(g: GridView, w: int, h: int, k: int, rx: u32, ry: u32, ridx: u32) -> GridView {
    let glyphs = catalog(k);
    overlay(g, rx as int % w, ry as int % h, glyphs[ridx as int % glyphs.len() as int], false)
}

/// `g` with each placement of `ps` (category, column pick, row pick, glyph pick)
/// written in order.
pub open spec fn place_all(g: GridView, w: int, h: int, ps: Seq<(int, u32, u32, u32)>) -> GridView
    decreases ps.len(),
{
    if ps.len() == 0 {
        g
    } else {
        let p = ps.last();
        placement(place_all(g, w, h, ps.drop_last()), w, h, p.0, p.1, p.2, p.3)
    }
}

fn category_glyphs(k: usize) -> (r: Vec<Vec<&'static str>>)
    requires
        k < 3,
    ensures
        catalog_rows(r@) == catalog(k as int),
        r@.len() > 0,
{
    let r = if k == 0 {
        oscillators()
    } else if k == 1 {
        spaceships()
    } else {
        still_lifes()
    };
    assert(catalog_rows(r@).len() == r@.len());
    r
}

/// The gray level that a cell shows at fade step `k` of the transition `from -> to`:
/// rising for a birth, falling for a death, none for a cell that does not change.
pub open spec fn fade_level(from: CellState, to: CellState, k: int) -> Option<int> {
    match (from, to) {
        (CellState::Dead, CellState::Alive) => Some(k),
        (CellState::Alive, CellState::Dead) => Some(15 - k),
        _ => None,
    }
}

/// The messages of fade step `k` for cells `(x, 0..n)`.
pub open spec fn column_messages(cur: GridView, nxt: GridView, k: int, x: int, n: int) -> Seq<ICN2037Message>
    decreases n,
{
    if n <= 0 {
        seq![]
    } else {
        let y = n - 1;
        let rest = column_messages(cur, nxt, k, x, y);
        match fade_level(cur[x][y], nxt[x][y], k) {
            Some(v) => rest.push(ICN2037Message::SetPixel((x as usize, y as usize, v as u8))),
            None => rest,
        }
    }
}

/// The messages of fade step `k` for the columns `0..m` of `h` cells, column by column.
pub open spec fn frame_messages(cur: GridView, nxt: GridView, k: int, h: int, m: int) -> Seq<ICN2037Message>
    decreases m,
{
    if m <= 0 {
        seq![]
    } else {
        frame_messages(cur, nxt, k, h, m - 1) + column_messages(cur, nxt, k, m - 1, h)
    }
}

/// The fade steps of a transition, as (gray step, pause after it in ms): sixteen
/// evenly spaced steps over `fade_ms`, or a single full step when the budget is under
/// one step per level or `quick` asks for a minimal pause.
pub open spec fn fade_steps(fade_ms: u64, quick: bool) -> Seq<(int, u64)> {
    if fade_ms >= 16 && !quick {
        Seq::new(16, |k: int| (k, (fade_ms / 16) as u64))
    } else {
        seq![(15, if quick { 1 } else { fade_ms })]
    }
}

/// One step of a fade transition: the messages to send in order, then the pause.
pub struct DrawStep {
    pub messages: Vec<ICN2037Message>,
    pub delay_ms: u64,
}

/// A Game of Life board of `W` columns and `H` rows, double-buffered: `state` is the
/// committed generation and `state_next` the one being computed or edited.
pub struct LifeGame<const W: usize, const H: usize> {
    state: Vec<Vec<CellState>>,
    state_next: Vec<Vec<CellState>>,
    boarder_policy: BoarderPolicy,
    fade_time_ms: u64,
    rng: rand_xorshift::XorShiftRng,
}

impl<const W: usize, const H: usize> LifeGame<W, H> {
    /// The committed generation.
    pub closed spec fn current(&self) -> GridView {
        grid_view(&self.state)
    }

    /// The generation being computed or edited.
    pub closed spec fn upcoming(&self) -> GridView {
        grid_view(&self.state_next)
    }

    pub closed spec fn policy(&self) -> BoarderPolicy {
        self.boarder_policy
    }

    pub closed spec fn fade_time(&self) -> u64 {
        self.fade_time_ms
    }

    /// Both buffers have the board's shape.
    pub closed spec fn wf(&self) -> bool {
        &&& is_grid(self.current(), W as int, H as int)
        &&& is_grid(self.upcoming(), W as int, H as int)
    }

    /// A board with both buffers dead and wrapping borders.
    pub fn new(fade_time: u64, rng: rand_xorshift::XorShiftRng) -> (r: Self)
        ensures
            r.wf(),
            r.current() == dead_grid(W as int, H as int),
            r.upcoming() == dead_grid(W as int, H as int),
            r.policy() == BoarderPolicy::Looping,
            r.fade_time() == fade_time,
    {
        LifeGame {
            state: dead_cells(W, H),
            state_next: dead_cells(W, H),
            boarder_policy: BoarderPolicy::Looping,
            fade_time_ms: fade_time,
            rng,
        }
    }

    /// Sets how neighborhoods are formed at the edges.
    pub fn set_boarder_policy(&mut self, policy: BoarderPolicy)
        ensures
            final(self).policy() == policy,
            final(self).current() == old(self).current(),
            final(self).upcoming() == old(self).upcoming(),
            final(self).fade_time() == old(self).fade_time(),
    {
        self.boarder_policy = policy;
    }

    /// The state of cell `(x, y)` in the committed generation.
    pub fn cell(&self, x: usize, y: usize) -> (r: CellState)
        requires
            self.wf(),
            x < W,
            y < H,
        ensures
            r == self.current()[x as int][y as int],
    {
        assert(self.current()[x as int] == self.state@[x as int]@);
        self.state[x][y]
    }

    /// The state of cell `(x, y)` in the upcoming generation.
    pub fn cell_next(&self, x: usize, y: usize) -> (r: CellState)
        requires
            self.wf(),
            x < W,
            y < H,
        ensures
            r == self.upcoming()[x as int][y as int],
    {
        assert(self.upcoming()[x as int] == self.state_next@[x as int]@);
        self.state_next[x][y]
    }

    /// Whether every cell of the committed generation is dead.
    pub fn all_dead(&self) -> (r: bool)
        requires
            self.wf(),
        ensures
            r == all_dead_spec(self.current()),
    {
        grid_all_dead(&self.state, W, H)
    }

    /// Whether every cell of the upcoming generation is dead.
    pub fn all_dead_next(&self) -> (r: bool)
        requires
            self.wf(),
        ensures
            r == all_dead_spec(self.upcoming()),
    {
        grid_all_dead(&self.state_next, W, H)
    }

    /// Whether the board has stagnated: the upcoming generation equals the committed
    /// one, both are dead, or one more step from the upcoming generation gives back
    /// the committed one (a period-2 oscillation).
    pub fn is_still(&self) -> (r: bool)
        requires
            self.wf(),
        ensures
            r == still_spec(self.current(), self.upcoming(), self.policy(), W as int, H as int),
    {
        if grids_equal(&self.state, &self.state_next, W, H) {
            return true;
        }
        if self.all_dead() && self.all_dead_next() {
            return true;
        }
        let mut next = dead_cells(W, H);
        self.step_calc(&self.state_next, &mut next);
        grids_equal(&self.state, &next, W, H)
    }

    /// Commits the upcoming generation: `state` becomes a copy of `state_next`.
    pub fn step_apply(&mut self)
        requires
            old(self).wf(),
        ensures
            final(self).wf(),
            final(self).current() == old(self).upcoming(),
            final(self).upcoming() == old(self).upcoming(),
            final(self).policy() == old(self).policy(),
            final(self).fade_time() == old(self).fade_time(),
    {
        copy_cells(&self.state_next, &mut self.state, W, H);
    }

    /// Sets cell `(x mod W, y mod H)` of the upcoming generation.
    pub fn make_alive(&mut self, x: usize, y: usize, alive: bool)
        requires
            old(self).wf(),
            W > 0,
            H > 0,
        ensures
            final(self).wf(),
            final(self).upcoming() == old(self).upcoming().update(
                (x % W) as int,
                old(self).upcoming()[(x % W) as int].update(
                    (y % H) as int,
                    if alive {
                        CellState::Alive
                    } else {
                        CellState::Dead
                    },
                ),
            ),
            final(self).current() == old(self).current(),
            final(self).policy() == old(self).policy(),
            final(self).fade_time() == old(self).fade_time(),
    {
        let x = x % W;
        let y = y % H;
        let c = if alive {
            CellState::Alive
        } else {
            CellState::Dead
        };
        assert(grid_view(&self.state_next)[x as int] == self.state_next@[x as int]@);
        let ghost before = grid_view(&self.state_next);
        self.state_next[x][y] = c;
        assert(grid_view(&self.state_next) =~~= before.update(x as int, before[x as int].update(y as int, c)));
    }

    /// Writes a glyph into the upcoming generation at `(x, y)`, clipped to the grid.
    fn place(&mut self, x: usize, y: usize, pattern: &[&str], transpose: bool)
        requires
            old(self).wf(),
        ensures
            final(self).wf(),
            final(self).upcoming() == overlay(old(self).upcoming(), x as int, y as int, glyph_rows(pattern@), transpose),
            final(self).current() == old(self).current(),
            final(self).policy() == old(self).policy(),
            final(self).fade_time() == old(self).fade_time(),
    {
        let ghost g0 = self.upcoming();
        let ghost rows = glyph_rows(pattern@);
        let mut r: usize = 0;
        assert(self.upcoming() =~~= overlay_upto(g0, x as int, y as int, rows, transpose, 0, 0));
        while r < pattern.len()
            invariant
                self.wf(),
                r <= pattern@.len(),
                rows == glyph_rows(pattern@),
                self.upcoming() == overlay_upto(g0, x as int, y as int, rows, transpose, r as int, 0),
                self.current() == old(self).current(),
                self.policy() == old(self).policy(),
                self.fade_time() == old(self).fade_time(),
                is_grid(g0, W as int, H as int),
            decreases pattern@.len() - r,
        {
            let line = pattern[r];
            let n = line.unicode_len();
            let mut c: usize = 0;
            while c < n
                invariant
                    self.wf(),
                    r < pattern@.len(),
                    c <= n,
                    n == rows[r as int].len(),
                    line@ == rows[r as int],
                    rows == glyph_rows(pattern@),
                    self.upcoming() == overlay_upto(g0, x as int, y as int, rows, transpose, r as int, c as int),
                    self.current() == old(self).current(),
                    self.policy() == old(self).policy(),
                    self.fade_time() == old(self).fade_time(),
                    is_grid(g0, W as int, H as int),
                decreases n - c,
            {
                let ch = line.get_char(c);
                let (ox, oy) = if transpose {
                    (offset_in(x, r, W), offset_in(y, c, H))
                } else {
                    (offset_in(x, c, W), offset_in(y, r, H))
                };
                let ghost before = self.upcoming();
                match (ox, oy) {
                    (Some(cx), Some(cy)) => {
                        self.make_alive(cx, cy, ch != ' ');
                        assert(cx % W == cx) by (nonlinear_arith)
                            requires cx < W;
                        assert(cy % H == cy) by (nonlinear_arith)
                            requires cy < H;
                        assert(self.upcoming() =~~= overlay_upto(g0, x as int, y as int, rows, transpose, r as int, c + 1));
                    },
                    _ => {
                        assert(self.upcoming() =~~= overlay_upto(g0, x as int, y as int, rows, transpose, r as int, c + 1));
                    },
                }
                c += 1;
            }
            r += 1;
            assert(self.upcoming() =~~= overlay_upto(g0, x as int, y as int, rows, transpose, r as int, 0));
        }
    }

    /// Writes a glyph into the upcoming generation with its first row and column at
    /// `(x, y)`: a space is a dead cell, any other character a live one. Cells that
    /// fall outside the grid are dropped.
    pub fn apply_pattern(&mut self, x: usize, y: usize, pattern: &[&str])
        requires
            old(self).wf(),
        ensures
            final(self).wf(),
            final(self).upcoming() == overlay(old(self).upcoming(), x as int, y as int, glyph_rows(pattern@), false),
            final(self).current() == old(self).current(),
            final(self).policy() == old(self).policy(),
            final(self).fade_time() == old(self).fade_time(),
    {
        self.place(x, y, pattern, false)
    }

    /// As `apply_pattern` with rows and columns swapped: row `r`, column `c` of the
    /// glyph lands on cell `(x + r, y + c)`.
    pub fn apply_pattern_transpose(&mut self, x: usize, y: usize, pattern: &[&str])
        requires
            old(self).wf(),
        ensures
            final(self).wf(),
            final(self).upcoming() == overlay(old(self).upcoming(), x as int, y as int, glyph_rows(pattern@), true),
            final(self).current() == old(self).current(),
            final(self).policy() == old(self).policy(),
            final(self).fade_time() == old(self).fade_time(),
    {
        self.place(x, y, pattern, true)
    }

    /// Writes a glyph centered on the grid.
    pub fn apply_pattern_center(&mut self, pattern: &[&str])
        requires
            old(self).wf(),
        ensures
            final(self).wf(),
            final(self).upcoming() == overlay(
                old(self).upcoming(),
                center_offset(W as int, glyph_width(glyph_rows(pattern@))),
                center_offset(H as int, pattern@.len() as int),
                glyph_rows(pattern@),
                false,
            ),
            final(self).current() == old(self).current(),
            final(self).policy() == old(self).policy(),
            final(self).fade_time() == old(self).fade_time(),
    {
        let w = width_of(pattern);
        let x = center(W, w);
        let y = center(H, pattern.len());
        self.place(x, y, pattern, false)
    }

    /// Writes a transposed glyph centered on the grid.
    pub fn apply_pattern_center_transpose(&mut self, pattern: &[&str])
        requires
            old(self).wf(),
        ensures
            final(self).wf(),
            final(self).upcoming() == overlay(
                old(self).upcoming(),
                center_offset(W as int, pattern@.len() as int),
                center_offset(H as int, glyph_width(glyph_rows(pattern@))),
                glyph_rows(pattern@),
                true,
            ),
            final(self).current() == old(self).current(),
            final(self).policy() == old(self).policy(),
            final(self).fade_time() == old(self).fade_time(),
    {
        let w = width_of(pattern);
        let x = center(W, pattern.len());
        let y = center(H, w);
        self.place(x, y, pattern, true)
    }

    /// Writes the glyph of category `category` (0 oscillators, 1 spaceships, 2 still
    /// lifes) picked by `ridx` at the cell picked by `(rx, ry)`, each pick taken
    /// modulo the number of choices.
    pub fn place_pattern(&mut self, category: usize, rx: u32, ry: u32, ridx: u32)
        requires
            old(self).wf(),
            W > 0,
            H > 0,
            category < 3,
        ensures
            final(self).wf(),
            final(self).upcoming() == placement(old(self).upcoming(), W as int, H as int, category as int, rx, ry, ridx),
            final(self).current() == old(self).current(),
            final(self).policy() == old(self).policy(),
            final(self).fade_time() == old(self).fade_time(),
    {
        let patterns = category_glyphs(category);
        let x = rx as usize % W;
        let y = ry as usize % H;
        let idx = ridx as usize % patterns.len();
        let pattern = patterns[idx].as_slice();
        assert(catalog_rows(patterns@)[idx as int] == glyph_rows(pattern@));
        self.apply_pattern(x, y, pattern);
    }

    /// Clears both generations, then for each category (oscillators, spaceships,
    /// still lifes) places between 0 and 2 glyphs of it, each picked at random with a
    /// random position, into the upcoming generation.
    pub fn randomly_arrange_patterns(&mut self)
        requires
            old(self).wf(),
            W > 0,
            H > 0,
        ensures
            final(self).wf(),
            final(self).current() == dead_grid(W as int, H as int),
            exists|ps: Seq<(int, u32, u32, u32)>|
                {
                    &&& ps.len() <= 6
                    &&& forall|i: int| 0 <= i < ps.len() ==> 0 <= (#[trigger] ps[i]).0 < 3
                    &&& final(self).upcoming() == place_all(dead_grid(W as int, H as int), W as int, H as int, ps)
                },
            final(self).policy() == old(self).policy(),
            final(self).fade_time() == old(self).fade_time(),
    {
        self.clear();
        let mut picks: [u8; 3] = [0u8; 3];
        fill_bytes(&mut self.rng, &mut picks);
        let ghost mut ps: Seq<(int, u32, u32, u32)> = seq![];
        let mut k: usize = 0;
        while k < 3
            invariant
                self.wf(),
                W > 0,
                H > 0,
                k <= 3,
                picks@.len() == 3,
                ps.len() <= 2 * k,
                forall|i: int| 0 <= i < ps.len() ==> 0 <= (#[trigger] ps[i]).0 < 3,
                self.upcoming() == place_all(dead_grid(W as int, H as int), W as int, H as int, ps),
                self.current() == dead_grid(W as int, H as int),
                self.policy() == old(self).policy(),
                self.fade_time() == old(self).fade_time(),
            decreases 3 - k,
        {
            let reps = picks[k] % 3;
            let mut i: u8 = 0;
            while i < reps
                invariant
                    self.wf(),
                    W > 0,
                    H > 0,
                    k < 3,
                    reps < 3,
                    i <= reps,
                    ps.len() <= 2 * k + i,
                    forall|j: int| 0 <= j < ps.len() ==> 0 <= (#[trigger] ps[j]).0 < 3,
                    self.upcoming() == place_all(dead_grid(W as int, H as int), W as int, H as int, ps),
                    self.current() == dead_grid(W as int, H as int),
                    self.policy() == old(self).policy(),
                    self.fade_time() == old(self).fade_time(),
                decreases reps - i,
            {
                let rx = next_u32(&mut self.rng);
                let ry = next_u32(&mut self.rng);
                let ridx = next_u32(&mut self.rng);
                self.place_pattern(k, rx, ry, ridx);
                proof {
                    let ps2 = ps.push((k as int, rx, ry, ridx));
                    assert(ps2.drop_last() =~= ps);
                    ps = ps2;
                }
                i += 1;
            }
            k += 1;
        }
    }

    /// The messages of fade step `k`: one `SetPixel` per cell that differs between the
    /// two generations, column by column.
    fn frame(&self, k: u8) -> (r: Vec<ICN2037Message>)
        requires
            self.wf(),
            k < 16,
        ensures
            r@ == frame_messages(self.current(), self.upcoming(), k as int, H as int, W as int),
    {
        let ghost cur = self.current();
        let ghost nxt = self.upcoming();
        let mut r: Vec<ICN2037Message> = Vec::new();
        let mut x: usize = 0;
        while x < W
            invariant
                self.wf(),
                k < 16,
                cur == self.current(),
                nxt == self.upcoming(),
                x <= W,
                r@ == frame_messages(cur, nxt, k as int, H as int, x as int),
            decreases W - x,
        {
            let mut y: usize = 0;
            assert(cur[x as int] == self.state@[x as int]@);
            assert(nxt[x as int] == self.state_next@[x as int]@);
            while y < H
                invariant
                    self.wf(),
                    k < 16,
                    cur == self.current(),
                    nxt == self.upcoming(),
                    cur[x as int] == self.state@[x as int]@,
                    nxt[x as int] == self.state_next@[x as int]@,
                    x < W,
                    y <= H,
                    r@ == frame_messages(cur, nxt, k as int, H as int, x as int) + column_messages(
                        cur,
                        nxt,
                        k as int,
                        x as int,
                        y as int,
                    ),
                decreases H - y,
            {
                let from = self.state[x][y];
                let to = self.state_next[x][y];
                let ghost before = r@;
                match (from, to) {
                    (CellState::Dead, CellState::Alive) => {
                        r.push(ICN2037Message::SetPixel((x, y, k)));
                    },
                    (CellState::Alive, CellState::Dead) => {
                        r.push(ICN2037Message::SetPixel((x, y, 15 - k)));
                    },
                    _ => {},
                }
                proof {
                    let f = frame_messages(cur, nxt, k as int, H as int, x as int);
                    let c = column_messages(cur, nxt, k as int, x as int, y as int);
                    assert(f + c.push(ICN2037Message::SetPixel((x, y, k))) =~= (f + c).push(ICN2037Message::SetPixel((x, y, k))));
                    assert(f + c.push(ICN2037Message::SetPixel((x, y, (15 - k) as u8))) =~= (f + c).push(ICN2037Message::SetPixel((x, y, (15 - k) as u8))));
                }
                y += 1;
            }
            x += 1;
        }
        r
    }

    /// The fade transition from `state` to `state_next`, as steps to play in order:
    /// each sends its messages (in order, waiting for room) and then pauses.
    /// With a fade time of at least 16 ms and `quick` unset, there are sixteen steps
    /// `k = 0..16`, each `fade_time / 16` ms apart: a cell that is born shows gray
    /// `k`, one that dies `15 - k`. Otherwise a single step shows the end state and
    /// pauses 1 ms (`quick`) or the whole fade time. Unchanged cells send nothing.
    pub fn draw(&self, quick: bool) -> (r: Vec<DrawStep>)
        requires
            self.wf(),
        ensures
            r@.len() == fade_steps(self.fade_time(), quick).len(),
            forall|i: int|
                0 <= i < r@.len() ==> {
                    &&& (#[trigger] r@[i]).messages@ == frame_messages(
                        self.current(),
                        self.upcoming(),
                        fade_steps(self.fade_time(), quick)[i].0,
                        H as int,
                        W as int,
                    )
                    &&& r@[i].delay_ms == fade_steps(self.fade_time(), quick)[i].1
                },
    {
        let ghost steps = fade_steps(self.fade_time_ms, quick);
        let mut r: Vec<DrawStep> = Vec::new();
        if self.fade_time_ms >= 16 && !quick {
            let delay = self.fade_time_ms / 16;
            let mut k: u8 = 0;
            while k < 16
                invariant
                    self.wf(),
                    k <= 16,
                    steps == fade_steps(self.fade_time_ms, quick),
                    self.fade_time_ms >= 16 && !quick,
                    delay == self.fade_time_ms / 16,
                    r@.len() == k,
                    forall|i: int|
                        0 <= i < k ==> {
                            &&& (#[trigger] r@[i]).messages@ == frame_messages(
                                self.current(),
                                self.upcoming(),
                                steps[i].0,
                                H as int,
                                W as int,
                            )
                            &&& r@[i].delay_ms == steps[i].1
                        },
                decreases 16 - k,
            {
                let messages = self.frame(k);
                r.push(DrawStep { messages, delay_ms: delay });
                k += 1;
            }
        } else {
            let messages = self.frame(15);
            let delay_ms = if quick {
                1
            } else {
                self.fade_time_ms
            };
            r.push(DrawStep { messages, delay_ms });
        }
        r
    }

    /// Kills every cell of both generations.
    pub fn clear(&mut self)
        requires
            old(self).wf(),
        ensures
            final(self).wf(),
            final(self).current() == dead_grid(W as int, H as int),
            final(self).upcoming() == dead_grid(W as int, H as int),
            final(self).policy() == old(self).policy(),
            final(self).fade_time() == old(self).fade_time(),
    {
        self.state = dead_cells(W, H);
        self.state_next = dead_cells(W, H);
    }

    /// Writes into `next` the generation that follows `last` under this board's border
    /// policy.
    pub fn step_calc(&self, last: &Vec<Vec<CellState>>, next: &mut Vec<Vec<CellState>>)
        requires
            is_grid(grid_view(last), W as int, H as int),
            is_grid(grid_view(old(next)), W as int, H as int),
        ensures
            grid_view(final(next)) == next_generation(grid_view(last), self.policy(), W as int, H as int),
    {
        next_into(self.boarder_policy, W, H, last, next)
    }

    /// Computes the next generation into `state_next`; `state` is left as it is.
    pub fn step(&mut self)
        requires
            old(self).wf(),
        ensures
            final(self).wf(),
            final(self).current() == old(self).current(),
            final(self).upcoming() == next_generation(old(self).current(), old(self).policy(), W as int, H as int),
            final(self).policy() == old(self).policy(),
            final(self).fade_time() == old(self).fade_time(),
    {
        next_into(self.boarder_policy, W, H, &self.state, &mut self.state_next);
        proof {
            let g = next_generation(grid_view(&self.state), self.boarder_policy, W as int, H as int);
            assert(is_grid(g, W as int, H as int));
        }
    }
}


/// A cell with no live cell around it and under it stays or becomes dead.
proof fn lemma_dead_neighborhood(g: GridView, policy: BoarderPolicy, w: int, h: int, x: int, y: int)
    requires
        is_grid(g, w, h),
        all_dead_spec(g),
        0 <= x < w,
        0 <= y < h,
    ensures
        live_neighbors(g, policy, w, h, x, y) == 0,
{
    assert forall|dx: int, dy: int| -1 <= dx <= 1 && -1 <= dy <= 1 implies neighbor_term(g, policy, w, h, x, y, dx, dy)
        == 0 by {
        let (counts, nx, ny) = neighbor_of(policy, w, h, x, y, dx, dy);
        if counts {
            if policy == BoarderPolicy::Looping {
                assert(0 <= (x + dx) % w < w) by (nonlinear_arith)
                    requires w > 0;
                assert(0 <= (y + dy) % h < h) by (nonlinear_arith)
                    requires h > 0;
            }
            assert(g[nx][ny] == CellState::Dead);
        }
    }
}

/// Stepping a board on which every cell is dead gives a board on which every cell
/// is dead.
pub proof fn lemma_dead_board_stays_dead(g: GridView, policy: BoarderPolicy, w: int, h: int)
    requires
        is_grid(g, w, h),
        all_dead_spec(g),
    ensures
        all_dead_spec(next_generation(g, policy, w, h)),
{
    let n = next_generation(g, policy, w, h);
    assert forall|x: int, y: int| 0 <= x < n.len() && 0 <= y < n[x].len() implies #[trigger] n[x][y]
        == CellState::Dead by {
        lemma_dead_neighborhood(g, policy, w, h, x, y);
    }
}

/// Under wrapping borders the cell `(w - 1, y)` is a neighbor of `(0, y)`: making it
/// alive raises the live-neighbor count of `(0, y)`. Under clipped borders, on a board
/// at least three cells wide, it is not a neighbor: the count does not change.
pub proof fn lemma_left_edge_neighbor(g: GridView, w: int, h: int, y: int)
    requires
        is_grid(g, w, h),
        w >= 2,
        0 <= y < h,
    ensures
        live_neighbors(g.update(w - 1, g[w - 1].update(y, CellState::Alive)), BoarderPolicy::Looping, w, h, 0, y)
            > live_neighbors(g.update(w - 1, g[w - 1].update(y, CellState::Dead)), BoarderPolicy::Looping, w, h, 0, y),
        w >= 3 ==> live_neighbors(g.update(w - 1, g[w - 1].update(y, CellState::Alive)), BoarderPolicy::Ignored, w, h, 0, y)
            == live_neighbors(g.update(w - 1, g[w - 1].update(y, CellState::Dead)), BoarderPolicy::Ignored, w, h, 0, y),
{
    let on = g.update(w - 1, g[w - 1].update(y, CellState::Alive));
    let off = g.update(w - 1, g[w - 1].update(y, CellState::Dead));
    assert forall|dx: int, dy: int| -1 <= dx <= 1 && -1 <= dy <= 1 implies neighbor_term(on, BoarderPolicy::Looping, w, h, 0, y, dx, dy)
        >= neighbor_term(off, BoarderPolicy::Looping, w, h, 0, y, dx, dy) by {
        assert(0 <= (0 + dx) % w < w) by (nonlinear_arith)
            requires w > 0;
        assert(0 <= (y + dy) % h < h) by (nonlinear_arith)
            requires h > 0;
    }
    assert((0 + -1) % w == w - 1) by (nonlinear_arith)
        requires w >= 2;
    assert((y + 0) % h == y) by (nonlinear_arith)
        requires 0 <= y < h;
    assert(neighbor_term(on, BoarderPolicy::Looping, w, h, 0, y, -1, 0) == 1);
    assert(neighbor_term(off, BoarderPolicy::Looping, w, h, 0, y, -1, 0) == 0);
    if w >= 3 {
        assert forall|dx: int, dy: int| -1 <= dx <= 1 && -1 <= dy <= 1 implies neighbor_term(on, BoarderPolicy::Ignored, w, h, 0, y, dx, dy)
            == neighbor_term(off, BoarderPolicy::Ignored, w, h, 0, y, dx, dy) by {}
    }
}

/// Every message of a column's fade step names a cell of that column that differs
/// between the two generations.
proof fn lemma_column_messages_changed(cur: GridView, nxt: GridView, k: int, x: int, n: int)
    requires
        0 <= n <= usize::MAX,
        0 <= x <= usize::MAX,
    ensures
        forall|i: int|
            0 <= i < column_messages(cur, nxt, k, x, n).len() ==> match #[trigger] column_messages(cur, nxt, k, x, n)[i] {
                ICN2037Message::SetPixel((mx, my, _)) => mx as int == x && 0 <= (my as int) < n && cur[x][my as int]
                    != nxt[x][my as int],
                _ => false,
            },
    decreases n,
{
    if n > 0 {
        lemma_column_messages_changed(cur, nxt, k, x, n - 1);
    }
}

/// A fade step sends nothing for a cell that is the same in both generations: each
/// of its messages is a `SetPixel` for a cell of the board whose state changes.
pub proof fn lemma_draw_skips_unchanged(cur: GridView, nxt: GridView, k: int, w: int, h: int)
    requires
        0 <= w <= usize::MAX,
        0 <= h <= usize::MAX,
    ensures
        forall|i: int|
            0 <= i < frame_messages(cur, nxt, k, h, w).len() ==> match #[trigger] frame_messages(cur, nxt, k, h, w)[i] {
                ICN2037Message::SetPixel((mx, my, _)) => (mx as int) < w && (my as int) < h && cur[mx as int][my as int]
                    != nxt[mx as int][my as int],
                _ => false,
            },
    decreases w,
{
    if w > 0 {
        lemma_draw_skips_unchanged(cur, nxt, k, w - 1, h);
        lemma_column_messages_changed(cur, nxt, k, w - 1, h);
        let a = frame_messages(cur, nxt, k, h, w - 1);
        let b = column_messages(cur, nxt, k, w - 1, h);
        assert forall|i: int| 0 <= i < (a + b).len() implies match #[trigger] (a + b)[i] {
            ICN2037Message::SetPixel((mx, my, _)) => (mx as int) < w && (my as int) < h && cur[mx as int][my as int]
                != nxt[mx as int][my as int],
            _ => false,
        } by {
            if i < a.len() {
                assert((a + b)[i] == a[i]);
            } else {
                assert((a + b)[i] == b[i - a.len()]);
            }
        }
    }
}

} // verus!
