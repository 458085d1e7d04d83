//! The grid: a rectangular array of cells addressed by `(x, y)` with
//! `x` in `[0, width)` and `y` in `[0, height)`; increasing `y` is "up".
//! At construction every cell on the outer boundary is a wall, and the tick
//! engine never removes that border. The grid also records every mutated
//! coordinate in an append-only dirty list, drained by the renderer.

use vstd::prelude::*;
use vstd::pervasive::VecAdditionalExecFns;
use crate::tile::{Tile, TileType, spec_from_type};

verus! {

/// The mathematical model of a board: columns of cells (`tiles[x][y]`)
/// plus the append-only list of mutated coordinates.
pub ghost struct BoardModel {
    pub tiles: Seq<Seq<Tile>>,
    pub dirty: Seq<(usize, usize)>,
}

/// Number of columns: the extent of the `x` axis.
pub open spec fn width_of(m: BoardModel) -> int {
    m.tiles.len() as int
}

/// Number of cells in a column: the extent of the `y` axis.
pub open spec fn height_of(m: BoardModel) -> int {
    m.tiles[0].len() as int
}

/// A model is well formed when it has at least one column, all columns have
/// the same length, and both extents fit the machine's address space, as
/// they do for any grid actually held in memory.
pub open spec fn model_wf(m: BoardModel) -> bool {
    &&& m.tiles.len() > 0
    &&& m.tiles.len() <= usize::MAX
    &&& m.tiles[0].len() <= usize::MAX
    &&& forall|x: int|
        0 <= x < m.tiles.len() ==> (#[trigger] m.tiles[x]).len() == m.tiles[0].len()
}

/// Whether `(x, y)` addresses a cell of the grid.
pub open spec fn in_bounds_of(m: BoardModel, x: int, y: int) -> bool {
    0 <= x < width_of(m) && 0 <= y < height_of(m)
}

/// The cell at `(x, y)`.
pub open spec fn tile_at(m: BoardModel, x: int, y: int) -> Tile {
    m.tiles[x][y]
}

/// The model after overwriting the cell at `(x, y)` and recording the
/// coordinate as dirty.
pub open spec fn spec_set(m: BoardModel, x: usize, y: usize, tile: Tile) -> BoardModel {
    BoardModel {
        tiles: m.tiles.update(x as int, m.tiles[x as int].update(y as int, tile)),
        dirty: m.dirty.push((x, y)),
    }
}

/// The model after exchanging the cells at the two coordinates: two
/// overwrites, so both coordinates are recorded dirty in this order.
pub open spec fn spec_swap(m: BoardModel, x1: usize, y1: usize, x2: usize, y2: usize) -> BoardModel {
    spec_set(spec_set(m, x1, y1, tile_at(m, x2 as int, y2 as int)), x2, y2, tile_at(m, x1 as int, y1 as int))
}

/// Whether `(x, y)` lies on the outer boundary of a grid with the given extents.
pub open spec fn is_border(w: int, h: int, x: int, y: int) -> bool {
    x == 0 || x == w - 1 || y == 0 || y == h - 1
}

/// Every boundary cell is a canonical wall.
pub open spec fn border_walls(m: BoardModel) -> bool {
    forall|x: int, y: int|
        in_bounds_of(m, x, y) && is_border(width_of(m), height_of(m), x, y)
            ==> #[trigger] tile_at(m, x, y) == spec_from_type(TileType::Wall)
}

/// The dirty coordinates recorded while walling the border of a fresh
/// `height` by `width` grid: rows below `y` in full, then row `y` up to
/// column `x`, scanned row by row from the bottom, each row left to right,
/// keeping the coordinates that lie on the boundary.
pub open spec fn border_coords_upto(h: int, w: int, y: int, x: int) -> Seq<(usize, usize)>
    decreases y, x,
{
    if x > 0 {
        border_coords_upto(h, w, y, x - 1) + if is_border(w, h, x - 1, y) {
            seq![((x - 1) as usize, y as usize)]
        } else {
            Seq::empty()
        }
    } else if y > 0 {
        border_coords_upto(h, w, y - 1, w)
    } else {
        Seq::empty()
    }
}

/// One offset of a brush stroke centered at `(x, y)`: the cell at
/// `(x + dx, y + dy)` is overwritten when the offset is not the center,
/// lies within the squared-distance disk `dx*dx + dy*dy <= r*r`, and lands
/// inside the grid; otherwise nothing changes.
pub open spec fn spec_region_touch(m: BoardModel, x: int, y: int, t: Tile, r: int, dx: int, dy: int) -> BoardModel {
    let i = x + dx;
    let j = y + dy;
    if (dx != 0 || dy != 0) && dx * dx + dy * dy <= r * r && in_bounds_of(m, i, j) {
        spec_set(m, i as usize, j as usize, t)
    } else {
        m
    }
}

/// The brush offsets of one column of the stroke: `dy` from `-r` up to
/// `-r + k` (exclusive), in order, at fixed `dx`.
pub open spec fn spec_region_col(m: BoardModel, x: int, y: int, t: Tile, r: int, dx: int, k: int) -> BoardModel
    decreases k,
{
    if k <= 0 {
        m
    } else {
        spec_region_touch(spec_region_col(m, x, y, t, r, dx, k - 1), x, y, t, r, dx, -r + (k - 1))
    }
}

/// The first `n` columns of a brush stroke: `dx` from `-r` up to `-r + n`
/// (exclusive), each column in full.
pub open spec fn spec_region_cols(m: BoardModel, x: int, y: int, t: Tile, r: int, n: int) -> BoardModel
    decreases n,
{
    if n <= 0 {
        m
    } else {
        spec_region_col(spec_region_cols(m, x, y, t, r, n - 1), x, y, t, r, -r + (n - 1), 2 * r + 1)
    }
}

/// A whole brush stroke: the center first (when it is in bounds), then every
/// other offset of the `(2r+1)` by `(2r+1)` square in scan order, filtered by
/// the squared-distance disk test and by the grid bounds.
pub open spec fn spec_set_region(m: BoardModel, x: usize, y: usize, t: Tile, r: int) -> BoardModel {
    let m1 = if in_bounds_of(m, x as int, y as int) {
        spec_set(m, x, y, t)
    } else {
        m
    };
    spec_region_cols(m1, x as int, y as int, t, r, 2 * r + 1)
}

/// How one overwrite changes the model: the named cell is replaced, every
/// other cell is untouched, the dimensions stay, and the coordinate is
/// appended to the dirty list.
pub proof fn lemma_spec_set(m: BoardModel, x: usize, y: usize, t: Tile)
    requires
        model_wf(m),
        in_bounds_of(m, x as int, y as int),
    ensures
        model_wf(spec_set(m, x, y, t)),
        width_of(spec_set(m, x, y, t)) == width_of(m),
        height_of(spec_set(m, x, y, t)) == height_of(m),
        tile_at(spec_set(m, x, y, t), x as int, y as int) == t,
        forall|i: int, j: int|
            in_bounds_of(m, i, j) && (i != x || j != y)
                ==> #[trigger] tile_at(spec_set(m, x, y, t), i, j) == tile_at(m, i, j),
        spec_set(m, x, y, t).dirty == m.dirty.push((x, y)),
{
}

/// Whether `(i, j)` is one of the cells the first `k` offsets of a stroke
/// column at `dx` overwrite: the right column, an already-processed `dy`,
/// not the center, and inside the disk.
pub open spec fn region_col_hits(x: int, y: int, r: int, dx: int, k: int, i: int, j: int) -> bool {
    &&& i == x + dx
    &&& -r <= j - y < -r + k
    &&& (dx != 0 || j != y)
    &&& dx * dx + (j - y) * (j - y) <= r * r
}

/// Whether `(i, j)` is one of the cells the first `n` full columns of a
/// stroke overwrite.
pub open spec fn region_hits(x: int, y: int, r: int, n: int, i: int, j: int) -> bool {
    &&& -r <= i - x < -r + n
    &&& -r <= j - y <= r
    &&& (i != x || j != y)
    &&& (i - x) * (i - x) + (j - y) * (j - y) <= r * r
}

/// What one stroke column does to the cells: exactly its in-bounds hits are
/// overwritten, everything else is untouched.
pub proof fn lemma_region_col_shape(m: BoardModel, x: int, y: int, t: Tile, r: int, dx: int, k: int)
    requires
        model_wf(m),
    ensures
        model_wf(spec_region_col(m, x, y, t, r, dx, k)),
        width_of(spec_region_col(m, x, y, t, r, dx, k)) == width_of(m),
        height_of(spec_region_col(m, x, y, t, r, dx, k)) == height_of(m),
        forall|i: int, j: int|
            in_bounds_of(m, i, j) ==> #[trigger] tile_at(spec_region_col(m, x, y, t, r, dx, k), i, j)
                == if region_col_hits(x, y, r, dx, k, i, j) {
                    t
                } else {
                    tile_at(m, i, j)
                },
    decreases k,
{
    if k <= 0 {
    } else {
        lemma_region_col_shape(m, x, y, t, r, dx, k - 1);
        let prev = spec_region_col(m, x, y, t, r, dx, k - 1);
        let res = spec_region_col(m, x, y, t, r, dx, k);
        let dy = -r + (k - 1);
        let ti = x + dx;
        let tj = y + dy;
        if (dx != 0 || dy != 0) && dx * dx + dy * dy <= r * r && in_bounds_of(prev, ti, tj) {
            lemma_spec_set(prev, ti as usize, tj as usize, t);
        }
        assert forall|i: int, j: int| in_bounds_of(m, i, j)
            implies #[trigger] tile_at(res, i, j) == if region_col_hits(x, y, r, dx, k, i, j) {
                t
            } else {
                tile_at(m, i, j)
            } by {
            if i == ti && j == tj {
            } else {
                assert(tile_at(res, i, j) == tile_at(prev, i, j));
            }
        }
    }
}

/// What the first `n` stroke columns do to the cells: exactly their
/// in-bounds hits are overwritten, everything else is untouched.
pub proof fn lemma_region_cols_shape(m: BoardModel, x: int, y: int, t: Tile, r: int, n: int)
    requires
        model_wf(m),
        n <= 2 * r + 1,
    ensures
        model_wf(spec_region_cols(m, x, y, t, r, n)),
        width_of(spec_region_cols(m, x, y, t, r, n)) == width_of(m),
        height_of(spec_region_cols(m, x, y, t, r, n)) == height_of(m),
        forall|i: int, j: int|
            in_bounds_of(m, i, j) ==> #[trigger] tile_at(spec_region_cols(m, x, y, t, r, n), i, j)
                == if region_hits(x, y, r, n, i, j) {
                    t
                } else {
                    tile_at(m, i, j)
                },
    decreases n,
{
    if n <= 0 {
    } else {
        lemma_region_cols_shape(m, x, y, t, r, n - 1);
        let prev = spec_region_cols(m, x, y, t, r, n - 1);
        let res = spec_region_cols(m, x, y, t, r, n);
        let dx = -r + (n - 1);
        lemma_region_col_shape(prev, x, y, t, r, dx, 2 * r + 1);
        assert forall|i: int, j: int| in_bounds_of(m, i, j)
            implies #[trigger] tile_at(res, i, j) == if region_hits(x, y, r, n, i, j) {
                t
            } else {
                tile_at(m, i, j)
            } by {
            assert(tile_at(res, i, j) == if region_col_hits(x, y, r, dx, 2 * r + 1, i, j) {
                t
            } else {
                tile_at(prev, i, j)
            });
        }
    }
}

/// The shape of a brush stroke: a stroke at `(x, y)` with radius `r`
/// overwrites exactly the in-bounds cells whose squared Euclidean distance
/// from the center is at most `r * r` — the center included — and touches
/// no other cell.
pub proof fn lemma_region_shape(m: BoardModel, x: usize, y: usize, t: Tile, r: int)
    requires
        model_wf(m),
        0 <= r,
    ensures
        model_wf(spec_set_region(m, x, y, t, r)),
        width_of(spec_set_region(m, x, y, t, r)) == width_of(m),
        height_of(spec_set_region(m, x, y, t, r)) == height_of(m),
        forall|i: int, j: int|
            in_bounds_of(m, i, j) ==> #[trigger] tile_at(spec_set_region(m, x, y, t, r), i, j)
                == if (i - x) * (i - x) + (j - y) * (j - y) <= r * r {
                    t
                } else {
                    tile_at(m, i, j)
                },
{
    let m1 = if in_bounds_of(m, x as int, y as int) {
        spec_set(m, x, y, t)
    } else {
        m
    };
    if in_bounds_of(m, x as int, y as int) {
        lemma_spec_set(m, x, y, t);
    }
    lemma_region_cols_shape(m1, x as int, y as int, t, r, 2 * r + 1);
    let res = spec_set_region(m, x, y, t, r);
    assert forall|i: int, j: int| in_bounds_of(m, i, j)
        implies #[trigger] tile_at(res, i, j) == if (i - x) * (i - x) + (j - y) * (j - y) <= r * r {
            t
        } else {
            tile_at(m, i, j)
        } by {
        let di = i - x as int;
        let dj = j - y as int;
        assert(0 <= di * di && 0 <= dj * dj) by (nonlinear_arith);
        if di * di + dj * dj <= r * r {
            assert(-r <= di <= r) by (nonlinear_arith)
                requires di * di <= r * r, 0 <= r;
            assert(-r <= dj <= r) by (nonlinear_arith)
                requires dj * dj <= r * r, 0 <= r;
        }
        if i == x && j == y {
            assert(di * di + dj * dj <= r * r) by (nonlinear_arith)
                requires di == 0, dj == 0, 0 <= r;
            assert(tile_at(res, i, j) == tile_at(m1, i, j));
        }
    }
}

/// A stroke column only appends to the dirty list.
pub proof fn lemma_region_col_dirty(m: BoardModel, x: int, y: int, t: Tile, r: int, dx: int, k: int)
    ensures
        spec_region_col(m, x, y, t, r, dx, k).dirty.len() >= m.dirty.len(),
        spec_region_col(m, x, y, t, r, dx, k).dirty.subrange(0, m.dirty.len() as int) == m.dirty,
    decreases k,
{
    if k <= 0 {
        assert(m.dirty.subrange(0, m.dirty.len() as int) =~= m.dirty);
    } else {
        lemma_region_col_dirty(m, x, y, t, r, dx, k - 1);
        let prev = spec_region_col(m, x, y, t, r, dx, k - 1);
        let res = spec_region_col(m, x, y, t, r, dx, k);
        assert(res.dirty.subrange(0, m.dirty.len() as int) =~= prev.dirty.subrange(0, m.dirty.len() as int));
    }
}

/// A whole stroke only appends to the dirty list, and records the center
/// first when it is in bounds.
pub proof fn lemma_region_dirty(m: BoardModel, x: int, y: int, t: Tile, r: int, n: int)
    ensures
        spec_region_cols(m, x, y, t, r, n).dirty.len() >= m.dirty.len(),
        spec_region_cols(m, x, y, t, r, n).dirty.subrange(0, m.dirty.len() as int) == m.dirty,
    decreases n,
{
    if n <= 0 {
        assert(m.dirty.subrange(0, m.dirty.len() as int) =~= m.dirty);
    } else {
        lemma_region_dirty(m, x, y, t, r, n - 1);
        let prev = spec_region_cols(m, x, y, t, r, n - 1);
        let res = spec_region_cols(m, x, y, t, r, n);
        lemma_region_col_dirty(prev, x as int, y as int, t, r, -r + (n - 1), 2 * r + 1);
        assert(res.dirty.subrange(0, m.dirty.len() as int)
            =~= prev.dirty.subrange(0, m.dirty.len() as int));
    }
}

/// One grid mutation, as the dirty-list law ranges over them: a single-cell
/// overwrite, an exchange of two cells, or a brush stroke.
pub enum Edit {
    Put(usize, usize, Tile),
    Exchange(usize, usize, usize, usize),
    Stroke(usize, usize, Tile, int),
}

/// Whether an edit's coordinates are legal for a grid of these extents:
/// exchanges and stroke centers must be in bounds, and strokes have a
/// non-negative radius.
pub open spec fn edit_ok(m: BoardModel, e: Edit) -> bool {
    match e {
        Edit::Put(x, y, _) => in_bounds_of(m, x as int, y as int),
        Edit::Exchange(x1, y1, x2, y2) => in_bounds_of(m, x1 as int, y1 as int)
            && in_bounds_of(m, x2 as int, y2 as int),
        Edit::Stroke(x, y, _, r) => in_bounds_of(m, x as int, y as int) && 0 <= r,
    }
}

/// The coordinates a caller passes with an edit, in argument order.
pub open spec fn edit_coords(e: Edit) -> Seq<(usize, usize)> {
    match e {
        Edit::Put(x, y, _) => seq![(x, y)],
        Edit::Exchange(x1, y1, x2, y2) => seq![(x1, y1), (x2, y2)],
        Edit::Stroke(x, y, _, _) => seq![(x, y)],
    }
}

/// What one edit does to the model, exactly as the mutation operations do.
pub open spec fn apply_edit(m: BoardModel, e: Edit) -> BoardModel {
    match e {
        Edit::Put(x, y, t) => if in_bounds_of(m, x as int, y as int) {
            spec_set(m, x, y, t)
        } else {
            m
        },
        Edit::Exchange(x1, y1, x2, y2) => spec_swap(m, x1, y1, x2, y2),
        Edit::Stroke(x, y, t, r) => spec_set_region(m, x, y, t, r),
    }
}

/// A sequence of edits applied in order.
pub open spec fn apply_edits(m: BoardModel, es: Seq<Edit>) -> BoardModel
    decreases es.len(),
{
    if es.len() == 0 {
        m
    } else {
        apply_edit(apply_edits(m, es.drop_last()), es.last())
    }
}

/// One edit only appends to the dirty list, and the appended part holds
/// every coordinate the caller passed, in argument order.
pub proof fn lemma_edit_dirty(m: BoardModel, e: Edit)
    requires
        edit_ok(m, e),
    ensures
        apply_edit(m, e).dirty.len() >= m.dirty.len(),
        apply_edit(m, e).dirty.subrange(0, m.dirty.len() as int) == m.dirty,
        forall|q: int| 0 <= q < edit_coords(e).len()
            ==> #[trigger] apply_edit(m, e).dirty.subrange(m.dirty.len() as int, apply_edit(m, e).dirty.len() as int)
                .contains(edit_coords(e)[q]),
{
    let res = apply_edit(m, e);
    let lo = m.dirty.len() as int;
    match e {
        Edit::Put(x, y, _) => {
            assert(res.dirty.subrange(0, lo) =~= m.dirty);
            assert(res.dirty.subrange(lo, res.dirty.len() as int)[0] == (x, y));
        },
        Edit::Exchange(x1, y1, x2, y2) => {
            assert(res.dirty.subrange(0, lo) =~= m.dirty);
            assert(res.dirty.subrange(lo, res.dirty.len() as int)[0] == (x1, y1));
            assert(res.dirty.subrange(lo, res.dirty.len() as int)[1] == (x2, y2));
        },
        Edit::Stroke(x, y, t, r) => {
            let m1 = spec_set(m, x, y, t);
            lemma_region_dirty(m1, x as int, y as int, t, r, 2 * r + 1);
            assert(res.dirty.subrange(0, lo) =~= m.dirty);
            assert(res.dirty.subrange(lo, res.dirty.len() as int)[0] == (x, y)) by {
                assert(res.dirty.subrange(0, m1.dirty.len() as int) == m1.dirty);
                assert(m1.dirty[lo] == (x, y));
            }
        },
    }
}

/// Dirty-list completeness: after any sequence of legal edits, the dirty
/// list still starts with everything it already held, and holds every
/// coordinate passed to every edit at least once — the coordinates of the
/// `k`-th edit inside the `k`-th edit's own stretch of the list, so the
/// passed coordinates appear in call order.
pub proof fn lemma_dirty_completeness(m: BoardModel, es: Seq<Edit>)
    requires
        model_wf(m),
        forall|k: int| 0 <= k < es.len() ==> edit_ok(m, #[trigger] es[k]),
    ensures
        model_wf(apply_edits(m, es)),
        width_of(apply_edits(m, es)) == width_of(m),
        height_of(apply_edits(m, es)) == height_of(m),
        apply_edits(m, es).dirty.len() >= m.dirty.len(),
        apply_edits(m, es).dirty.subrange(0, m.dirty.len() as int) == m.dirty,
        forall|k: int| #![trigger es[k]] 0 <= k < es.len() ==> {
            let lo = apply_edits(m, es.take(k)).dirty.len() as int;
            let hi = apply_edits(m, es.take(k + 1)).dirty.len() as int;
            let all = apply_edits(m, es).dirty;
            &&& m.dirty.len() <= lo <= hi <= all.len()
            &&& forall|q: int| 0 <= q < edit_coords(es[k]).len()
                ==> #[trigger] all.subrange(lo, hi).contains(edit_coords(es[k])[q])
        },
    decreases es.len(),
{
    if es.len() == 0 {
        assert(m.dirty.subrange(0, m.dirty.len() as int) =~= m.dirty);
    } else {
        let front = es.drop_last();
        let e = es.last();
        assert(forall|k: int| 0 <= k < front.len() ==> edit_ok(m, #[trigger] front[k]));
        lemma_dirty_completeness(m, front);
        let mid = apply_edits(m, front);
        assert(edit_ok(mid, e)) by {
            assert(es[es.len() - 1] == e);
        }
        lemma_edit_dirty(mid, e);
        let res = apply_edits(m, es);
        assert(res == apply_edit(mid, e));
        lemma_edit_model(mid, e);
        assert(res.dirty.subrange(0, m.dirty.len() as int)
            =~= mid.dirty.subrange(0, m.dirty.len() as int));
        assert(es.take(es.len() as int) =~= es);
        assert(es.take(es.len() - 1) =~= front);
        assert forall|k: int| #![trigger es[k]] 0 <= k < es.len() implies {
            let lo = apply_edits(m, es.take(k)).dirty.len() as int;
            let hi = apply_edits(m, es.take(k + 1)).dirty.len() as int;
            let all = res.dirty;
            &&& m.dirty.len() <= lo <= hi <= all.len()
            &&& forall|q: int| 0 <= q < edit_coords(es[k]).len()
                ==> #[trigger] all.subrange(lo, hi).contains(edit_coords(es[k])[q])
        } by {
            if k == es.len() - 1 {
                assert(es.take(k) =~= front);
                assert(es.take(k + 1) =~= es);
            } else {
                assert(es.take(k) =~= front.take(k));
                assert(es.take(k + 1) =~= front.take(k + 1));
                let lo = apply_edits(m, es.take(k)).dirty.len() as int;
                let hi = apply_edits(m, es.take(k + 1)).dirty.len() as int;
                assert(hi <= mid.dirty.len());
                assert(res.dirty.subrange(0, mid.dirty.len() as int) == mid.dirty);
                assert(res.dirty.subrange(lo, hi) =~= mid.dirty.subrange(lo, hi));
            }
        }
    }
}

/// One legal edit keeps the model well formed and keeps its extents.
pub proof fn lemma_edit_model(m: BoardModel, e: Edit)
    requires
        model_wf(m),
        edit_ok(m, e),
    ensures
        model_wf(apply_edit(m, e)),
        width_of(apply_edit(m, e)) == width_of(m),
        height_of(apply_edit(m, e)) == height_of(m),
{
    match e {
        Edit::Put(x, y, t) => {
            lemma_spec_set(m, x, y, t);
        },
        Edit::Exchange(x1, y1, x2, y2) => {
            lemma_spec_set(m, x1, y1, tile_at(m, x2 as int, y2 as int));
            lemma_spec_set(spec_set(m, x1, y1, tile_at(m, x2 as int, y2 as int)), x2, y2, tile_at(m, x1 as int, y1 as int));
        },
        Edit::Stroke(x, y, t, r) => {
            lemma_region_shape(m, x, y, t, r);
        },
    }
}

/// The one recoverable grid error: a coordinate outside the grid extents.
#[derive(Clone, Copy, Debug, PartialEq, Eq, Structural)]
pub struct OutOfBounds;

/// A rectangular grid of cells with a dirty list of mutated coordinates.
pub struct Board {
    tiles: Vec<Vec<Tile>>,
    dirty_tiles: Vec<(usize, usize)>,
}

impl View for Board {
    type V = BoardModel;

    closed spec fn view(&self) -> BoardModel {
        BoardModel {
            tiles: self.tiles@.map_values(|col: Vec<Tile>| col@),
            dirty: self.dirty_tiles@,
        }
    }
}

impl Board {
    /// The board's columns all exist and have equal length.
    pub open spec fn wf(&self) -> bool {
        model_wf(self@)
    }

    /// Builds a `height` by `width` grid whose boundary cells are walls and
    /// whose interior cells are empty. The border cells are recorded dirty
    /// row by row from the bottom, each row left to right.
    pub fn new(height: usize, width: usize) -> (r: Board)
        requires
            1 <= height,
            1 <= width,
        ensures
            r.wf(),
            width_of(r@) == width,
            height_of(r@) == height,
            forall|i: int, j: int|
                in_bounds_of(r@, i, j) ==> #[trigger] tile_at(r@, i, j)
                    == if is_border(width as int, height as int, i, j) {
                        spec_from_type(TileType::Wall)
                    } else {
                        spec_from_type(TileType::Empty)
                    },
            r@.dirty == border_coords_upto(height as int, width as int, height as int, 0),
    {
        let empty = Tile::from_type(TileType::Empty);
        let wall = Tile::from_type(TileType::Wall);
        let mut tiles: Vec<Vec<Tile>> = Vec::new();
        let mut x: usize = 0;
        while x < width
            invariant
                x <= width,
                tiles@.len() == x,
                forall|i: int| 0 <= i < x ==> (#[trigger] tiles@[i])@.len() == height,
                forall|i: int, j: int|
                    0 <= i < x && 0 <= j < height ==> (#[trigger] tiles@[i]@[j]) == empty,
                empty == spec_from_type(TileType::Empty),
            decreases width - x,
        {
            let mut col: Vec<Tile> = Vec::new();
            let mut yy: usize = 0;
            while yy < height
                invariant
                    yy <= height,
                    col@.len() == yy,
                    forall|j: int| 0 <= j < yy ==> (#[trigger] col@[j]) == empty,
                decreases height - yy,
            {
                col.push(empty);
                yy += 1;
            }
            tiles.push(col);
            x += 1;
        }
        let mut board = Board { tiles, dirty_tiles: Vec::new() };
        proof {
            assert(board@.dirty =~= border_coords_upto(height as int, width as int, 0, 0));
            assert forall|i: int, j: int| in_bounds_of(board@, i, j)
                implies #[trigger] tile_at(board@, i, j) == spec_from_type(TileType::Empty) by {
                assert(board@.tiles[i] == board.tiles@[i]@);
            }
        }
        let ghost h = height as int;
        let ghost w = width as int;
        let mut y: usize = 0;
        while y < height
            invariant
                h == height as int,
                w == width as int,
                y <= height,
                board.wf(),
                width_of(board@) == width,
                height_of(board@) == height,
                wall == spec_from_type(TileType::Wall),
                forall|i: int, j: int|
                    in_bounds_of(board@, i, j) ==> #[trigger] tile_at(board@, i, j)
                        == if is_border(w, h, i, j) && j < y {
                            spec_from_type(TileType::Wall)
                        } else {
                            spec_from_type(TileType::Empty)
                        },
                board@.dirty == border_coords_upto(h, w, y as int, 0),
            decreases height - y,
        {
            let mut xx: usize = 0;
            while xx < width
                invariant
                    h == height as int,
                    w == width as int,
                    xx <= width,
                    y < height,
                    board.wf(),
                    width_of(board@) == width,
                    height_of(board@) == height,
                    wall == spec_from_type(TileType::Wall),
                    forall|i: int, j: int|
                        in_bounds_of(board@, i, j) ==> #[trigger] tile_at(board@, i, j)
                            == if is_border(w, h, i, j) && (j < y || (j == y && i < xx)) {
                                spec_from_type(TileType::Wall)
                            } else {
                                spec_from_type(TileType::Empty)
                            },
                    board@.dirty == border_coords_upto(h, w, y as int, xx as int),
                decreases width - xx,
            {
                let ghost pre = board@;
                if y == 0 || y == height - 1 || xx == 0 || xx == width - 1 {
                    let _ = board.set(xx, y, wall);
                }
                proof {
                    assert(board@.dirty =~= border_coords_upto(h, w, y as int, xx as int + 1));
                    assert forall|i: int, j: int| in_bounds_of(board@, i, j)
                        implies #[trigger] tile_at(board@, i, j)
                            == if is_border(w, h, i, j) && (j < y || (j == y && i < xx + 1)) {
                                spec_from_type(TileType::Wall)
                            } else {
                                spec_from_type(TileType::Empty)
                            } by {
                        if i == xx && j == y {
                        } else {
                            assert(tile_at(board@, i, j) == tile_at(pre, i, j));
                        }
                    }
                }
                xx += 1;
            }
            proof {
                assert(board@.dirty =~= border_coords_upto(h, w, y as int + 1, 0));
            }
            y += 1;
        }
        board
    }

    /// Number of columns.
    pub fn width(&self) -> (r: usize)
        requires
            self.wf(),
        ensures
            r == width_of(self@),
    {
        self.tiles.len()
    }

    /// Number of cells in a column.
    pub fn height(&self) -> (r: usize)
        requires
            self.wf(),
        ensures
            r == height_of(self@),
    {
        self.tiles[0].len()
    }

    /// Whether `(x, y)` addresses a cell.
    fn is_in_bounds(&self, x: usize, y: usize) -> (r: bool)
        requires
            self.wf(),
        ensures
            r == in_bounds_of(self@, x as int, y as int),
    {
        x < self.tiles.len() && y < self.tiles[0].len()
    }

    /// Reads the cell at `(x, y)`; absent exactly when the coordinate is
    /// outside the grid.
    pub fn get(&self, x: usize, y: usize) -> (r: Option<Tile>)
        requires
            self.wf(),
        ensures
            r == if in_bounds_of(self@, x as int, y as int) {
                Some(tile_at(self@, x as int, y as int))
            } else {
                None::<Tile>
            },
    {
        if self.is_in_bounds(x, y) {
            Some(self.tiles[x][y])
        } else {
            None
        }
    }

    /// Overwrites the cell at `(x, y)` and records the coordinate dirty;
    /// rejects an out-of-range coordinate and leaves the board unchanged.
    pub fn set(&mut self, x: usize, y: usize, tile: Tile) -> (r: Result<(), OutOfBounds>)
        requires
            old(self).wf(),
        ensures
            final(self).wf(),
            in_bounds_of(old(self)@, x as int, y as int) ==> r == Ok::<(), OutOfBounds>(())
                && final(self)@ == spec_set(old(self)@, x, y, tile),
            !in_bounds_of(old(self)@, x as int, y as int) ==> r == Err::<(), OutOfBounds>(OutOfBounds)
                && final(self)@ == old(self)@,
    {
        if self.is_in_bounds(x, y) {
            proof {
                assert(self@.tiles[x as int] == self.tiles@[x as int]@);
                assert(self@.tiles[x as int].len() == self@.tiles[0].len());
            }
            let col = &mut self.tiles[x];
            col.set(y, tile);
            self.dirty_tiles.push((x, y));
            assert(self@.tiles =~= spec_set(old(self)@, x, y, tile).tiles);
            Ok(())
        } else {
            Err(OutOfBounds)
        }
    }

    /// Exchanges the cells at two coordinates, recording both dirty.
    /// Calling it with an out-of-range coordinate is a caller bug, ruled
    /// out by the precondition.
    pub fn swap(&mut self, x1: usize, y1: usize, x2: usize, y2: usize)
        requires
            old(self).wf(),
            in_bounds_of(old(self)@, x1 as int, y1 as int),
            in_bounds_of(old(self)@, x2 as int, y2 as int),
        ensures
            final(self).wf(),
            final(self)@ == spec_swap(old(self)@, x1, y1, x2, y2),
    {
        let temp = self.get(x1, y1).unwrap();
        let other = self.get(x2, y2).unwrap();
        let _ = self.set(x1, y1, other);
        let _ = self.set(x2, y2, temp);
    }

    /// Paints a brush stroke: overwrites the center cell, then every cell
    /// whose squared Euclidean distance from the center is at most
    /// `radius * radius`, in scan order; cells outside the grid are skipped.
    /// Reports an out-of-range center, having still painted the in-bounds
    /// part of the disk.
    pub fn set_radius(&mut self, x: usize, y: usize, tile: Tile, radius: isize) -> (r: Result<(), OutOfBounds>)
        requires
            old(self).wf(),
        ensures
            final(self).wf(),
            width_of(final(self)@) == width_of(old(self)@),
            height_of(final(self)@) == height_of(old(self)@),
            final(self)@ == spec_set_region(old(self)@, x, y, tile, radius as int),
            r == if in_bounds_of(old(self)@, x as int, y as int) {
                Ok::<(), OutOfBounds>(())
            } else {
                Err::<(), OutOfBounds>(OutOfBounds)
            },
    {
        let ghost w0 = width_of(old(self)@);
        let ghost h0 = height_of(old(self)@);
        let center_result = self.set(x, y, tile);
        let ghost m1 = self@;
        let ghost rr_int = radius as int;
        if radius < 0 {
            return center_result;
        }
        let count: usize = 2 * (radius as usize) + 1;
        let mut k: usize = 0;
        while k < count
            invariant
                self.wf(),
                width_of(self@) == w0,
                height_of(self@) == h0,
                rr_int == radius as int,
                radius >= 0,
                count == 2 * rr_int + 1,
                k <= count,
                self@ == spec_region_cols(m1, x as int, y as int, tile, rr_int, k as int),
            decreases count - k,
        {
            let ghost col_base = self@;
            let ghost dx_int = -rr_int + k as int;
            let mut l: usize = 0;
            while l < count
                invariant
                    self.wf(),
                    width_of(self@) == w0,
                    height_of(self@) == h0,
                    rr_int == radius as int,
                    radius >= 0,
                    count == 2 * rr_int + 1,
                    k < count,
                    l <= count,
                    dx_int == -rr_int + k as int,
                    col_base == spec_region_cols(m1, x as int, y as int, tile, rr_int, k as int),
                    self@ == spec_region_col(col_base, x as int, y as int, tile, rr_int, dx_int, l as int),
                decreases count - l,
            {
                let ghost pre = self@;
                let ghost dy_int = -rr_int + l as int;
                let dxv: i128 = k as i128 - radius as i128;
                let dyv: i128 = l as i128 - radius as i128;
                proof {
                    assert(dxv == dx_int && dyv == dy_int);
                    assert(dxv * dxv <= 0x7fff_ffff_ffff_ffff * 0x7fff_ffff_ffff_ffff)
                        by (nonlinear_arith)
                        requires -0x7fff_ffff_ffff_ffff <= dxv <= 0x7fff_ffff_ffff_ffff;
                    assert(dyv * dyv <= 0x7fff_ffff_ffff_ffff * 0x7fff_ffff_ffff_ffff)
                        by (nonlinear_arith)
                        requires -0x7fff_ffff_ffff_ffff <= dyv <= 0x7fff_ffff_ffff_ffff;
                    assert(0 <= dxv * dxv) by (nonlinear_arith);
                    assert(0 <= dyv * dyv) by (nonlinear_arith);
                }
                proof {
                    assert((radius as i128) * (radius as i128)
                        <= 0x7fff_ffff_ffff_ffff * 0x7fff_ffff_ffff_ffff && 0 <= (radius as i128) * (radius as i128))
                        by (nonlinear_arith)
                        requires 0 <= radius as i128 <= 0x7fff_ffff_ffff_ffff;
                }
                if !(dxv == 0 && dyv == 0) {
                    let dd: i128 = dxv * dxv + dyv * dyv;
                    let rsq: i128 = (radius as i128) * (radius as i128);
                    if dd <= rsq {
                        let xi: i128 = x as i128 + dxv;
                        let yj: i128 = y as i128 + dyv;
                        let wid: i128 = self.width() as i128;
                        let hei: i128 = self.height() as i128;
                        if 0 <= xi && xi < wid && 0 <= yj && yj < hei {
                            let _ = self.set(xi as usize, yj as usize, tile);
                        }
                    }
                }
                proof {
                    assert(self@ == spec_region_touch(pre, x as int, y as int, tile, rr_int, dx_int, dy_int));
                    assert(self@ == spec_region_col(col_base, x as int, y as int, tile, rr_int, dx_int, l as int + 1));
                }
                l += 1;
            }
            proof {
                assert(self@ == spec_region_cols(m1, x as int, y as int, tile, rr_int, k as int + 1));
            }
            k += 1;
        }
        center_result
    }

    /// Applies one brush input aimed at `(x, y)`: paints a stroke when the
    /// targeted cell is empty (or off the grid) or when `overwrite` is
    /// forced; otherwise leaves the cells alone and only re-marks the
    /// targeted coordinate dirty, so the renderer redraws it.
    pub fn apply_brush(&mut self, x: usize, y: usize, tile: Tile, radius: isize, overwrite: bool) -> (r: Result<(), OutOfBounds>)
        requires
            old(self).wf(),
        ensures
            final(self).wf(),
            ({
                let free = !in_bounds_of(old(self)@, x as int, y as int)
                    || tile_at(old(self)@, x as int, y as int).tile_type == TileType::Empty;
                if free || overwrite {
                    final(self)@ == spec_set_region(old(self)@, x, y, tile, radius as int)
                        && r == (if in_bounds_of(old(self)@, x as int, y as int) {
                            Ok::<(), OutOfBounds>(())
                        } else {
                            Err::<(), OutOfBounds>(OutOfBounds)
                        })
                } else {
                    final(self)@ == (BoardModel {
                        tiles: old(self)@.tiles,
                        dirty: old(self)@.dirty.push((x, y)),
                    }) && r == Ok::<(), OutOfBounds>(())
                }
            }),
    {
        let free = match self.get(x, y) {
            Some(t) => t.tile_type == TileType::Empty,
            None => true,
        };
        if free || overwrite {
            self.set_radius(x, y, tile, radius)
        } else {
            self.dirty_tiles.push((x, y));
            proof {
                assert(self@.tiles =~= old(self)@.tiles);
            }
            Ok(())
        }
    }

    /// Reads and clears the dirty list: the coordinates mutated since the
    /// last drain, in the order the mutations appended them.
    pub fn drain_dirty(&mut self) -> (r: Vec<(usize, usize)>)
        requires
            old(self).wf(),
        ensures
            final(self).wf(),
            r@ == old(self)@.dirty,
            final(self)@.dirty == Seq::<(usize, usize)>::empty(),
            final(self)@.tiles == old(self)@.tiles,
    {
        let mut out: Vec<(usize, usize)> = Vec::new();
        core::mem::swap(&mut self.dirty_tiles, &mut out);
        assert(self@.tiles =~= old(self)@.tiles);
        assert(self@.dirty =~= Seq::<(usize, usize)>::empty());
        out
    }
}

} // verus!
