//! The tick engine: one tick is one full scan of the grid in ascending-`x`
//! outer, ascending-`y` inner order, applying to each visited cell, in a
//! fixed priority order, the rules its behavior flags enable. The grid is a
//! single working copy mutated progressively during the scan, so a cell's
//! move is visible to cells visited later in the same tick; this same-tick
//! cascade is deliberate and is pinned down by the contracts below.

use vstd::prelude::*;
use crate::board::{
    Board, BoardModel, border_walls, height_of, in_bounds_of, is_border, lemma_spec_set, model_wf,
    spec_set, spec_swap, tile_at, width_of,
};
use crate::rng::{Prng, spec_coin, spec_next_state, spec_one_in};
use crate::tile::{Tile, TileType, spec_from_type};

verus! {

/// Saturating decrement of a coordinate: one step toward zero, clamped.
pub open spec fn sub_one(v: int) -> int {
    if v <= 0 {
        0
    } else {
        v - 1
    }
}

/// A swap stated over signed coordinates, for the rule definitions.
pub open spec fn spec_swap_at(m: BoardModel, x1: int, y1: int, x2: int, y2: int) -> BoardModel {
    spec_swap(m, x1 as usize, y1 as usize, x2 as usize, y2 as usize)
}

/// A set stated over signed coordinates, for the rule definitions.
pub open spec fn spec_set_at(m: BoardModel, x: int, y: int, t: Tile) -> BoardModel {
    spec_set(m, x as usize, y as usize, t)
}

/// The gravity rule at `(x, y)`: the cell swaps with the one below it when
/// the one below is a gas, or when the center is solid and the one below is
/// not. At the bottom row the clamped "below" is the cell itself, which
/// never meets the condition.
pub open spec fn spec_gravity(m: BoardModel, x: int, y: int) -> BoardModel {
    if height_of(m) <= y {
        m
    } else {
        let yb = sub_one(y);
        let center = tile_at(m, x, y);
        let below = tile_at(m, x, yb);
        if below.gas || (center.solid && !below.solid) {
            spec_swap_at(m, x, y, x, yb)
        } else {
            m
        }
    }
}

/// The liquid-flow rule at `(x, y)`: when the cell cannot fall (the cell
/// below is not a gas), it swaps with a horizontal gas neighbor — the coin
/// picks left (true) or right (false) when both sides are open. A read off
/// the grid's edge makes the rule a no-op.
pub open spec fn spec_flow(m: BoardModel, x: int, y: int, coin: bool) -> BoardModel {
    if height_of(m) <= y {
        m
    } else if !in_bounds_of(m, x, sub_one(y)) {
        m
    } else if !in_bounds_of(m, x + 1, y) {
        m
    } else if !in_bounds_of(m, sub_one(x), y) {
        m
    } else {
        let bottom = tile_at(m, x, sub_one(y));
        let right = tile_at(m, x + 1, y);
        let left = tile_at(m, sub_one(x), y);
        if !bottom.gas {
            if right.gas && left.gas {
                if coin {
                    spec_swap_at(m, x, y, sub_one(x), y)
                } else {
                    spec_swap_at(m, x, y, x + 1, y)
                }
            } else if right.gas {
                spec_swap_at(m, x, y, x + 1, y)
            } else if left.gas {
                spec_swap_at(m, x, y, sub_one(x), y)
            } else {
                m
            }
        } else {
            m
        }
    }
}

/// The granular piling rule at `(x, y)`: when the cell cannot fall straight
/// down, it settles diagonally — to a random side (coin true picks
/// bottom-left) when neither diagonal is solid, else toward a gas diagonal.
pub open spec fn spec_pile(m: BoardModel, x: int, y: int, coin: bool) -> BoardModel {
    if height_of(m) <= y {
        m
    } else {
        let yb = sub_one(y);
        let bottom = tile_at(m, x, yb);
        let bottom_left = tile_at(m, sub_one(x), yb);
        let bottom_right = tile_at(m, x + 1, yb);
        if bottom.gas {
            m
        } else if !bottom_left.solid && !bottom_right.solid {
            if coin {
                spec_swap_at(m, x, y, sub_one(x), yb)
            } else {
                spec_swap_at(m, x, y, x + 1, yb)
            }
        } else if bottom_left.gas {
            spec_swap_at(m, x, y, sub_one(x), yb)
        } else if bottom_right.gas {
            spec_swap_at(m, x, y, x + 1, yb)
        } else {
            m
        }
    }
}

/// The random decisions of one fire-spread step: for each of the four
/// orthogonal neighbors, whether the once-in-three ignition of a gas cell
/// fires, and whether the once-in-five ignition of a flammable cell fires.
#[derive(Clone, Copy, Debug)]
pub struct FireDraws {
    pub top_gas: bool,
    pub top_flam: bool,
    pub bottom_gas: bool,
    pub bottom_flam: bool,
    pub right_gas: bool,
    pub right_flam: bool,
    pub left_gas: bool,
    pub left_flam: bool,
}

/// What fire at a center cell does to one neighbor: a gas neighbor whose
/// draw fires becomes fire one step weaker than the center (a center without
/// a counter ignites a fresh flame); otherwise a flammable neighbor whose
/// draw fires becomes a fresh flame. A neighbor left or put at strength
/// exactly zero is extinguished to an empty cell. The second component
/// reports whether the neighbor was ignited.
pub open spec fn spec_burn_neighbor(center: Tile, t: Tile, gas_draw: bool, flam_draw: bool) -> (Tile, bool) {
    let step1 = if t.gas && gas_draw {
        (
            match center.strength {
                Some(s) => Tile { strength: Some(sub_one(s as int) as u8), ..spec_from_type(TileType::Fire) },
                None => spec_from_type(TileType::Fire),
            },
            true,
        )
    } else if t.flammable && flam_draw {
        (spec_from_type(TileType::Fire), true)
    } else {
        (t, false)
    };
    let burned = if step1.0.strength == Some(0u8) {
        spec_from_type(TileType::Empty)
    } else {
        step1.0
    };
    (burned, step1.1)
}

/// The fire-spread rule at `(x, y)`: each orthogonal neighbor is burned as
/// in `spec_burn_neighbor`, and if anything ignited, the center is consumed
/// to an empty cell. The center and all four neighbors are written back, in
/// that order, whether or not they changed. A read off the grid's edge makes
/// the rule a no-op.
pub open spec fn spec_fire_spread(m: BoardModel, x: int, y: int, d: FireDraws) -> BoardModel {
    if !(in_bounds_of(m, x, y) && in_bounds_of(m, x, y + 1) && in_bounds_of(m, x + 1, y)) {
        m
    } else {
        let center = tile_at(m, x, y);
        let top = spec_burn_neighbor(center, tile_at(m, x, y + 1), d.top_gas, d.top_flam);
        let bottom = spec_burn_neighbor(center, tile_at(m, x, sub_one(y)), d.bottom_gas, d.bottom_flam);
        let right = spec_burn_neighbor(center, tile_at(m, x + 1, y), d.right_gas, d.right_flam);
        let left = spec_burn_neighbor(center, tile_at(m, sub_one(x), y), d.left_gas, d.left_flam);
        let ignited = top.1 || bottom.1 || right.1 || left.1;
        let center2 = if ignited {
            spec_from_type(TileType::Empty)
        } else {
            center
        };
        let m1 = spec_set_at(m, x, y, center2);
        let m2 = spec_set_at(m1, x, y + 1, top.0);
        let m3 = spec_set_at(m2, x, sub_one(y), bottom.0);
        let m4 = spec_set_at(m3, x + 1, y, right.0);
        spec_set_at(m4, sub_one(x), y, left.0)
    }
}

/// The fire-decay rule at `(x, y)`: a cell with a positive burn counter
/// loses one; a cell with a counter at zero is extinguished to an empty
/// cell; a cell without a counter is untouched. The cell is written back
/// either way.
pub open spec fn spec_fire_strength(m: BoardModel, x: int, y: int) -> BoardModel {
    let t = tile_at(m, x, y);
    let t2 = match t.strength {
        Some(s) => if s > 0 {
            Tile { strength: Some((s - 1) as u8), ..t }
        } else {
            spec_from_type(TileType::Empty)
        },
        None => t,
    };
    spec_set_at(m, x, y, t2)
}

/// Whether acid eats a neighbor of this kind: everything but acid itself,
/// empty cells and walls.
pub open spec fn spec_corrodes(t: Tile) -> bool {
    t.tile_type != TileType::Acid && t.tile_type != TileType::Empty && t.tile_type != TileType::Wall
}

/// The corrosion rule at `(x, y)`: every corrodible orthogonal neighbor is
/// dissolved to an empty cell, and if any was, the center acid is consumed
/// too. The center is written back only if it corroded something; the four
/// neighbors are written back regardless, in top, bottom, right, left order.
pub open spec fn spec_acid(m: BoardModel, x: int, y: int) -> BoardModel {
    let top = tile_at(m, x, y + 1);
    let bottom = tile_at(m, x, sub_one(y));
    let right = tile_at(m, x + 1, y);
    let left = tile_at(m, sub_one(x), y);
    let empty = spec_from_type(TileType::Empty);
    let top2 = if spec_corrodes(top) { empty } else { top };
    let bottom2 = if spec_corrodes(bottom) { empty } else { bottom };
    let right2 = if spec_corrodes(right) { empty } else { right };
    let left2 = if spec_corrodes(left) { empty } else { left };
    let die = spec_corrodes(top) || spec_corrodes(bottom) || spec_corrodes(right) || spec_corrodes(left);
    let m1 = if die {
        spec_set_at(m, x, y, empty)
    } else {
        m
    };
    let m2 = spec_set_at(m1, x, y + 1, top2);
    let m3 = spec_set_at(m2, x, sub_one(y), bottom2);
    let m4 = spec_set_at(m3, x + 1, y, right2);
    spec_set_at(m4, sub_one(x), y, left2)
}

/// Applies the gravity rule at `(x, y)`.
pub fn gravity(board: &mut Board, x: usize, y: usize)
    requires
        old(board).wf(),
        x < width_of(old(board)@),
    ensures
        final(board).wf(),
        final(board)@ == spec_gravity(old(board)@, x as int, y as int),
{
    if board.height() <= y {
        return;
    }
    let yb = if y == 0 { 0 } else { y - 1 };
    let center = board.get(x, y).unwrap();
    let below = board.get(x, yb).unwrap();
    if below.gas || (center.solid && !below.solid) {
        board.swap(x, y, x, yb);
    }
}

/// Applies the liquid-flow rule at `(x, y)` with the given tie-break coin.
pub fn flow(board: &mut Board, x: usize, y: usize, coin: bool)
    requires
        old(board).wf(),
    ensures
        final(board).wf(),
        final(board)@ == spec_flow(old(board)@, x as int, y as int, coin),
{
    let _w = board.width();
    if board.height() <= y {
        return;
    }
    let yb = if y == 0 { 0 } else { y - 1 };
    let xl = if x == 0 { 0 } else { x - 1 };
    let bottom = match board.get(x, yb) {
        Some(t) => t,
        None => { return; },
    };
    let xr = x.saturating_add(1);
    let right = match board.get(xr, y) {
        Some(t) => t,
        None => { return; },
    };
    let left = match board.get(xl, y) {
        Some(t) => t,
        None => { return; },
    };
    if !bottom.gas {
        if right.gas && left.gas {
            if coin {
                board.swap(x, y, xl, y);
            } else {
                board.swap(x, y, xr, y);
            }
        } else if right.gas {
            board.swap(x, y, xr, y);
        } else if left.gas {
            board.swap(x, y, xl, y);
        }
    }
}

/// Applies the granular piling rule at `(x, y)` with the given tie-break coin.
pub fn pile(board: &mut Board, x: usize, y: usize, coin: bool)
    requires
        old(board).wf(),
        x + 1 < width_of(old(board)@),
    ensures
        final(board).wf(),
        final(board)@ == spec_pile(old(board)@, x as int, y as int, coin),
{
    let w = board.width();
    if board.height() <= y {
        return;
    }
    let yb = if y == 0 { 0 } else { y - 1 };
    let xl = if x == 0 { 0 } else { x - 1 };
    let xr = x + 1;
    let bottom = board.get(x, yb).unwrap();
    let bottom_left = board.get(xl, yb).unwrap();
    let bottom_right = board.get(xr, yb).unwrap();
    if bottom.gas {
        return;
    } else if !bottom_left.solid && !bottom_right.solid {
        if coin {
            board.swap(x, y, xl, yb);
        } else {
            board.swap(x, y, xr, yb);
        }
    } else if bottom_left.gas {
        board.swap(x, y, xl, yb);
    } else if bottom_right.gas {
        board.swap(x, y, xr, yb);
    }
}

/// Burns one neighbor of a fire cell, as `spec_burn_neighbor` says.
fn burn_neighbor(center: Tile, t: Tile, gas_draw: bool, flam_draw: bool) -> (r: (Tile, bool))
    ensures
        r == spec_burn_neighbor(center, t, gas_draw, flam_draw),
{
    let mut out = t;
    let mut ignited = false;
    if t.gas && gas_draw {
        let mut f = Tile::from_type(TileType::Fire);
        match center.strength {
            Some(s) => {
                f.strength = Some(if s == 0 { 0 } else { s - 1 });
            },
            None => {},
        }
        out = f;
        ignited = true;
    } else if t.flammable && flam_draw {
        out = Tile::from_type(TileType::Fire);
        ignited = true;
    }
    match out.strength {
        Some(s) => {
            if s == 0 {
                out = Tile::from_type(TileType::Empty);
            }
        },
        None => {},
    }
    (out, ignited)
}

/// Applies the fire-spread rule at `(x, y)` with the given ignition draws.
#[verifier::rlimit(60)]
pub fn fire_spread(board: &mut Board, x: usize, y: usize, d: FireDraws)
    requires
        old(board).wf(),
    ensures
        final(board).wf(),
        final(board)@ == spec_fire_spread(old(board)@, x as int, y as int, d),
{
    let _w = board.width();
    let _h = board.height();
    let center = match board.get(x, y) {
        Some(t) => t,
        None => { return; },
    };
    let yt = y.saturating_add(1);
    let top = match board.get(x, yt) {
        Some(t) => t,
        None => { return; },
    };
    let yb = if y == 0 { 0 } else { y - 1 };
    let bottom = board.get(x, yb).unwrap();
    let xr = x.saturating_add(1);
    let right = match board.get(xr, y) {
        Some(t) => t,
        None => { return; },
    };
    let xl = if x == 0 { 0 } else { x - 1 };
    let left = board.get(xl, y).unwrap();

    let (top2, ig_top) = burn_neighbor(center, top, d.top_gas, d.top_flam);
    let (bottom2, ig_bottom) = burn_neighbor(center, bottom, d.bottom_gas, d.bottom_flam);
    let (right2, ig_right) = burn_neighbor(center, right, d.right_gas, d.right_flam);
    let (left2, ig_left) = burn_neighbor(center, left, d.left_gas, d.left_flam);

    let center2 = if ig_top || ig_bottom || ig_right || ig_left {
        Tile::from_type(TileType::Empty)
    } else {
        center
    };
    let ghost m0 = board@;
    let ghost xi = x as int;
    let ghost yi = y as int;
    let ghost m1 = spec_set_at(m0, xi, yi, center2);
    let ghost m2 = spec_set_at(m1, xi, yi + 1, top2);
    let ghost m3 = spec_set_at(m2, xi, sub_one(yi), bottom2);
    let ghost m4 = spec_set_at(m3, xi + 1, yi, right2);
    let ghost m5 = spec_set_at(m4, sub_one(xi), yi, left2);
    proof {
        assert(m5 == spec_fire_spread(m0, xi, yi, d));
    }
    let _ = board.set(x, y, center2);
    proof {
        assert(board@ == m1);
    }
    let _ = board.set(x, yt, top2);
    proof {
        assert(board@ == m2);
    }
    let _ = board.set(x, yb, bottom2);
    proof {
        assert(board@ == m3);
    }
    let _ = board.set(xr, y, right2);
    proof {
        assert(board@ == m4);
    }
    let _ = board.set(xl, y, left2);
    proof {
        assert(board@ == m5);
    }
}

/// Applies the fire-decay rule at `(x, y)`.
pub fn fire_strength(board: &mut Board, x: usize, y: usize)
    requires
        old(board).wf(),
        in_bounds_of(old(board)@, x as int, y as int),
    ensures
        final(board).wf(),
        final(board)@ == spec_fire_strength(old(board)@, x as int, y as int),
{
    let mut t = board.get(x, y).unwrap();
    match t.strength {
        Some(s) => {
            if s > 0 {
                t.strength = Some(s - 1);
            } else {
                t = Tile::from_type(TileType::Empty);
            }
        },
        None => {},
    }
    let _ = board.set(x, y, t);
}

/// Applies the corrosion rule at `(x, y)`.
pub fn acid(board: &mut Board, x: usize, y: usize)
    requires
        old(board).wf(),
        x + 1 < width_of(old(board)@),
        y + 1 < height_of(old(board)@),
    ensures
        final(board).wf(),
        final(board)@ == spec_acid(old(board)@, x as int, y as int),
{
    let _w = board.width();
    let _h = board.height();
    let yt = y + 1;
    let yb = if y == 0 { 0 } else { y - 1 };
    let xr = x + 1;
    let xl = if x == 0 { 0 } else { x - 1 };
    let top = board.get(x, yt).unwrap();
    let bottom = board.get(x, yb).unwrap();
    let right = board.get(xr, y).unwrap();
    let left = board.get(xl, y).unwrap();
    let empty = Tile::from_type(TileType::Empty);

    let mut die = false;
    let mut top2 = top;
    if top.tile_type != TileType::Acid && top.tile_type != TileType::Empty && top.tile_type != TileType::Wall {
        top2 = empty;
        die = true;
    }
    let mut bottom2 = bottom;
    if bottom.tile_type != TileType::Acid && bottom.tile_type != TileType::Empty && bottom.tile_type != TileType::Wall {
        bottom2 = empty;
        die = true;
    }
    let mut right2 = right;
    if right.tile_type != TileType::Acid && right.tile_type != TileType::Empty && right.tile_type != TileType::Wall {
        right2 = empty;
        die = true;
    }
    let mut left2 = left;
    if left.tile_type != TileType::Acid && left.tile_type != TileType::Empty && left.tile_type != TileType::Wall {
        left2 = empty;
        die = true;
    }
    if die {
        let _ = board.set(x, y, empty);
    }
    let _ = board.set(x, yt, top2);
    let _ = board.set(x, yb, bottom2);
    let _ = board.set(xr, y, right2);
    let _ = board.set(xl, y, left2);
}

/// Overwriting a cell keeps the wall border, as long as the write lands in
/// the interior or writes a wall.
pub proof fn lemma_set_border(m: BoardModel, x: int, y: int, t: Tile)
    requires
        model_wf(m),
        border_walls(m),
        in_bounds_of(m, x, y),
        !is_border(width_of(m), height_of(m), x, y) || t == spec_from_type(TileType::Wall),
    ensures
        model_wf(spec_set_at(m, x, y, t)),
        width_of(spec_set_at(m, x, y, t)) == width_of(m),
        height_of(spec_set_at(m, x, y, t)) == height_of(m),
        border_walls(spec_set_at(m, x, y, t)),
        forall|i: int, j: int|
            in_bounds_of(m, i, j) && (i != x || j != y)
                ==> #[trigger] tile_at(spec_set_at(m, x, y, t), i, j) == tile_at(m, i, j),
        tile_at(spec_set_at(m, x, y, t), x, y) == t,
{
    let m2 = spec_set_at(m, x, y, t);
    assert forall|i: int, j: int| in_bounds_of(m2, i, j) && is_border(width_of(m2), height_of(m2), i, j)
        implies #[trigger] tile_at(m2, i, j) == spec_from_type(TileType::Wall) by {
        if i == x && j == y {
        } else {
            assert(tile_at(m2, i, j) == tile_at(m, i, j));
        }
    }
}

/// Exchanging two cells keeps the wall border, as long as each write lands
/// in the interior or writes a wall.
pub proof fn lemma_swap_border(m: BoardModel, x1: int, y1: int, x2: int, y2: int)
    requires
        model_wf(m),
        border_walls(m),
        in_bounds_of(m, x1, y1),
        in_bounds_of(m, x2, y2),
        !is_border(width_of(m), height_of(m), x1, y1) || tile_at(m, x2, y2) == spec_from_type(TileType::Wall),
        !is_border(width_of(m), height_of(m), x2, y2) || tile_at(m, x1, y1) == spec_from_type(TileType::Wall),
    ensures
        model_wf(spec_swap_at(m, x1, y1, x2, y2)),
        width_of(spec_swap_at(m, x1, y1, x2, y2)) == width_of(m),
        height_of(spec_swap_at(m, x1, y1, x2, y2)) == height_of(m),
        border_walls(spec_swap_at(m, x1, y1, x2, y2)),
{
    lemma_set_border(m, x1, y1, tile_at(m, x2, y2));
    let m1 = spec_set_at(m, x1, y1, tile_at(m, x2, y2));
    lemma_set_border(m1, x2, y2, tile_at(m, x1, y1));
    assert(spec_swap_at(m, x1, y1, x2, y2) == spec_set_at(m1, x2, y2, tile_at(m, x1, y1)));
}

/// Whether `(x, y)` is an interior cell: in bounds and off the boundary.
pub open spec fn interior(m: BoardModel, x: int, y: int) -> bool {
    in_bounds_of(m, x, y) && !is_border(width_of(m), height_of(m), x, y)
}

/// The gravity rule at an interior cell keeps the wall border: a fall onto
/// the bottom border would have to displace a wall, which is solid and no
/// gas, so it never happens.
pub proof fn lemma_gravity_border(m: BoardModel, x: int, y: int)
    requires
        model_wf(m),
        border_walls(m),
        interior(m, x, y),
    ensures
        model_wf(spec_gravity(m, x, y)),
        width_of(spec_gravity(m, x, y)) == width_of(m),
        height_of(spec_gravity(m, x, y)) == height_of(m),
        border_walls(spec_gravity(m, x, y)),
{
    let w = width_of(m);
    let h = height_of(m);
    let yb = sub_one(y);
    let center = tile_at(m, x, y);
    let below = tile_at(m, x, yb);
    if below.gas || (center.solid && !below.solid) {
        assert(!is_border(w, h, x, yb)) by {
            if is_border(w, h, x, yb) {
                assert(below == spec_from_type(TileType::Wall));
            }
        }
        lemma_swap_border(m, x, y, x, yb);
    }
}

/// The liquid-flow rule at an interior cell keeps the wall border: it only
/// swaps with a gas neighbor, and border cells are walls, not gas.
pub proof fn lemma_flow_border(m: BoardModel, x: int, y: int, coin: bool)
    requires
        model_wf(m),
        border_walls(m),
        interior(m, x, y),
    ensures
        model_wf(spec_flow(m, x, y, coin)),
        width_of(spec_flow(m, x, y, coin)) == width_of(m),
        height_of(spec_flow(m, x, y, coin)) == height_of(m),
        border_walls(spec_flow(m, x, y, coin)),
{
    let w = width_of(m);
    let h = height_of(m);
    let bottom = tile_at(m, x, sub_one(y));
    let right = tile_at(m, x + 1, y);
    let left = tile_at(m, sub_one(x), y);
    if !bottom.gas {
        if right.gas {
            assert(!is_border(w, h, x + 1, y)) by {
                if is_border(w, h, x + 1, y) {
                    assert(right == spec_from_type(TileType::Wall));
                }
            }
            lemma_swap_border(m, x, y, x + 1, y);
        }
        if left.gas {
            assert(!is_border(w, h, sub_one(x), y)) by {
                if is_border(w, h, sub_one(x), y) {
                    assert(left == spec_from_type(TileType::Wall));
                }
            }
            lemma_swap_border(m, x, y, sub_one(x), y);
        }
    }
}

/// The piling rule at an interior cell keeps the wall border: a diagonal
/// settle needs a non-solid or gas target, and border cells are solid walls.
pub proof fn lemma_pile_border(m: BoardModel, x: int, y: int, coin: bool)
    requires
        model_wf(m),
        border_walls(m),
        interior(m, x, y),
    ensures
        model_wf(spec_pile(m, x, y, coin)),
        width_of(spec_pile(m, x, y, coin)) == width_of(m),
        height_of(spec_pile(m, x, y, coin)) == height_of(m),
        border_walls(spec_pile(m, x, y, coin)),
{
    let w = width_of(m);
    let h = height_of(m);
    let yb = sub_one(y);
    let bottom_left = tile_at(m, sub_one(x), yb);
    let bottom_right = tile_at(m, x + 1, yb);
    if is_border(w, h, sub_one(x), yb) {
        assert(bottom_left == spec_from_type(TileType::Wall));
    }
    if is_border(w, h, x + 1, yb) {
        assert(bottom_right == spec_from_type(TileType::Wall));
    }
    if !bottom_left.solid && !bottom_right.solid {
        lemma_swap_border(m, x, y, sub_one(x), yb);
        lemma_swap_border(m, x, y, x + 1, yb);
    } else if bottom_left.gas {
        lemma_swap_border(m, x, y, sub_one(x), yb);
    } else if bottom_right.gas {
        lemma_swap_border(m, x, y, x + 1, yb);
    }
}

/// Burning a wall changes nothing: walls are no gas and not flammable, and
/// carry no burn counter.
pub proof fn lemma_burn_wall(center: Tile, gas_draw: bool, flam_draw: bool)
    ensures
        spec_burn_neighbor(center, spec_from_type(TileType::Wall), gas_draw, flam_draw)
            == (spec_from_type(TileType::Wall), false),
{
}

/// The fire-spread rule at an interior cell keeps the wall border: a border
/// neighbor is a wall, which burning leaves unchanged, so the write-back
/// writes the wall itself.
pub proof fn lemma_fire_spread_border(m: BoardModel, x: int, y: int, d: FireDraws)
    requires
        model_wf(m),
        border_walls(m),
        interior(m, x, y),
    ensures
        model_wf(spec_fire_spread(m, x, y, d)),
        width_of(spec_fire_spread(m, x, y, d)) == width_of(m),
        height_of(spec_fire_spread(m, x, y, d)) == height_of(m),
        border_walls(spec_fire_spread(m, x, y, d)),
{
    let w = width_of(m);
    let h = height_of(m);
    let center = tile_at(m, x, y);
    let top = spec_burn_neighbor(center, tile_at(m, x, y + 1), d.top_gas, d.top_flam);
    let bottom = spec_burn_neighbor(center, tile_at(m, x, sub_one(y)), d.bottom_gas, d.bottom_flam);
    let right = spec_burn_neighbor(center, tile_at(m, x + 1, y), d.right_gas, d.right_flam);
    let left = spec_burn_neighbor(center, tile_at(m, sub_one(x), y), d.left_gas, d.left_flam);
    let ignited = top.1 || bottom.1 || right.1 || left.1;
    let center2 = if ignited {
        spec_from_type(TileType::Empty)
    } else {
        center
    };
    let m1 = spec_set_at(m, x, y, center2);
    let m2 = spec_set_at(m1, x, y + 1, top.0);
    let m3 = spec_set_at(m2, x, sub_one(y), bottom.0);
    let m4 = spec_set_at(m3, x + 1, y, right.0);
    lemma_set_border(m, x, y, center2);
    lemma_set_border(m1, x, y + 1, top.0);
    lemma_set_border(m2, x, sub_one(y), bottom.0);
    lemma_set_border(m3, x + 1, y, right.0);
    lemma_set_border(m4, sub_one(x), y, left.0);
}

/// The fire-decay rule keeps the wall border: it writes only the cell it is
/// applied to, and at an interior cell that write is off the border.
pub proof fn lemma_fire_strength_border(m: BoardModel, x: int, y: int)
    requires
        model_wf(m),
        border_walls(m),
        interior(m, x, y),
    ensures
        model_wf(spec_fire_strength(m, x, y)),
        width_of(spec_fire_strength(m, x, y)) == width_of(m),
        height_of(spec_fire_strength(m, x, y)) == height_of(m),
        border_walls(spec_fire_strength(m, x, y)),
{
    let t = tile_at(m, x, y);
    let t2 = match t.strength {
        Some(s) => if s > 0 {
            Tile { strength: Some((s - 1) as u8), ..t }
        } else {
            spec_from_type(TileType::Empty)
        },
        None => t,
    };
    lemma_set_border(m, x, y, t2);
}

/// The corrosion rule at an interior cell keeps the wall border: walls do
/// not corrode, so a border neighbor's write-back writes the wall itself.
pub proof fn lemma_acid_border(m: BoardModel, x: int, y: int)
    requires
        model_wf(m),
        border_walls(m),
        interior(m, x, y),
    ensures
        model_wf(spec_acid(m, x, y)),
        width_of(spec_acid(m, x, y)) == width_of(m),
        height_of(spec_acid(m, x, y)) == height_of(m),
        border_walls(spec_acid(m, x, y)),
{
    let top = tile_at(m, x, y + 1);
    let bottom = tile_at(m, x, sub_one(y));
    let right = tile_at(m, x + 1, y);
    let left = tile_at(m, sub_one(x), y);
    let empty = spec_from_type(TileType::Empty);
    let top2 = if spec_corrodes(top) { empty } else { top };
    let bottom2 = if spec_corrodes(bottom) { empty } else { bottom };
    let right2 = if spec_corrodes(right) { empty } else { right };
    let left2 = if spec_corrodes(left) { empty } else { left };
    let die = spec_corrodes(top) || spec_corrodes(bottom) || spec_corrodes(right) || spec_corrodes(left);
    let m1 = if die {
        spec_set_at(m, x, y, empty)
    } else {
        m
    };
    if die {
        lemma_set_border(m, x, y, empty);
    }
    let m2 = spec_set_at(m1, x, y + 1, top2);
    let m3 = spec_set_at(m2, x, sub_one(y), bottom2);
    let m4 = spec_set_at(m3, x + 1, y, right2);
    lemma_set_border(m1, x, y + 1, top2);
    lemma_set_border(m2, x, sub_one(y), bottom2);
    lemma_set_border(m3, x + 1, y, right2);
    lemma_set_border(m4, sub_one(x), y, left2);
}

/// The eight random decisions a fire visit consumes, drawn in a fixed
/// order: for each neighbor in top, bottom, right, left order, first the
/// once-in-three gas draw, then the once-in-five flammable draw. The second
/// component is the generator state after the eight draws.
pub open spec fn spec_fire_draws(s: u64) -> (FireDraws, u64) {
    let s1 = spec_next_state(s);
    let s2 = spec_next_state(s1);
    let s3 = spec_next_state(s2);
    let s4 = spec_next_state(s3);
    let s5 = spec_next_state(s4);
    let s6 = spec_next_state(s5);
    let s7 = spec_next_state(s6);
    let s8 = spec_next_state(s7);
    (
        FireDraws {
            top_gas: spec_one_in(s, 3),
            top_flam: spec_one_in(s1, 5),
            bottom_gas: spec_one_in(s2, 3),
            bottom_flam: spec_one_in(s3, 5),
            right_gas: spec_one_in(s4, 3),
            right_flam: spec_one_in(s5, 5),
            left_gas: spec_one_in(s6, 3),
            left_flam: spec_one_in(s7, 5),
        },
        s8,
    )
}

/// One visit of the scan at `(x, y)`: the rules enabled by the flags of the
/// cell as it stands in the working copy at the moment of the visit are
/// applied in fixed priority order — fire-spread then fire-decay for a fire
/// cell, then flow, then pile, then gravity, then corrosion for an acid cell
/// — each seeing the grid the previous rule left. The random draws each rule
/// consumes advance the generator state whether or not the rule moves
/// anything.
pub open spec fn spec_visit(m: BoardModel, s: u64, x: int, y: int) -> (BoardModel, u64) {
    let t = tile_at(m, x, y);
    let p1 = if t.tile_type == TileType::Fire {
        let dw = spec_fire_draws(s);
        (spec_fire_strength(spec_fire_spread(m, x, y, dw.0), x, y), dw.1)
    } else {
        (m, s)
    };
    let p2 = if t.flows {
        (spec_flow(p1.0, x, y, spec_coin(p1.1)), spec_next_state(p1.1))
    } else {
        p1
    };
    let p3 = if t.piles {
        (spec_pile(p2.0, x, y, spec_coin(p2.1)), spec_next_state(p2.1))
    } else {
        p2
    };
    let p4 = if t.gravity {
        (spec_gravity(p3.0, x, y), p3.1)
    } else {
        p3
    };
    if t.tile_type == TileType::Acid {
        (spec_acid(p4.0, x, y), p4.1)
    } else {
        p4
    }
}

/// One visit keeps the grid well formed, its extents, and the wall border.
/// A border cell is a wall, whose flags enable no rule, so its visit changes
/// nothing at all.
pub proof fn lemma_visit_border(m: BoardModel, s: u64, x: int, y: int)
    requires
        model_wf(m),
        border_walls(m),
        in_bounds_of(m, x, y),
    ensures
        model_wf(spec_visit(m, s, x, y).0),
        width_of(spec_visit(m, s, x, y).0) == width_of(m),
        height_of(spec_visit(m, s, x, y).0) == height_of(m),
        border_walls(spec_visit(m, s, x, y).0),
        is_border(width_of(m), height_of(m), x, y) ==> spec_visit(m, s, x, y) == (m, s),
{
    let t = tile_at(m, x, y);
    if is_border(width_of(m), height_of(m), x, y) {
        assert(t == spec_from_type(TileType::Wall));
    } else {
        let dw = spec_fire_draws(s);
        if t.tile_type == TileType::Fire {
            lemma_fire_spread_border(m, x, y, dw.0);
            lemma_fire_strength_border(spec_fire_spread(m, x, y, dw.0), x, y);
        }
        let p1 = if t.tile_type == TileType::Fire {
            (spec_fire_strength(spec_fire_spread(m, x, y, dw.0), x, y), dw.1)
        } else {
            (m, s)
        };
        if t.flows {
            lemma_flow_border(p1.0, x, y, spec_coin(p1.1));
        }
        let p2 = if t.flows {
            (spec_flow(p1.0, x, y, spec_coin(p1.1)), spec_next_state(p1.1))
        } else {
            p1
        };
        if t.piles {
            lemma_pile_border(p2.0, x, y, spec_coin(p2.1));
        }
        let p3 = if t.piles {
            (spec_pile(p2.0, x, y, spec_coin(p2.1)), spec_next_state(p2.1))
        } else {
            p2
        };
        if t.gravity {
            lemma_gravity_border(p3.0, x, y);
        }
        let p4 = if t.gravity {
            (spec_gravity(p3.0, x, y), p3.1)
        } else {
            p3
        };
        if t.tile_type == TileType::Acid {
            lemma_acid_border(p4.0, x, y);
        }
    }
}

/// The scan of one column up to (not including) row `n`: the visits of
/// `(x, 0)` through `(x, n-1)` in order.
pub open spec fn spec_scan_col(m: BoardModel, s: u64, x: int, n: int) -> (BoardModel, u64)
    decreases n,
{
    if n <= 0 {
        (m, s)
    } else {
        let p = spec_scan_col(m, s, x, n - 1);
        spec_visit(p.0, p.1, x, n - 1)
    }
}

/// The scan of the first `k` columns, each of `h` rows, in order.
pub open spec fn spec_scan_cols(m: BoardModel, s: u64, k: int, h: int) -> (BoardModel, u64)
    decreases k,
{
    if k <= 0 {
        (m, s)
    } else {
        let p = spec_scan_cols(m, s, k - 1, h);
        spec_scan_col(p.0, p.1, k - 1, h)
    }
}

/// One full tick: every cell of the grid visited once, in ascending-`x`
/// outer, ascending-`y` inner order, against the progressively mutated
/// working copy, with the generator state threaded through every draw.
pub open spec fn spec_tick(m: BoardModel, s: u64) -> (BoardModel, u64) {
    spec_scan_cols(m, s, width_of(m), height_of(m))
}

/// Advances the simulation one tick, exactly as `spec_tick` says: the new
/// grid and generator state are a function of the old ones alone. The wall
/// border survives the tick.
#[verifier::rlimit(100)]
pub fn physics(board: &mut Board, rng: &mut Prng)
    requires
        old(board).wf(),
        border_walls(old(board)@),
    ensures
        final(board).wf(),
        border_walls(final(board)@),
        width_of(final(board)@) == width_of(old(board)@),
        height_of(final(board)@) == height_of(old(board)@),
        final(board)@ == spec_tick(old(board)@, old(rng).state).0,
        final(rng).state == spec_tick(old(board)@, old(rng).state).1,
{
    let w = board.width();
    let h = board.height();
    let ghost m0 = board@;
    let ghost s0 = rng.state;
    let mut x: usize = 0;
    while x < w
        invariant
            board.wf(),
            border_walls(board@),
            w == width_of(m0),
            h == height_of(m0),
            width_of(board@) == w,
            height_of(board@) == h,
            m0 == old(board)@,
            s0 == old(rng).state,
            x <= w,
            board@ == spec_scan_cols(m0, s0, x as int, h as int).0,
            rng.state == spec_scan_cols(m0, s0, x as int, h as int).1,
        decreases w - x,
    {
        let ghost cs = spec_scan_cols(m0, s0, x as int, h as int);
        let mut y: usize = 0;
        while y < h
            invariant
                board.wf(),
                border_walls(board@),
                w == width_of(m0),
                h == height_of(m0),
                width_of(board@) == w,
                height_of(board@) == h,
                x < w,
                y <= h,
                cs == (spec_scan_cols(m0, s0, x as int, h as int)),
                board@ == spec_scan_col(cs.0, cs.1, x as int, y as int).0,
                rng.state == spec_scan_col(cs.0, cs.1, x as int, y as int).1,
            decreases h - y,
        {
            let ghost m_in = board@;
            let ghost s_in = rng.state;
            let t = board.get(x, y).unwrap();
            proof {
                if is_border(w as int, h as int, x as int, y as int) {
                    assert(t == spec_from_type(TileType::Wall));
                }
            }
            if t.tile_type == TileType::Fire {
                let tg = rng.one_in(3);
                let tf = rng.one_in(5);
                let bg = rng.one_in(3);
                let bf = rng.one_in(5);
                let rg = rng.one_in(3);
                let rf = rng.one_in(5);
                let lg = rng.one_in(3);
                let lf = rng.one_in(5);
                let d = FireDraws {
                    top_gas: tg,
                    top_flam: tf,
                    bottom_gas: bg,
                    bottom_flam: bf,
                    right_gas: rg,
                    right_flam: rf,
                    left_gas: lg,
                    left_flam: lf,
                };
                proof {
                    assert(d == spec_fire_draws(s_in).0);
                    assert(rng.state == spec_fire_draws(s_in).1);
                }
                fire_spread(board, x, y, d);
                fire_strength(board, x, y);
            }
            if t.flows {
                let c = rng.coin();
                flow(board, x, y, c);
            }
            if t.piles {
                let c = rng.coin();
                pile(board, x, y, c);
            }
            if t.gravity {
                gravity(board, x, y);
            }
            if t.tile_type == TileType::Acid {
                proof {
                    assert(!is_border(w as int, h as int, x as int, y as int));
                }
                acid(board, x, y);
            }
            proof {
                lemma_visit_border(m_in, s_in, x as int, y as int);
                assert(board@ == spec_visit(m_in, s_in, x as int, y as int).0);
                assert(rng.state == spec_visit(m_in, s_in, x as int, y as int).1);
                assert(board@ == spec_scan_col(cs.0, cs.1, x as int, y as int + 1).0);
                assert(rng.state == spec_scan_col(cs.0, cs.1, x as int, y as int + 1).1);
            }
            y += 1;
        }
        proof {
            assert(board@ == spec_scan_cols(m0, s0, x as int + 1, h as int).0);
            assert(rng.state == spec_scan_cols(m0, s0, x as int + 1, h as int).1);
        }
        x += 1;
    }
}

/// A cell no rule ever fires on: a canonical empty cell or a canonical wall.
pub open spec fn inert(t: Tile) -> bool {
    t == spec_from_type(TileType::Empty) || t == spec_from_type(TileType::Wall)
}

/// Visiting an inert cell changes nothing and draws nothing.
pub proof fn lemma_visit_inert(m: BoardModel, s: u64, x: int, y: int)
    requires
        inert(tile_at(m, x, y)),
    ensures
        spec_visit(m, s, x, y) == (m, s),
{
}

/// Scanning a column whose first `n` rows are all inert changes nothing.
pub proof fn lemma_scan_col_inert(m: BoardModel, s: u64, x: int, n: int)
    requires
        forall|j: int| 0 <= j < n ==> inert(#[trigger] tile_at(m, x, j)),
    ensures
        spec_scan_col(m, s, x, n) == (m, s),
    decreases n,
{
    if n <= 0 {
    } else {
        lemma_scan_col_inert(m, s, x, n - 1);
        lemma_visit_inert(m, s, x, n - 1);
    }
}

/// Scanning columns that hold only inert cells changes nothing.
pub proof fn lemma_scan_cols_inert(m: BoardModel, s: u64, k: int, h: int)
    requires
        forall|i: int, j: int| 0 <= i < k && 0 <= j < h ==> inert(#[trigger] tile_at(m, i, j)),
    ensures
        spec_scan_cols(m, s, k, h) == (m, s),
    decreases k,
{
    if k <= 0 {
    } else {
        lemma_scan_cols_inert(m, s, k - 1, h);
        lemma_scan_col_inert(m, s, k - 1, h);
    }
}

/// A tick of a grid of only inert cells changes nothing: empty space and
/// walls are at rest.
pub proof fn lemma_tick_inert(m: BoardModel, s: u64)
    requires
        forall|i: int, j: int| in_bounds_of(m, i, j) ==> inert(#[trigger] tile_at(m, i, j)),
    ensures
        spec_tick(m, s) == (m, s),
{
    lemma_scan_cols_inert(m, s, width_of(m), height_of(m));
}

/// Border invariance: the wall border survives a whole tick — no rule ever
/// converts a wall, and walls carry no flag that could seed a rule, so every
/// boundary cell is still a wall after the scan, whatever the grid held and
/// whatever the generator drew.
pub proof fn lemma_tick_preserves_border(m: BoardModel, s: u64)
    requires
        model_wf(m),
        border_walls(m),
    ensures
        model_wf(spec_tick(m, s).0),
        width_of(spec_tick(m, s).0) == width_of(m),
        height_of(spec_tick(m, s).0) == height_of(m),
        border_walls(spec_tick(m, s).0),
{
    lemma_scan_cols_border(m, s, width_of(m), height_of(m));
}

/// Scanning a column prefix keeps the wall border.
pub proof fn lemma_scan_col_border(m: BoardModel, s: u64, x: int, n: int)
    requires
        model_wf(m),
        border_walls(m),
        0 <= x < width_of(m),
        n <= height_of(m),
    ensures
        model_wf(spec_scan_col(m, s, x, n).0),
        width_of(spec_scan_col(m, s, x, n).0) == width_of(m),
        height_of(spec_scan_col(m, s, x, n).0) == height_of(m),
        border_walls(spec_scan_col(m, s, x, n).0),
    decreases n,
{
    if n <= 0 {
    } else {
        lemma_scan_col_border(m, s, x, n - 1);
        let p = spec_scan_col(m, s, x, n - 1);
        lemma_visit_border(p.0, p.1, x, n - 1);
    }
}

/// Scanning a prefix of the columns keeps the wall border.
pub proof fn lemma_scan_cols_border(m: BoardModel, s: u64, k: int, h: int)
    requires
        model_wf(m),
        border_walls(m),
        k <= width_of(m),
        h == height_of(m),
    ensures
        model_wf(spec_scan_cols(m, s, k, h).0),
        width_of(spec_scan_cols(m, s, k, h).0) == width_of(m),
        height_of(spec_scan_cols(m, s, k, h).0) == height_of(m),
        border_walls(spec_scan_cols(m, s, k, h).0),
    decreases k,
{
    if k <= 0 {
    } else {
        lemma_scan_cols_border(m, s, k - 1, h);
        let p = spec_scan_cols(m, s, k - 1, h);
        lemma_scan_col_border(p.0, p.1, k - 1, h);
    }
}

/// Whether `(i, j)` comes after `(x, y)` in scan order.
pub open spec fn scan_later(x: int, y: int, i: int, j: int) -> bool {
    i > x || (i == x && j > y)
}

/// Scanning a column whose only non-inert cell among its first `n` rows is
/// `(x, y)` comes down to the one visit of `(x, y)`, provided that visit
/// leaves the rows above `y` inert.
pub proof fn lemma_scan_col_one_active(m: BoardModel, s: u64, x: int, y: int, n: int)
    requires
        0 <= y < n,
        forall|j: int| 0 <= j < n && j != y ==> inert(#[trigger] tile_at(m, x, j)),
        forall|j: int| y < j < n ==> inert(#[trigger] tile_at(spec_visit(m, s, x, y).0, x, j)),
    ensures
        spec_scan_col(m, s, x, n) == spec_visit(m, s, x, y),
    decreases n,
{
    if n == y + 1 {
        lemma_scan_col_inert(m, s, x, y);
    } else {
        lemma_scan_col_one_active(m, s, x, y, n - 1);
        let v = spec_visit(m, s, x, y);
        lemma_visit_inert(v.0, v.1, x, n - 1);
    }
}

/// Scanning columns whose only non-inert cell is `(x, y)` comes down to the
/// one visit of `(x, y)`, provided that visit leaves every cell at a later
/// scan position inert.
pub proof fn lemma_scan_cols_one_active(m: BoardModel, s: u64, x: int, y: int, k: int, h: int)
    requires
        0 <= x,
        0 <= y < h,
        forall|i: int, j: int|
            0 <= i < k && 0 <= j < h && (i != x || j != y) ==> inert(#[trigger] tile_at(m, i, j)),
        forall|i: int, j: int|
            0 <= i < k && 0 <= j < h && scan_later(x, y, i, j)
                ==> inert(#[trigger] tile_at(spec_visit(m, s, x, y).0, i, j)),
    ensures
        spec_scan_cols(m, s, k, h) == if k <= x {
            (m, s)
        } else {
            spec_visit(m, s, x, y)
        },
    decreases k,
{
    if k <= 0 {
    } else if k <= x {
        lemma_scan_cols_one_active(m, s, x, y, k - 1, h);
        lemma_scan_col_inert(m, s, k - 1, h);
    } else if k == x + 1 {
        lemma_scan_cols_one_active(m, s, x, y, k - 1, h);
        lemma_scan_col_one_active(m, s, x, y, h);
    } else {
        lemma_scan_cols_one_active(m, s, x, y, k - 1, h);
        let v = spec_visit(m, s, x, y);
        lemma_scan_col_inert(v.0, v.1, k - 1, h);
    }
}

/// A tick of a grid whose only non-inert cell is `(x, y)` is exactly the
/// one visit of `(x, y)`, provided that visit leaves every cell at a later
/// scan position inert.
pub proof fn lemma_tick_lone_active(m: BoardModel, s: u64, x: int, y: int)
    requires
        0 <= x < width_of(m),
        0 <= y < height_of(m),
        forall|i: int, j: int|
            in_bounds_of(m, i, j) && (i != x || j != y) ==> inert(#[trigger] tile_at(m, i, j)),
        forall|i: int, j: int|
            in_bounds_of(m, i, j) && scan_later(x, y, i, j)
                ==> inert(#[trigger] tile_at(spec_visit(m, s, x, y).0, i, j)),
    ensures
        spec_tick(m, s) == spec_visit(m, s, x, y),
{
    lemma_scan_cols_one_active(m, s, x, y, width_of(m), height_of(m));
}

/// A grid that is empty inside its wall border except for one sand cell at
/// `(x, y)`.
pub open spec fn lone_sand(m: BoardModel, x: int, y: int) -> bool {
    &&& model_wf(m)
    &&& border_walls(m)
    &&& interior(m, x, y)
    &&& tile_at(m, x, y) == spec_from_type(TileType::Sand)
    &&& forall|i: int, j: int|
        in_bounds_of(m, i, j) && !is_border(width_of(m), height_of(m), i, j) && (i != x || j != y)
            ==> #[trigger] tile_at(m, i, j) == spec_from_type(TileType::Empty)
}

/// One tick of a lone sand cell above empty space: the sand falls straight
/// down one row, or rests once it sits on the floor border at `y == 1`; a
/// resting tick changes no cell. Either way one tie-break coin is drawn.
pub proof fn lemma_tick_lone_sand(m: BoardModel, s: u64, x: int, y: int)
    requires
        lone_sand(m, x, y),
    ensures
        spec_tick(m, s).1 == spec_next_state(s),
        lone_sand(spec_tick(m, s).0, x, if y > 1 { y - 1 } else { 1 }),
        y == 1 ==> spec_tick(m, s).0.tiles == m.tiles,
{
    let w = width_of(m);
    let h = height_of(m);
    let sand = spec_from_type(TileType::Sand);
    let empty = spec_from_type(TileType::Empty);
    let wall = spec_from_type(TileType::Wall);
    let v = spec_visit(m, s, x, y);
    assert(tile_at(m, x, 0) == wall && tile_at(m, sub_one(x), 0) == wall && tile_at(m, x + 1, 0) == wall);
    if y > 1 {
        assert(tile_at(m, x, y - 1) == empty);
    }
    lemma_visit_border(m, s, x, y);
    assert(v.0 == spec_gravity(m, x, y) && v.1 == spec_next_state(s));
    assert forall|i: int, j: int|
        in_bounds_of(m, i, j) && (i != x || j != y) implies inert(#[trigger] tile_at(m, i, j)) by {
        if is_border(w, h, i, j) {
            assert(tile_at(m, i, j) == wall);
        }
    }
    if y > 1 {
        let res = spec_swap_at(m, x, y, x, y - 1);
        assert(v.0 == res);
        assert(tile_at(res, x, y) == empty && tile_at(res, x, y - 1) == sand);
        assert forall|i: int, j: int|
            in_bounds_of(m, i, j) && scan_later(x, y, i, j)
                implies inert(#[trigger] tile_at(v.0, i, j)) by {
            assert(tile_at(res, i, j) == tile_at(m, i, j));
            if is_border(w, h, i, j) {
                assert(tile_at(m, i, j) == wall);
            }
        }
        lemma_tick_lone_active(m, s, x, y);
        assert forall|i: int, j: int|
            in_bounds_of(res, i, j) && !is_border(w, h, i, j) && (i != x || j != y - 1)
                implies #[trigger] tile_at(res, i, j) == empty by {
            if i == x && j == y {
            } else {
                assert(tile_at(res, i, j) == tile_at(m, i, j));
            }
        }
        assert(lone_sand(spec_tick(m, s).0, x, y - 1));
    } else {
        assert(v.0 == m);
        assert forall|i: int, j: int|
            in_bounds_of(m, i, j) && scan_later(x, y, i, j)
                implies inert(#[trigger] tile_at(v.0, i, j)) by {
            if is_border(w, h, i, j) {
                assert(tile_at(m, i, j) == wall);
            }
        }
        lemma_tick_lone_active(m, s, x, y);
    }
}

/// The grid and generator after `n` whole ticks.
pub open spec fn run_ticks(m: BoardModel, s: u64, n: int) -> (BoardModel, u64)
    decreases n,
{
    if n <= 0 {
        (m, s)
    } else {
        let p = run_ticks(m, s, n - 1);
        spec_tick(p.0, p.1)
    }
}

/// Running `n` ticks is one tick followed by `n - 1` more.
pub proof fn lemma_run_ticks_shift(m: BoardModel, s: u64, n: int)
    requires
        1 <= n,
    ensures
        run_ticks(m, s, n).0 == run_ticks(spec_tick(m, s).0, spec_tick(m, s).1, n - 1).0,
        run_ticks(m, s, n).1 == run_ticks(spec_tick(m, s).0, spec_tick(m, s).1, n - 1).1,
    decreases n,
{
    let t = spec_tick(m, s);
    if n == 1 {
        assert(run_ticks(m, s, 0).0 == m && run_ticks(m, s, 0).1 == s);
        assert(run_ticks(m, s, 1) == spec_tick(run_ticks(m, s, 0).0, run_ticks(m, s, 0).1));
        assert(run_ticks(t.0, t.1, 0).0 == t.0 && run_ticks(t.0, t.1, 0).1 == t.1);
    } else {
        lemma_run_ticks_shift(m, s, n - 1);
        let p = run_ticks(m, s, n - 1);
        let q = run_ticks(t.0, t.1, n - 2);
        assert(p.0 == q.0 && p.1 == q.1);
        assert(run_ticks(m, s, n) == spec_tick(p.0, p.1));
        assert(run_ticks(t.0, t.1, n - 1) == spec_tick(q.0, q.1));
    }
}

/// A tick of a grid of only inert cells changes nothing, however many times
/// it is repeated.
pub proof fn lemma_run_ticks_inert(m: BoardModel, s: u64, n: int)
    requires
        forall|i: int, j: int| in_bounds_of(m, i, j) ==> inert(#[trigger] tile_at(m, i, j)),
    ensures
        run_ticks(m, s, n).0 == m,
    decreases n,
{
    if n <= 0 {
    } else {
        lemma_run_ticks_inert(m, s, n - 1);
        lemma_tick_inert(m, run_ticks(m, s, n - 1).1);
        assert(run_ticks(m, s, n - 1).0 == m);
    }
}

/// The wall border survives any number of ticks: once walled, always walled.
pub proof fn lemma_run_ticks_preserve_border(m: BoardModel, s: u64, n: int)
    requires
        model_wf(m),
        border_walls(m),
    ensures
        model_wf(run_ticks(m, s, n).0),
        width_of(run_ticks(m, s, n).0) == width_of(m),
        height_of(run_ticks(m, s, n).0) == height_of(m),
        border_walls(run_ticks(m, s, n).0),
    decreases n,
{
    if n <= 0 {
    } else {
        lemma_run_ticks_preserve_border(m, s, n - 1);
        let p = run_ticks(m, s, n - 1);
        lemma_tick_preserves_border(p.0, p.1);
    }
}

/// Gravity convergence: a lone sand cell dropped at height `y` above an
/// otherwise empty interior reaches the row just above the floor border
/// within `y - 1` ticks (so within `height - 2` ticks for any interior
/// start), and every further tick leaves it — and the whole grid — at rest.
pub proof fn lemma_sand_settles(m: BoardModel, s: u64, x: int, y: int, n: int)
    requires
        lone_sand(m, x, y),
        n >= y - 1,
    ensures
        lone_sand(run_ticks(m, s, n).0, x, 1),
    decreases n,
{
    if n <= 0 {
        assert(y == 1);
    } else {
        lemma_run_ticks_shift(m, s, n);
        lemma_tick_lone_sand(m, s, x, y);
        let t = spec_tick(m, s);
        if y > 1 {
            lemma_sand_settles(t.0, t.1, x, y - 1, n - 1);
        } else {
            lemma_sand_settles(t.0, t.1, x, 1, n - 1);
        }
    }
}

/// A grid whose interior is inert except for one fire cell at `(x, y)` with
/// burn counter `k`, walled off on all four orthogonal sides.
pub open spec fn boxed_fire(m: BoardModel, x: int, y: int, k: u8) -> bool {
    &&& model_wf(m)
    &&& border_walls(m)
    &&& interior(m, x, y)
    &&& tile_at(m, x, y) == (Tile { strength: Some(k), ..spec_from_type(TileType::Fire) })
    &&& tile_at(m, x, y + 1) == spec_from_type(TileType::Wall)
    &&& tile_at(m, x, y - 1) == spec_from_type(TileType::Wall)
    &&& tile_at(m, x + 1, y) == spec_from_type(TileType::Wall)
    &&& tile_at(m, x - 1, y) == spec_from_type(TileType::Wall)
    &&& forall|i: int, j: int|
        in_bounds_of(m, i, j) && (i != x || j != y) ==> inert(#[trigger] tile_at(m, i, j))
}

/// One tick of a boxed fire: it ignites nothing, burns its counter down by
/// one, and a counter already at zero extinguishes the cell; no other cell
/// changes. The visit consumes exactly the eight ignition draws.
pub proof fn lemma_tick_boxed_fire(m: BoardModel, s: u64, x: int, y: int, k: u8)
    requires
        boxed_fire(m, x, y, k),
    ensures
        spec_tick(m, s).1 == spec_fire_draws(s).1,
        model_wf(spec_tick(m, s).0),
        width_of(spec_tick(m, s).0) == width_of(m),
        height_of(spec_tick(m, s).0) == height_of(m),
        k > 0 ==> boxed_fire(spec_tick(m, s).0, x, y, (k - 1) as u8),
        k == 0 ==> tile_at(spec_tick(m, s).0, x, y) == spec_from_type(TileType::Empty),
        forall|i: int, j: int|
            in_bounds_of(m, i, j) && (i != x || j != y)
                ==> #[trigger] tile_at(spec_tick(m, s).0, i, j) == tile_at(m, i, j),
    decreases 0int,
{
    let wall = spec_from_type(TileType::Wall);
    let fire = tile_at(m, x, y);
    let dw = spec_fire_draws(s);
    let d = dw.0;
    lemma_burn_wall(fire, d.top_gas, d.top_flam);
    lemma_burn_wall(fire, d.bottom_gas, d.bottom_flam);
    lemma_burn_wall(fire, d.right_gas, d.right_flam);
    lemma_burn_wall(fire, d.left_gas, d.left_flam);
    let msp = spec_fire_spread(m, x, y, d);
    let m1 = spec_set_at(m, x, y, fire);
    let m2 = spec_set_at(m1, x, y + 1, wall);
    let m3 = spec_set_at(m2, x, sub_one(y), wall);
    let m4 = spec_set_at(m3, x + 1, y, wall);
    lemma_spec_set(m, x as usize, y as usize, fire);
    lemma_spec_set(m1, x as usize, (y + 1) as usize, wall);
    lemma_spec_set(m2, x as usize, sub_one(y) as usize, wall);
    lemma_spec_set(m3, (x + 1) as usize, y as usize, wall);
    lemma_spec_set(m4, sub_one(x) as usize, y as usize, wall);
    assert(msp == spec_set_at(m4, sub_one(x), y, wall));
    assert forall|i: int, j: int| in_bounds_of(m, i, j)
        implies #[trigger] tile_at(msp, i, j) == tile_at(m, i, j) by {
    }
    let t2 = if k > 0 {
        Tile { strength: Some((k - 1) as u8), ..fire }
    } else {
        spec_from_type(TileType::Empty)
    };
    assert(spec_fire_strength(msp, x, y) == spec_set_at(msp, x, y, t2));
    lemma_spec_set(msp, x as usize, y as usize, t2);
    let v = spec_visit(m, s, x, y);
    assert(v.0 == spec_set_at(msp, x, y, t2) && v.1 == dw.1);
    assert forall|i: int, j: int|
        in_bounds_of(m, i, j) && (i != x || j != y)
            implies #[trigger] tile_at(v.0, i, j) == tile_at(m, i, j) by {
        assert(tile_at(v.0, i, j) == tile_at(msp, i, j));
    }
    assert forall|i: int, j: int|
        in_bounds_of(m, i, j) && scan_later(x, y, i, j)
            implies inert(#[trigger] tile_at(v.0, i, j)) by {
        assert(tile_at(v.0, i, j) == tile_at(m, i, j));
    }
    lemma_tick_lone_active(m, s, x, y);
    lemma_visit_border(m, s, x, y);
    if k > 0 {
        assert(tile_at(v.0, x, y) == t2);
        assert forall|i: int, j: int|
            in_bounds_of(v.0, i, j) && (i != x || j != y)
                implies inert(#[trigger] tile_at(v.0, i, j)) by {
            assert(tile_at(v.0, i, j) == tile_at(m, i, j));
        }
        assert(boxed_fire(v.0, x, y, (k - 1) as u8));
    }
}

/// While its counter is positive, a boxed fire only counts down: after
/// `n <= k` ticks it still burns, at strength `k - n`.
pub proof fn lemma_fire_countdown(m: BoardModel, s: u64, x: int, y: int, k: u8, n: int)
    requires
        boxed_fire(m, x, y, k),
        0 <= n <= k,
    ensures
        boxed_fire(run_ticks(m, s, n).0, x, y, (k - n) as u8),
    decreases n,
{
    if n == 0 {
    } else {
        lemma_run_ticks_shift(m, s, n);
        lemma_tick_boxed_fire(m, s, x, y, k);
        let t = spec_tick(m, s);
        lemma_fire_countdown(t.0, t.1, x, y, (k - 1) as u8, n - 1);
        assert(run_ticks(m, s, n).0 == run_ticks(t.0, t.1, n - 1).0);
    }
}

/// Fire decay terminates: a fire cell walled off on all four sides is an
/// empty cell after `strength + 1` ticks — and stays empty over any further
/// ticks, touching no other cell: it never re-ignites.
pub proof fn lemma_fire_burns_out(m: BoardModel, s: u64, x: int, y: int, k: u8, n: int)
    requires
        boxed_fire(m, x, y, k),
        n > k,
    ensures
        model_wf(run_ticks(m, s, n).0),
        width_of(run_ticks(m, s, n).0) == width_of(m),
        height_of(run_ticks(m, s, n).0) == height_of(m),
        tile_at(run_ticks(m, s, n).0, x, y) == spec_from_type(TileType::Empty),
        forall|i: int, j: int|
            in_bounds_of(m, i, j) && (i != x || j != y)
                ==> #[trigger] tile_at(run_ticks(m, s, n).0, i, j) == tile_at(m, i, j),
    decreases n,
{
    lemma_run_ticks_shift(m, s, n);
    lemma_tick_boxed_fire(m, s, x, y, k);
    let t = spec_tick(m, s);
    assert(run_ticks(m, s, n).0 == run_ticks(t.0, t.1, n - 1).0);
    if k > 0 {
        lemma_fire_burns_out(t.0, t.1, x, y, (k - 1) as u8, n - 1);
        assert forall|i: int, j: int|
            in_bounds_of(m, i, j) && (i != x || j != y)
                implies #[trigger] tile_at(run_ticks(m, s, n).0, i, j) == tile_at(m, i, j) by {
            assert(in_bounds_of(t.0, i, j));
            assert(tile_at(run_ticks(t.0, t.1, n - 1).0, i, j) == tile_at(t.0, i, j));
        }
    } else {
        assert forall|i: int, j: int| in_bounds_of(t.0, i, j)
            implies inert(#[trigger] tile_at(t.0, i, j)) by {
            if i == x && j == y {
            } else {
                assert(tile_at(t.0, i, j) == tile_at(m, i, j));
            }
        }
        lemma_run_ticks_inert(t.0, t.1, n - 1);
        assert(run_ticks(t.0, t.1, n - 1).0 == t.0);
    }
}

/// Flow symmetry, the deterministic half: a cell that cannot fall and has
/// gas on both sides moves left exactly on a true coin and right exactly on
/// a false coin; which coin comes up is the generator's affair.
pub proof fn lemma_flow_tie_break(m: BoardModel, x: int, y: int)
    requires
        model_wf(m),
        in_bounds_of(m, x, y),
        in_bounds_of(m, x - 1, y),
        in_bounds_of(m, x + 1, y),
        0 < y,
        !tile_at(m, x, y - 1).gas,
        tile_at(m, x - 1, y).gas,
        tile_at(m, x + 1, y).gas,
    ensures
        spec_flow(m, x, y, true) == spec_swap_at(m, x, y, x - 1, y),
        spec_flow(m, x, y, false) == spec_swap_at(m, x, y, x + 1, y),
{
}

/// Acid at rest: an acid cell whose four orthogonal neighbors are all acid,
/// empty or wall corrodes nothing and leaves every cell as it was.
pub proof fn lemma_acid_inert(m: BoardModel, x: int, y: int)
    requires
        model_wf(m),
        in_bounds_of(m, x, y),
        in_bounds_of(m, x, y + 1),
        in_bounds_of(m, x + 1, y),
        !spec_corrodes(tile_at(m, x, y + 1)),
        !spec_corrodes(tile_at(m, x, sub_one(y))),
        !spec_corrodes(tile_at(m, x + 1, y)),
        !spec_corrodes(tile_at(m, sub_one(x), y)),
    ensures
        spec_acid(m, x, y).tiles == m.tiles,
{
    let res = spec_acid(m, x, y);
    assert forall|i: int| 0 <= i < m.tiles.len() implies res.tiles[i] =~= m.tiles[i] by {
    }
    assert(res.tiles =~= m.tiles);
}

/// Acid corrosion is one-shot: an acid cell with a corrodible neighbor
/// below dissolves that neighbor and is consumed itself, both in the same
/// rule application.
pub proof fn lemma_acid_corrodes_below(m: BoardModel, x: int, y: int)
    requires
        model_wf(m),
        in_bounds_of(m, x, y),
        in_bounds_of(m, x, y + 1),
        in_bounds_of(m, x + 1, y),
        0 < x,
        0 < y,
        spec_corrodes(tile_at(m, x, y - 1)),
    ensures
        tile_at(spec_acid(m, x, y), x, y - 1) == spec_from_type(TileType::Empty),
        tile_at(spec_acid(m, x, y), x, y) == spec_from_type(TileType::Empty),
{
    let top = tile_at(m, x, y + 1);
    let bottom = tile_at(m, x, sub_one(y));
    let right = tile_at(m, x + 1, y);
    let left = tile_at(m, sub_one(x), y);
    let empty = spec_from_type(TileType::Empty);
    let m1 = spec_set_at(m, x, y, empty);
    let m2 = spec_set_at(m1, x, y + 1, if spec_corrodes(top) { empty } else { top });
    let m3 = spec_set_at(m2, x, sub_one(y), if spec_corrodes(bottom) { empty } else { bottom });
    let m4 = spec_set_at(m3, x + 1, y, if spec_corrodes(right) { empty } else { right });
    assert(spec_acid(m, x, y) == spec_set_at(m4, sub_one(x), y, if spec_corrodes(left) { empty } else { left }));
}

} // verus!
