use vstd::prelude::*;

verus! {

/// Screen position of the stash grid's left edge.
pub const STASH_LEFT: u32 = 17;

/// Screen position of the stash grid's top edge.
pub const STASH_TOP: u32 = 162;

/// Width of the stash grid on screen.
pub const STASH_WIDTH: u32 = 632;

/// Height of the stash grid on screen.
pub const STASH_HEIGHT: u32 = 632;

/// A rectangle in screen or window coordinates.
#[derive(Clone, Copy, Debug, PartialEq, Eq, Structural)]
pub struct WindowRect {
    pub left: i32,
    pub top: i32,
    pub right: i32,
    pub bottom: i32,
}

impl Default for WindowRect {
    /// The usual place of the stash grid.
    fn default() -> (r: WindowRect)
        ensures
            r.left == STASH_LEFT,
            r.top == STASH_TOP,
            r.right == STASH_LEFT + STASH_WIDTH,
            r.bottom == STASH_TOP + STASH_HEIGHT,
    {
        WindowRect {
            left: STASH_LEFT as i32,
            top: STASH_TOP as i32,
            right: (STASH_LEFT + STASH_WIDTH) as i32,
            bottom: (STASH_TOP + STASH_HEIGHT) as i32,
        }
    }
}

/// Pixel offset of grid line `pos` for cells `cell` pixels wide, with one
/// extra pixel of border every three cells.
pub open spec fn grid_edge(pos: int, cell: int) -> int {
    pos * cell + pos / 3
}

/// Half-cells per item cell: a double-sized tab's grid is twice as fine.
pub open spec fn grid_scale(is_quad_stash: bool) -> int {
    if is_quad_stash {
        1
    } else {
        2
    }
}

fn edge(pos: u32, cell: u32) -> (r: u32)
    requires
        grid_edge(pos as int, cell as int) <= i32::MAX,
    ensures
        r == grid_edge(pos as int, cell as int),
{
    assert(pos * cell <= i32::MAX) by (nonlinear_arith)
        requires
            pos * cell + pos / 3 <= i32::MAX,
            pos >= 0,
    ;
    pos * cell + pos / 3
}

proof fn lemma_edge_monotone(a: int, b: int, cell: int)
    requires
        0 <= a <= b,
        0 <= cell,
    ensures
        grid_edge(a, cell) <= grid_edge(b, cell),
{
    assert(a * cell <= b * cell) by (nonlinear_arith)
        requires
            0 <= a <= b,
            0 <= cell,
    ;
    assert(a / 3 <= b / 3) by (nonlinear_arith)
        requires
            0 <= a <= b,
    ;
}

/// The on-screen rectangle of an item at grid cell `(x, y)` spanning `w` by `h`
/// cells, for cells `cell_w` by `cell_h` pixels.
pub fn get_item_rect(x: u32, y: u32, w: u32, h: u32, cell_w: u32, cell_h: u32, is_quad_stash: bool) -> (r:
    WindowRect)
    requires
        (x + w) * grid_scale(is_quad_stash) <= u32::MAX,
        (y + h) * grid_scale(is_quad_stash) <= u32::MAX,
        grid_edge((x + w) * grid_scale(is_quad_stash), cell_w as int) <= i32::MAX,
        grid_edge((y + h) * grid_scale(is_quad_stash), cell_h as int) <= i32::MAX,
    ensures
        r.left == grid_edge(x * grid_scale(is_quad_stash), cell_w as int),
        r.top == grid_edge(y * grid_scale(is_quad_stash), cell_h as int),
        r.right == grid_edge((x + w) * grid_scale(is_quad_stash), cell_w as int),
        r.bottom == grid_edge((y + h) * grid_scale(is_quad_stash), cell_h as int),
{
    let ghost s = grid_scale(is_quad_stash);
    proof {
        lemma_edge_monotone(x * s, (x + w) * s, cell_w as int);
        lemma_edge_monotone(y * s, (y + h) * s, cell_h as int);
    }
    let (x, y, w, h) = if is_quad_stash {
        (x, y, w, h)
    } else {
        (x * 2, y * 2, w * 2, h * 2)
    };
    let left = edge(x, cell_w);
    let top = edge(y, cell_h);
    let right = edge(x + w, cell_w);
    let bottom = edge(y + h, cell_h);
    WindowRect { left: left as i32, top: top as i32, right: right as i32, bottom: bottom as i32 }
}

/// Size of one grid cell for a stash drawn `stash_w` by `stash_h` pixels: a
/// border of eight pixels and twenty-four cells each way.
pub open spec fn cell_size(len: int) -> int {
    if len < 8 {
        0
    } else {
        (len - 8) / 24
    }
}

pub fn calc_cell_size(stash_w: i64, stash_h: i64) -> (r: (u32, u32))
    requires
        0 <= stash_w <= u32::MAX,
        0 <= stash_h <= u32::MAX,
    ensures
        r.0 == cell_size(stash_w as int),
        r.1 == cell_size(stash_h as int),
{
    let cw = if stash_w < 8 {
        0
    } else {
        ((stash_w - 8) / 24) as u32
    };
    let ch = if stash_h < 8 {
        0
    } else {
        ((stash_h - 8) / 24) as u32
    };
    (cw, ch)
}

} // verus!
