//! Feature renderers as pure geometry: what each overlay feature draws,
//! given the state and the screen, as a list of vector primitives in
//! fixed-point pixel coordinates. The frame callback hands these to the
//! UI library unchanged.
use vstd::prelude::*;

use crate::config::{Fx, FX_MAX, valid_fx, CrosshairView, FpsView, OverlayCrosshairData, FpsConfig};
use crate::hexcolor::{Rgba, spec_parse_hex};
use crate::state::OverlayState;
use crate::text::lit_bytes;

verus! {

/// One vector primitive of the overlay, in fixed-point pixel coordinates.
#[derive(Clone, Copy, Debug, PartialEq, Eq, Structural)]
pub enum Shape {
    Line { x1: Fx, y1: Fx, x2: Fx, y2: Fx, thickness: Fx },
    Rect { x1: Fx, y1: Fx, x2: Fx, y2: Fx, thickness: Fx, rounding: Fx, filled: bool },
    Circle { cx: Fx, cy: Fx, radius: Fx, filled: bool },
    Triangle { x1: Fx, y1: Fx, x2: Fx, y2: Fx, x3: Fx, y3: Fx, thickness: Fx },
}

/// A screen dimension: non-negative and within the fixed-point range.
pub open spec fn valid_screen(v: int) -> bool {
    0 <= v <= FX_MAX as int
}

/// The size a crosshair draws at: never below one pixel.
pub open spec fn clamped_size(size: int) -> int {
    if size < 100 {
        100
    } else {
        size
    }
}

/// Shifts one primitive by a vector.
pub open spec fn translate_shape(s: Shape, dx: int, dy: int) -> Shape {
    match s {
        Shape::Line { x1, y1, x2, y2, thickness } => Shape::Line {
            x1: (x1 + dx) as i64,
            y1: (y1 + dy) as i64,
            x2: (x2 + dx) as i64,
            y2: (y2 + dy) as i64,
            thickness,
        },
        Shape::Rect { x1, y1, x2, y2, thickness, rounding, filled } => Shape::Rect {
            x1: (x1 + dx) as i64,
            y1: (y1 + dy) as i64,
            x2: (x2 + dx) as i64,
            y2: (y2 + dy) as i64,
            thickness,
            rounding,
            filled,
        },
        Shape::Circle { cx, cy, radius, filled } => Shape::Circle {
            cx: (cx + dx) as i64,
            cy: (cy + dy) as i64,
            radius,
            filled,
        },
        Shape::Triangle { x1, y1, x2, y2, x3, y3, thickness } => Shape::Triangle {
            x1: (x1 + dx) as i64,
            y1: (y1 + dy) as i64,
            x2: (x2 + dx) as i64,
            y2: (y2 + dy) as i64,
            x3: (x3 + dx) as i64,
            y3: (y3 + dy) as i64,
            thickness,
        },
    }
}

/// Scales one primitive from the origin by an integer factor.
pub open spec fn scale_shape(s: Shape, k: int) -> Shape {
    match s {
        Shape::Line { x1, y1, x2, y2, thickness } => Shape::Line {
            x1: (x1 * k) as i64,
            y1: (y1 * k) as i64,
            x2: (x2 * k) as i64,
            y2: (y2 * k) as i64,
            thickness: (thickness * k) as i64,
        },
        Shape::Rect { x1, y1, x2, y2, thickness, rounding, filled } => Shape::Rect {
            x1: (x1 * k) as i64,
            y1: (y1 * k) as i64,
            x2: (x2 * k) as i64,
            y2: (y2 * k) as i64,
            thickness: (thickness * k) as i64,
            rounding: (rounding * k) as i64,
            filled,
        },
        Shape::Circle { cx, cy, radius, filled } => Shape::Circle {
            cx: (cx * k) as i64,
            cy: (cy * k) as i64,
            radius: (radius * k) as i64,
            filled,
        },
        Shape::Triangle { x1, y1, x2, y2, x3, y3, thickness } => Shape::Triangle {
            x1: (x1 * k) as i64,
            y1: (y1 * k) as i64,
            x2: (x2 * k) as i64,
            y2: (y2 * k) as i64,
            x3: (x3 * k) as i64,
            y3: (y3 * k) as i64,
            thickness: (thickness * k) as i64,
        },
    }
}

/// The five built-in named shapes, drawn around the origin with the given
/// clamped size. An unrecognised name gives no primitives.
pub open spec fn named_shape_at_origin(t: Seq<u8>, size: int) -> Seq<Shape>
    recommends
        100 <= size <= FX_MAX as int,
{
    let half = size / 2;
    if t == lit_bytes("svg1") {
        // cross with a filled centre dot
        seq![
            Shape::Line {
                x1: (-half) as i64,
                y1: 0,
                x2: half as i64,
                y2: 0,
                thickness: (size * 15 / 100) as i64,
            },
            Shape::Line {
                x1: 0,
                y1: (-half) as i64,
                x2: 0,
                y2: half as i64,
                thickness: (size * 15 / 100) as i64,
            },
            Shape::Circle { cx: 0, cy: 0, radius: (size * 10 / 100) as i64, filled: true },
        ]
    } else if t == lit_bytes("svg2") {
        // hollow rounded square with a centre dot
        seq![
            Shape::Rect {
                x1: (-half) as i64,
                y1: (-half) as i64,
                x2: half as i64,
                y2: half as i64,
                thickness: (size * 10 / 100) as i64,
                rounding: (size * 20 / 100) as i64,
                filled: false,
            },
            Shape::Circle { cx: 0, cy: 0, radius: (size * 10 / 100) as i64, filled: true },
        ]
    } else if t == lit_bytes("svg3") {
        // triangle with a centre dot
        seq![
            Shape::Triangle {
                x1: 0,
                y1: (-half) as i64,
                x2: half as i64,
                y2: half as i64,
                x3: (-half) as i64,
                y3: half as i64,
                thickness: (size * 10 / 100) as i64,
            },
            Shape::Circle { cx: 0, cy: 0, radius: (size * 10 / 100) as i64, filled: true },
        ]
    } else if t == lit_bytes("svg4") {
        // gapped cross with a small centre dot
        seq![
            Shape::Line {
                x1: 0,
                y1: (-half) as i64,
                x2: 0,
                y2: (-(size * 20 / 100)) as i64,
                thickness: (size * 10 / 100) as i64,
            },
            Shape::Line {
                x1: 0,
                y1: half as i64,
                x2: 0,
                y2: (size * 20 / 100) as i64,
                thickness: (size * 10 / 100) as i64,
            },
            Shape::Line {
                x1: (-half) as i64,
                y1: 0,
                x2: (-(size * 20 / 100)) as i64,
                y2: 0,
                thickness: (size * 10 / 100) as i64,
            },
            Shape::Line {
                x1: half as i64,
                y1: 0,
                x2: (size * 20 / 100) as i64,
                y2: 0,
                thickness: (size * 10 / 100) as i64,
            },
            Shape::Circle { cx: 0, cy: 0, radius: (size * 5 / 100) as i64, filled: true },
        ]
    } else if t == lit_bytes("svg5") {
        // filled dot
        seq![Shape::Circle { cx: 0, cy: 0, radius: half as i64, filled: true }]
    } else {
        Seq::empty()
    }
}

/// A shape name one of the five built-in crosshairs answers to.
pub open spec fn recognized_shape(t: Seq<u8>) -> bool {
    t == lit_bytes("svg1") || t == lit_bytes("svg2") || t == lit_bytes("svg3") || t == lit_bytes(
        "svg4",
    ) || t == lit_bytes("svg5")
}

/// Every row of the grid is as long as the first.
pub open spec fn rectangular(g: Seq<Seq<bool>>) -> bool {
    forall|i: int| 0 <= i < g.len() ==> #[trigger] g[i].len() == g[0].len()
}

/// Number of `true` cells in one row.
pub open spec fn count_row(r: Seq<bool>) -> int
    decreases r.len(),
{
    if r.len() == 0 {
        0
    } else {
        count_row(r.drop_last()) + if r.last() {
            1int
        } else {
            0int
        }
    }
}

/// Number of `true` cells in the whole grid.
pub open spec fn count_grid(g: Seq<Seq<bool>>) -> int
    decreases g.len(),
{
    if g.len() == 0 {
        0
    } else {
        count_grid(g.drop_last()) + count_row(g.last())
    }
}

/// Filled squares of one row, at origin-relative cell coordinates.
pub open spec fn row_cells(r: Seq<bool>, row: int, cell: int, sx: int, sy: int) -> Seq<Shape>
    decreases r.len(),
{
    if r.len() == 0 {
        Seq::empty()
    } else {
        row_cells(r.drop_last(), row, cell, sx, sy) + if r.last() {
            seq![
                Shape::Rect {
                    x1: (sx + (r.len() - 1) * cell) as i64,
                    y1: (sy + row * cell) as i64,
                    x2: (sx + (r.len() - 1) * cell + cell) as i64,
                    y2: (sy + row * cell + cell) as i64,
                    thickness: 0,
                    rounding: 0,
                    filled: true,
                },
            ]
        } else {
            Seq::empty()
        }
    }
}

/// Filled squares of the whole grid.
pub open spec fn grid_cells(g: Seq<Seq<bool>>, cell: int, sx: int, sy: int) -> Seq<Shape>
    decreases g.len(),
{
    if g.len() == 0 {
        Seq::empty()
    } else {
        grid_cells(g.drop_last(), cell, sx, sy) + row_cells(g.last(), g.len() - 1, cell, sx, sy)
    }
}

/// Law: a grid draws one filled square per `true` cell.
pub proof fn lemma_row_cells_count(r: Seq<bool>, row: int, cell: int, sx: int, sy: int)
    ensures
        row_cells(r, row, cell, sx, sy).len() == count_row(r),
    decreases r.len(),
{
    if r.len() > 0 {
        lemma_row_cells_count(r.drop_last(), row, cell, sx, sy);
    }
}

/// Law: the grid rendering of a crosshair draws exactly as many filled
/// squares as the grid has `true` entries.
pub proof fn lemma_grid_cells_count(g: Seq<Seq<bool>>, cell: int, sx: int, sy: int)
    ensures
        grid_cells(g, cell, sx, sy).len() == count_grid(g),
    decreases g.len(),
{
    if g.len() > 0 {
        lemma_grid_cells_count(g.drop_last(), cell, sx, sy);
        lemma_row_cells_count(g.last(), g.len() - 1, cell, sx, sy);
    }
}


/// Law: for a crosshair with an absent or unrecognised shape name and a
/// non-empty rectangular grid, rendering draws exactly one filled square
/// per `true` entry of the grid.
pub proof fn lemma_grid_crosshair_cell_count(c: CrosshairView, w: int, h: int)
    requires
        c.enabled,
        spec_parse_hex(c.color) is Some,
        match c.crosshair_type {
            Option::Some(t) => !recognized_shape(t),
            Option::None => true,
        },
        c.grid is Some,
        c.grid->Some_0.len() > 0,
        rectangular(c.grid->Some_0),
    ensures
        crosshair_shapes(c, w, h).len() == count_grid(c.grid->Some_0),
{
    let g = c.grid->Some_0;
    let size = clamped_size(c.size);
    let rows = g.len() as int;
    let cols = g[0].len() as int;
    let longer = if rows > cols {
        rows
    } else {
        cols
    };
    let cell = size / longer;
    let sx = -(cols * cell / 2);
    let sy = -(rows * cell / 2);
    lemma_grid_cells_count(g, cell, sx, sy);
    assert(crosshair_at_origin(c) == grid_cells(g, cell, sx, sy));
}

/// The grid geometry a crosshair grid draws with: square cells sized so
/// the grid's longer dimension spans the clamped size, centred at the
/// origin; a grid with more cells across than the size has units draws
/// them as degenerate zero-sized squares. A grid that is empty or ragged
/// (its rows differ in length) draws nothing.
pub open spec fn grid_shapes(g: Seq<Seq<bool>>, size: int) -> Seq<Shape> {
    if g.len() == 0 || !rectangular(g) {
        Seq::empty()
    } else {
        let rows = g.len() as int;
        let cols = g[0].len() as int;
        let longer = if rows > cols {
            rows
        } else {
            cols
        };
        let cell = size / longer;
        let sx = -(cols * cell / 2);
        let sy = -(rows * cell / 2);
        grid_cells(g, cell, sx, sy)
    }
}


/// Law: a ragged grid — one whose rows differ in length — draws nothing,
/// deterministically, rather than failing.
pub proof fn lemma_ragged_grid_draws_nothing(g: Seq<Seq<bool>>, size: int)
    requires
        !rectangular(g),
    ensures
        grid_shapes(g, size) == Seq::<Shape>::empty(),
{
}

/// What the crosshair draws around the origin: a recognised named shape
/// first; otherwise the explicit grid; otherwise a filled dot.
pub open spec fn crosshair_at_origin(c: CrosshairView) -> Seq<Shape> {
    let size = clamped_size(c.size);
    match c.crosshair_type {
        Option::Some(t) => {
            if recognized_shape(t) {
                named_shape_at_origin(t, size)
            } else {
                match c.grid {
                    Option::Some(g) => grid_shapes(g, size),
                    Option::None => Seq::empty(),
                }
            }
        },
        Option::None => {
            match c.grid {
                Option::Some(g) => grid_shapes(g, size),
                Option::None => seq![
                    Shape::Circle { cx: 0, cy: 0, radius: (size / 2) as i64, filled: true },
                ],
            }
        },
    }
}

/// What the crosshair feature draws: nothing when disabled or when the
/// colour does not parse; otherwise its origin geometry translated to the
/// screen centre plus the configured offset.
pub open spec fn crosshair_shapes(c: CrosshairView, w: int, h: int) -> Seq<Shape> {
    if !c.enabled || spec_parse_hex(c.color) is None {
        Seq::empty()
    } else {
        let cx = w / 2 + c.offset_x;
        let cy = h / 2 + c.offset_y;
        crosshair_at_origin(c).map_values(|s: Shape| translate_shape(s, cx, cy))
    }
}

/// Law: crosshair geometry is positioned by translation alone — every
/// primitive drawn is the matching origin primitive shifted by the screen
/// centre plus the configured offset.
pub proof fn lemma_crosshair_centered(c: CrosshairView, w: int, h: int)
    requires
        c.enabled,
        spec_parse_hex(c.color) is Some,
    ensures
        crosshair_shapes(c, w, h).len() == crosshair_at_origin(c).len(),
        forall|i: int|
            0 <= i < crosshair_shapes(c, w, h).len() ==> #[trigger] crosshair_shapes(c, w, h)[i]
                == translate_shape(
                crosshair_at_origin(c)[i],
                w / 2 + c.offset_x,
                h / 2 + c.offset_y,
            ),
{
}

/// Bound on the coordinates of every primitive built at the origin.
pub const SHAPE_COORD_MAX: i64 = 2_000_000_000_000_000_000;

/// All coordinates of a primitive are within `b`.
pub open spec fn shape_bounded(s: Shape, b: int) -> bool {
    match s {
        Shape::Line { x1, y1, x2, y2, thickness } => -b <= x1 <= b && -b <= y1 <= b && -b <= x2
            <= b && -b <= y2 <= b,
        Shape::Rect { x1, y1, x2, y2, thickness, rounding, filled } => -b <= x1 <= b && -b <= y1
            <= b && -b <= x2 <= b && -b <= y2 <= b,
        Shape::Circle { cx, cy, radius, filled } => -b <= cx <= b && -b <= cy <= b,
        Shape::Triangle { x1, y1, x2, y2, x3, y3, thickness } => -b <= x1 <= b && -b <= y1 <= b
            && -b <= x2 <= b && -b <= y2 <= b && -b <= x3 <= b && -b <= y3 <= b,
    }
}

/// Translates every primitive of a bounded list.
fn translate_all(v: Vec<Shape>, dx: Fx, dy: Fx) -> (r: Vec<Shape>)
    requires
        -(3 * FX_MAX as int) <= dx as int <= 3 * FX_MAX as int,
        -(3 * FX_MAX as int) <= dy as int <= 3 * FX_MAX as int,
        forall|i: int|
            0 <= i < v@.len() ==> shape_bounded(#[trigger] v@[i], SHAPE_COORD_MAX as int),
    ensures
        r@ == v@.map_values(|s: Shape| translate_shape(s, dx as int, dy as int)),
{
    let ghost target = v@.map_values(|s: Shape| translate_shape(s, dx as int, dy as int));
    let mut r: Vec<Shape> = Vec::new();
    let mut i: usize = 0;
    while i < v.len()
        invariant
            0 <= i <= v@.len(),
            -(3 * FX_MAX as int) <= dx as int <= 3 * FX_MAX as int,
            -(3 * FX_MAX as int) <= dy as int <= 3 * FX_MAX as int,
            forall|k: int|
                0 <= k < v@.len() ==> shape_bounded(#[trigger] v@[k], SHAPE_COORD_MAX as int),
            target == v@.map_values(|s: Shape| translate_shape(s, dx as int, dy as int)),
            r@ == target.take(i as int),
        decreases v@.len() - i,
    {
        let s = match v[i] {
            Shape::Line { x1, y1, x2, y2, thickness } => Shape::Line {
                x1: x1 + dx,
                y1: y1 + dy,
                x2: x2 + dx,
                y2: y2 + dy,
                thickness,
            },
            Shape::Rect { x1, y1, x2, y2, thickness, rounding, filled } => Shape::Rect {
                x1: x1 + dx,
                y1: y1 + dy,
                x2: x2 + dx,
                y2: y2 + dy,
                thickness,
                rounding,
                filled,
            },
            Shape::Circle { cx, cy, radius, filled } => Shape::Circle {
                cx: cx + dx,
                cy: cy + dy,
                radius,
                filled,
            },
            Shape::Triangle { x1, y1, x2, y2, x3, y3, thickness } => Shape::Triangle {
                x1: x1 + dx,
                y1: y1 + dy,
                x2: x2 + dx,
                y2: y2 + dy,
                x3: x3 + dx,
                y3: y3 + dy,
                thickness,
            },
        };
        proof {
            assert(s == translate_shape(v@[i as int], dx as int, dy as int));
        }
        r.push(s);
        proof {
            assert(r@ =~= target.take(i + 1));
        }
        i += 1;
    }
    proof {
        assert(target.take(v@.len() as int) =~= target);
    }
    r
}

/// Builds the named shape around the origin.
#[verifier::rlimit(100)]
fn named_shape(t: &Vec<u8>, size: Fx) -> (r: Vec<Shape>)
    requires
        100 <= size as int <= FX_MAX as int,
    ensures
        r@ == named_shape_at_origin(t@, size as int),
        forall|i: int|
            0 <= i < r@.len() ==> shape_bounded(#[trigger] r@[i], SHAPE_COORD_MAX as int),
{
    proof {
        reveal_strlit("svg1");
        reveal_strlit("svg2");
        reveal_strlit("svg3");
        reveal_strlit("svg4");
        reveal_strlit("svg5");
    }
    let half = size / 2;
    let mut r: Vec<Shape> = Vec::new();
    if crate::text::bytes_eq_lit(t, "svg1") {
        let th = size * 15 / 100;
        r.push(Shape::Line { x1: -half, y1: 0, x2: half, y2: 0, thickness: th });
        r.push(Shape::Line { x1: 0, y1: -half, x2: 0, y2: half, thickness: th });
        r.push(Shape::Circle { cx: 0, cy: 0, radius: size * 10 / 100, filled: true });
        proof {
            assert(r@ =~= named_shape_at_origin(t@, size as int));
        }
    } else if crate::text::bytes_eq_lit(t, "svg2") {
        r.push(Shape::Rect {
            x1: -half,
            y1: -half,
            x2: half,
            y2: half,
            thickness: size * 10 / 100,
            rounding: size * 20 / 100,
            filled: false,
        });
        r.push(Shape::Circle { cx: 0, cy: 0, radius: size * 10 / 100, filled: true });
        proof {
            assert(r@ =~= named_shape_at_origin(t@, size as int));
        }
    } else if crate::text::bytes_eq_lit(t, "svg3") {
        r.push(Shape::Triangle {
            x1: 0,
            y1: -half,
            x2: half,
            y2: half,
            x3: -half,
            y3: half,
            thickness: size * 10 / 100,
        });
        r.push(Shape::Circle { cx: 0, cy: 0, radius: size * 10 / 100, filled: true });
        proof {
            assert(r@ =~= named_shape_at_origin(t@, size as int));
        }
    } else if crate::text::bytes_eq_lit(t, "svg4") {
        let th = size * 10 / 100;
        let gap = size * 20 / 100;
        r.push(Shape::Line { x1: 0, y1: -half, x2: 0, y2: -gap, thickness: th });
        r.push(Shape::Line { x1: 0, y1: half, x2: 0, y2: gap, thickness: th });
        r.push(Shape::Line { x1: -half, y1: 0, x2: -gap, y2: 0, thickness: th });
        r.push(Shape::Line { x1: half, y1: 0, x2: gap, y2: 0, thickness: th });
        r.push(Shape::Circle { cx: 0, cy: 0, radius: size * 5 / 100, filled: true });
        proof {
            assert(r@ =~= named_shape_at_origin(t@, size as int));
        }
    } else if crate::text::bytes_eq_lit(t, "svg5") {
        r.push(Shape::Circle { cx: 0, cy: 0, radius: half, filled: true });
        proof {
            assert(r@ =~= named_shape_at_origin(t@, size as int));
        }
    } else {
        proof {
            assert(r@ =~= named_shape_at_origin(t@, size as int));
        }
    }
    r
}

/// Whether a configured shape name is one of the five built-in shapes.
pub fn is_recognized_shape(t: &Vec<u8>) -> (r: bool)
    ensures
        r == recognized_shape(t@),
{
    proof {
        reveal_strlit("svg1");
        reveal_strlit("svg2");
        reveal_strlit("svg3");
        reveal_strlit("svg4");
        reveal_strlit("svg5");
    }
    crate::text::bytes_eq_lit(t, "svg1") || crate::text::bytes_eq_lit(t, "svg2")
        || crate::text::bytes_eq_lit(t, "svg3") || crate::text::bytes_eq_lit(t, "svg4")
        || crate::text::bytes_eq_lit(t, "svg5")
}

/// Builds the filled squares of a grid crosshair around the origin.
#[verifier::rlimit(100)]
fn grid_shapes_exec(g: &Vec<Vec<bool>>, size: Fx) -> (r: Vec<Shape>)
    requires
        100 <= size as int <= FX_MAX as int,
    ensures
        r@ == grid_shapes(g.deep_view(), size as int),
        forall|i: int|
            0 <= i < r@.len() ==> shape_bounded(#[trigger] r@[i], SHAPE_COORD_MAX as int),
{
    let ghost gv = g.deep_view();
    proof {
        assert(gv.len() == g@.len());
    }
    let rows = g.len();
    let mut r: Vec<Shape> = Vec::new();
    if rows == 0 {
        proof {
            assert(r@ =~= grid_shapes(gv, size as int));
        }
        return r;
    }
    let cols = g[0].len();
    proof {
        assert(gv[0] =~= g@[0]@);
    }
    // check that the grid is rectangular; a ragged grid draws nothing
    let mut i: usize = 0;
    while i < rows
        invariant
            gv == g.deep_view(),
            0 <= i <= rows,
            rows == gv.len(),
            rows == g@.len(),
            cols == gv[0].len(),
            r@.len() == 0,
            forall|k: int| 0 <= k < i ==> #[trigger] gv[k].len() == gv[0].len(),
        decreases rows - i,
    {
        proof {
            assert(gv[i as int] == g@[i as int].deep_view());
            assert(g@[i as int].deep_view() =~= g@[i as int]@);
        }
        if g[i].len() != cols {
            proof {
                assert(gv[i as int].len() != gv[0].len());
                assert(!rectangular(gv));
                assert(r@ =~= grid_shapes(gv, size as int));
            }
            return r;
        }
        i += 1;
    }
    proof {
        assert(rectangular(gv));
    }
    let longer: usize = if rows > cols {
        rows
    } else {
        cols
    };
    // more cells across than size units: the cells degenerate to zero
    let cell: i64 = if longer as u64 > size as u64 {
        proof {
            vstd::arithmetic::div_mod::lemma_basic_div(size as int, longer as int);
        }
        0
    } else {
        size / (longer as i64)
    };
    proof {
        assert(cell as int == size as int / (longer as int));
        assert(0 <= cell as int <= size as int);
        assert((cols as int) * (cell as int) <= size as int) by {
            lemma_dim_cell_bound(size as int, longer as int, cols as int);
        }
        assert((rows as int) * (cell as int) <= size as int) by {
            lemma_dim_cell_bound(size as int, longer as int, rows as int);
        }
        if cell > 0 {
            assert(longer as u64 <= size as u64);
        }
    }
    let gw: i64 = if cell == 0 {
        0
    } else {
        (cols as i64) * cell
    };
    let gh: i64 = if cell == 0 {
        0
    } else {
        (rows as i64) * cell
    };
    proof {
        if cell == 0 {
            assert((cols as int) * (cell as int) == 0) by (nonlinear_arith)
                requires
                    cell as int == 0,
            ;
            assert((rows as int) * (cell as int) == 0) by (nonlinear_arith)
                requires
                    cell as int == 0,
            ;
        }
        assert(gw as int == (cols as int) * (cell as int));
        assert(gh as int == (rows as int) * (cell as int));
    }
    let sx: i64 = -(gw / 2);
    let sy: i64 = -(gh / 2);
    let ghost target = grid_cells(gv, cell as int, sx as int, sy as int);
    let mut i: usize = 0;
    while i < rows
        invariant
            gv == g.deep_view(),
            0 <= i <= rows,
            rows == gv.len(),
            cols == gv[0].len(),
            rows == g@.len(),
            rectangular(gv),
            1 <= rows,
            cell as int > 0 ==> rows as int <= size as int && cols as int <= size as int,
            100 <= size as int <= FX_MAX as int,
            0 <= cell as int <= size as int,
            (cols as int) * (cell as int) <= size as int,
            (rows as int) * (cell as int) <= size as int,
            -(FX_MAX as int) <= sx as int <= 0,
            -(FX_MAX as int) <= sy as int <= 0,
            r@ == grid_cells(gv.take(i as int), cell as int, sx as int, sy as int),
            forall|k: int|
                0 <= k < r@.len() ==> shape_bounded(#[trigger] r@[k], SHAPE_COORD_MAX as int),
        decreases rows - i,
    {
        let row = &g[i];
        proof {
            assert(gv[i as int] == g@[i as int].deep_view());
            assert(g@[i as int].deep_view() =~= g@[i as int]@);
            assert(gv[i as int].len() == gv[0].len());
        }
        let mut j: usize = 0;
        while j < cols
            invariant
                gv == g.deep_view(),
                0 <= j <= cols,
                0 <= i < rows,
                rows == gv.len(),
                cols == gv[0].len(),
                row@ == gv[i as int],
                row@.len() == cols,
                rows == g@.len(),
                rectangular(gv),
                1 <= rows,
                cell as int > 0 ==> rows as int <= size as int && cols as int <= size as int,
                100 <= size as int <= FX_MAX as int,
                0 <= cell as int <= size as int,
                (cols as int) * (cell as int) <= size as int,
                (rows as int) * (cell as int) <= size as int,
                -(FX_MAX as int) <= sx as int <= 0,
                -(FX_MAX as int) <= sy as int <= 0,
                r@ == grid_cells(gv.take(i as int), cell as int, sx as int, sy as int)
                    + row_cells(row@.take(j as int), i as int, cell as int, sx as int, sy as int),
                forall|k: int|
                    0 <= k < r@.len() ==> shape_bounded(#[trigger] r@[k], SHAPE_COORD_MAX as int),
            decreases cols - j,
        {
            if row[j] {
                proof {
                    assert((j as int) * (cell as int) <= (cols as int) * (cell as int)) by {
                        vstd::arithmetic::mul::lemma_mul_inequality(
                            j as int,
                            cols as int,
                            cell as int,
                        );
                    }
                    assert((i as int) * (cell as int) <= (rows as int) * (cell as int)) by {
                        vstd::arithmetic::mul::lemma_mul_inequality(
                            i as int,
                            rows as int,
                            cell as int,
                        );
                    }
                    assert((j as int) * (cell as int) >= 0) by {
                        vstd::arithmetic::mul::lemma_mul_nonnegative(j as int, cell as int);
                    }
                    assert((i as int) * (cell as int) >= 0) by {
                        vstd::arithmetic::mul::lemma_mul_nonnegative(i as int, cell as int);
                    }
                }
                let xoff: i64 = if cell == 0 {
                    0
                } else {
                    (j as i64) * cell
                };
                let yoff: i64 = if cell == 0 {
                    0
                } else {
                    (i as i64) * cell
                };
                proof {
                    assert(xoff as int == (j as int) * (cell as int));
                    assert(yoff as int == (i as int) * (cell as int));
                }
                let x1 = sx + xoff;
                let y1 = sy + yoff;
                r.push(Shape::Rect {
                    x1,
                    y1,
                    x2: x1 + cell,
                    y2: y1 + cell,
                    thickness: 0,
                    rounding: 0,
                    filled: true,
                });
            }
            proof {
                assert(row@.take(j + 1).drop_last() =~= row@.take(j as int));
                assert(row@.take(j + 1).last() == row@[j as int]);
                assert(row@.take(j + 1).len() == j + 1);
                assert(r@ =~= grid_cells(gv.take(i as int), cell as int, sx as int, sy as int)
                    + row_cells(row@.take(j + 1), i as int, cell as int, sx as int, sy as int));
            }
            j += 1;
        }
        proof {
            assert(row@.take(cols as int) =~= row@);
            assert(gv.take(i + 1).drop_last() =~= gv.take(i as int));
            assert(gv.take(i + 1).last() == gv[i as int]);
            assert(r@ =~= grid_cells(gv.take(i + 1), cell as int, sx as int, sy as int));
        }
        i += 1;
    }
    proof {
        assert(gv.take(rows as int) =~= gv);
    }
    r
}

/// The longer dimension divides the size into cells that never overrun it.
proof fn lemma_dim_cell_bound(size: int, longer: int, dim: int)
    requires
        1 <= longer,
        0 <= dim <= longer,
        0 <= size,
    ensures
        dim * (size / longer) <= size,
{
    vstd::arithmetic::div_mod::lemma_fundamental_div_mod(size, longer);
    assert(longer * (size / longer) <= size);
    assert(size / longer >= 0) by {
        vstd::arithmetic::div_mod::lemma_div_is_ordered(0, size, longer);
    }
    assert(dim * (size / longer) <= longer * (size / longer)) by {
        vstd::arithmetic::mul::lemma_mul_inequality(dim, longer, size / longer);
    }
}

/// What the crosshair feature draws on a frame.
pub fn render_crosshair(c: &OverlayCrosshairData, w: Fx, h: Fx) -> (r: Vec<Shape>)
    requires
        crate::config::valid_crosshair(c@),
        valid_screen(w as int),
        valid_screen(h as int),
    ensures
        r@ == crosshair_shapes(c@, w as int, h as int),
{
    if !c.enabled {
        let r: Vec<Shape> = Vec::new();
        proof {
            assert(r@ =~= crosshair_shapes(c@, w as int, h as int));
        }
        return r;
    }
    if crate::hexcolor::parse_hex_color(&c.color).is_none() {
        let r: Vec<Shape> = Vec::new();
        proof {
            assert(r@ =~= crosshair_shapes(c@, w as int, h as int));
        }
        return r;
    }
    let size: i64 = if c.size < 100 {
        100
    } else {
        c.size
    };
    let cx = w / 2 + c.offset_x;
    let cy = h / 2 + c.offset_y;
    let origin: Vec<Shape> = match &c.crosshair_type {
        Option::Some(t) => {
            if is_recognized_shape(t) {
                named_shape(t, size)
            } else {
                match &c.grid {
                    Option::Some(g) => grid_shapes_exec(g, size),
                    Option::None => {
                        let v: Vec<Shape> = Vec::new();
                        proof {
                            assert(v@ =~= crosshair_at_origin(c@));
                        }
                        v
                    },
                }
            }
        },
        Option::None => {
            match &c.grid {
                Option::Some(g) => grid_shapes_exec(g, size),
                Option::None => {
                    let mut v: Vec<Shape> = Vec::new();
                    v.push(Shape::Circle { cx: 0, cy: 0, radius: size / 2, filled: true });
                    proof {
                        assert(v@ =~= crosshair_at_origin(c@));
                    }
                    v
                },
            }
        },
    };
    proof {
        assert(origin@ == crosshair_at_origin(c@));
    }
    let r = translate_all(origin, cx, cy);
    proof {
        assert(r@ =~= crosshair_shapes(c@, w as int, h as int));
    }
    r
}

// ---------------------------------------------------------------------------
// FPS counter
// ---------------------------------------------------------------------------

/// Base font size the configured size is scaled against, in hundredths of
/// a point.
pub const FONT_BASE: i64 = 1400;

/// Largest measured text dimension the layout accepts.
pub const TEXT_DIM_MAX: i64 = 1_000_000;

/// Where and how the FPS counter draws its panel.
#[derive(Clone, Copy, Debug, PartialEq, Eq, Structural)]
pub struct FpsLayout {
    pub win_w: Fx,
    pub win_h: Fx,
    pub pos_x: Fx,
    pub pos_y: Fx,
    pub pivot_x: Fx,
    pub pivot_y: Fx,
    pub text_color: Rgba,
    pub bg_color: Rgba,
    pub bg_opacity: Fx,
    pub font_size: Fx,
}

/// The font size the panel scales text with: never negative.
pub open spec fn clamped_font(size: int) -> int {
    if size < 0 {
        0
    } else {
        size
    }
}

/// The panel layout of the FPS counter: the measured text scaled by the
/// configured font size plus padding, anchored to one of the four screen
/// corners by the configured margin, with the configured colours falling
/// back to white text on black when they do not parse.
pub open spec fn spec_fps_layout(f: FpsView, w: int, h: int, text_w: int, text_h: int) -> FpsLayout {
    let font = clamped_font(f.size);
    let win_w = text_w * font / (FONT_BASE as int) + 2 * f.padding;
    let win_h = text_h * font / (FONT_BASE as int) + 2 * f.padding;
    let text_color = match spec_parse_hex(f.text_color) {
        Option::Some(c) => Rgba { r: c.r, g: c.g, b: c.b, a: 255 },
        Option::None => Rgba { r: 255, g: 255, b: 255, a: 255 },
    };
    let bg_color = match spec_parse_hex(f.bg_color) {
        Option::Some(c) => Rgba { r: c.r, g: c.g, b: c.b, a: 255 },
        Option::None => Rgba { r: 0, g: 0, b: 0, a: 255 },
    };
    let corner: (int, int, int, int) = if f.position == lit_bytes("TopRight") {
        (w - f.margin, f.margin, 100, 0)
    } else if f.position == lit_bytes("BottomLeft") {
        (f.margin, h - f.margin, 0, 100)
    } else if f.position == lit_bytes("BottomRight") {
        (w - f.margin, h - f.margin, 100, 100)
    } else {
        (f.margin, f.margin, 0, 0)
    };
    FpsLayout {
        win_w: win_w as i64,
        win_h: win_h as i64,
        pos_x: corner.0 as i64,
        pos_y: corner.1 as i64,
        pivot_x: corner.2 as i64,
        pivot_y: corner.3 as i64,
        text_color,
        bg_color,
        bg_opacity: f.bg_opacity as i64,
        font_size: font as i64,
    }
}

/// Computes the FPS panel layout for one frame.
#[verifier::rlimit(100)]
pub fn fps_layout(f: &FpsConfig, w: Fx, h: Fx, text_w: Fx, text_h: Fx) -> (r: FpsLayout)
    requires
        crate::config::valid_fps(f@),
        valid_screen(w as int),
        valid_screen(h as int),
        0 <= text_w <= TEXT_DIM_MAX,
        0 <= text_h <= TEXT_DIM_MAX,
    ensures
        r == spec_fps_layout(f@, w as int, h as int, text_w as int, text_h as int),
{
    proof {
        reveal_strlit("TopRight");
        reveal_strlit("BottomLeft");
        reveal_strlit("BottomRight");
    }
    let font: i64 = if f.size < 0 {
        0
    } else {
        f.size
    };
    proof {
        assert((text_w as int) * (font as int) <= 1000000000000000000int) by (nonlinear_arith)
            requires
                0 <= text_w <= TEXT_DIM_MAX,
                0 <= font <= FX_MAX,
        ;
        assert((text_h as int) * (font as int) <= 1000000000000000000int) by (nonlinear_arith)
            requires
                0 <= text_h <= TEXT_DIM_MAX,
                0 <= font <= FX_MAX,
        ;
        assert((text_w as int) * (font as int) >= 0) by (nonlinear_arith)
            requires
                0 <= text_w && 0 <= font,
        ;
        assert((text_h as int) * (font as int) >= 0) by (nonlinear_arith)
            requires
                0 <= text_h && 0 <= font,
        ;
    }
    let win_w = text_w * font / FONT_BASE + 2 * f.padding;
    let win_h = text_h * font / FONT_BASE + 2 * f.padding;
    let text_color = match crate::hexcolor::parse_hex_color(&f.text_color) {
        Option::Some(c) => Rgba { r: c.r, g: c.g, b: c.b, a: 255 },
        Option::None => Rgba { r: 255, g: 255, b: 255, a: 255 },
    };
    let bg_color = match crate::hexcolor::parse_hex_color(&f.bg_color) {
        Option::Some(c) => Rgba { r: c.r, g: c.g, b: c.b, a: 255 },
        Option::None => Rgba { r: 0, g: 0, b: 0, a: 255 },
    };
    let (pos_x, pos_y, pivot_x, pivot_y): (i64, i64, i64, i64) = if crate::text::bytes_eq_lit(
        &f.position,
        "TopRight",
    ) {
        (w - f.margin, f.margin, 100, 0)
    } else if crate::text::bytes_eq_lit(&f.position, "BottomLeft") {
        (f.margin, h - f.margin, 0, 100)
    } else if crate::text::bytes_eq_lit(&f.position, "BottomRight") {
        (w - f.margin, h - f.margin, 100, 100)
    } else {
        (f.margin, f.margin, 0, 0)
    };
    FpsLayout {
        win_w,
        win_h,
        pos_x,
        pos_y,
        pivot_x,
        pivot_y,
        text_color,
        bg_color,
        bg_opacity: f.bg_opacity,
        font_size: font,
    }
}

/// The crosshair feature: stateless, its drawing depends on the overlay
/// state alone.
pub struct CrosshairFeature;

impl CrosshairFeature {
    /// A fresh crosshair feature.
    pub fn new() -> (r: Self) {
        CrosshairFeature
    }

    /// What the crosshair draws this frame.
    pub fn render(&self, c: &OverlayCrosshairData, w: Fx, h: Fx) -> (r: Vec<Shape>)
        requires
            crate::config::valid_crosshair(c@),
            valid_screen(w as int),
            valid_screen(h as int),
        ensures
            r@ == crosshair_shapes(c@, w as int, h as int),
    {
        render_crosshair(c, w, h)
    }
}

/// The FPS feature's accumulator: once a second it samples the frame rate.
pub struct FpsFeature {
    pub timer: Fx,
    pub value: Fx,
}

/// The accumulator is between samples: less than one second on the clock.
pub open spec fn fps_feature_wf(f: FpsFeature) -> bool {
    0 <= f.timer < 100 && valid_fx(f.value as int)
}

/// One frame of the FPS accumulator: the elapsed time is added, and when a
/// second has passed the displayed value is refreshed and the clock reset.
pub open spec fn spec_fps_tick(f: FpsFeature, delta: int, framerate: int) -> FpsFeature {
    if f.timer + delta >= 100 {
        FpsFeature { timer: 0, value: framerate as i64 }
    } else {
        FpsFeature { timer: (f.timer + delta) as i64, value: f.value }
    }
}

impl FpsFeature {
    /// A fresh accumulator: no time elapsed, showing zero.
    pub fn new() -> (r: Self)
        ensures
            r.timer == 0,
            r.value == 0,
            fps_feature_wf(r),
    {
        FpsFeature { timer: 0, value: 0 }
    }

    /// Advances the accumulator by one frame.
    pub fn tick(&mut self, delta: Fx, framerate: Fx)
        requires
            fps_feature_wf(*old(self)),
            0 <= delta <= FX_MAX,
            valid_fx(framerate as int),
        ensures
            *final(self) == spec_fps_tick(*old(self), delta as int, framerate as int),
            fps_feature_wf(*final(self)),
    {
        let t = self.timer + delta;
        if t >= 100 {
            self.value = framerate;
            self.timer = 0;
        } else {
            self.timer = t;
        }
    }
}

// ---------------------------------------------------------------------------
// The frame plan
// ---------------------------------------------------------------------------

/// Everything the render callback draws on one frame, in its fixed order:
/// the FPS panel, then the crosshair, then the notification panel. When
/// `hidden` is set, nothing else is drawn but a degenerate invisible
/// window, kept to avoid an empty draw list.
pub struct FramePlan {
    pub hidden: bool,
    pub fps: Option<FpsLayout>,
    pub crosshair: Vec<Shape>,
    pub crosshair_color: Option<Rgba>,
    pub notifications: bool,
}

/// Law: with the overlay disabled the frame holds only the degenerate
/// invisible placeholder — no feature content of any kind.
pub open spec fn frame_plan_ok(
    s: crate::state::StateView,
    w: int,
    h: int,
    text_w: int,
    text_h: int,
    notifications_active: bool,
    r: FramePlan,
) -> bool {
    &&& r.hidden == !s.enabled
    &&& !s.enabled ==> r.fps is None && r.crosshair@ == Seq::<Shape>::empty()
        && r.crosshair_color is None && !r.notifications
    &&& s.enabled ==> r.crosshair@ == crosshair_shapes(s.crosshair, w, h)
    &&& s.enabled && s.crosshair.enabled ==> r.crosshair_color == spec_parse_hex(s.crosshair.color)
    &&& s.enabled && !s.crosshair.enabled ==> r.crosshair_color is None
    &&& s.enabled && s.fps.enabled ==> r.fps == Option::Some(
        spec_fps_layout(s.fps, w, h, text_w, text_h),
    )
    &&& s.enabled && !s.fps.enabled ==> r.fps is None
    &&& s.enabled ==> r.notifications == notifications_active
}

/// Decides what one frame draws from the overlay state, the screen, the
/// measured FPS text, and whether a notification is still active.
pub fn plan_frame(
    state: &OverlayState,
    w: Fx,
    h: Fx,
    text_w: Fx,
    text_h: Fx,
    notifications_active: bool,
) -> (r: FramePlan)
    requires
        crate::state::valid_state(state@),
        valid_screen(w as int),
        valid_screen(h as int),
        0 <= text_w <= TEXT_DIM_MAX,
        0 <= text_h <= TEXT_DIM_MAX,
    ensures
        frame_plan_ok(
            state@,
            w as int,
            h as int,
            text_w as int,
            text_h as int,
            notifications_active,
            r,
        ),
{
    if !state.enabled {
        return FramePlan {
            hidden: true,
            fps: Option::None,
            crosshair: Vec::new(),
            crosshair_color: Option::None,
            notifications: false,
        };
    }
    let fps = if state.fps.enabled {
        Option::Some(fps_layout(&state.fps, w, h, text_w, text_h))
    } else {
        Option::None
    };
    let feature = CrosshairFeature::new();
    let crosshair = feature.render(&state.crosshair, w, h);
    let crosshair_color = if state.crosshair.enabled {
        crate::hexcolor::parse_hex_color(&state.crosshair.color)
    } else {
        Option::None
    };
    FramePlan {
        hidden: false,
        fps,
        crosshair,
        crosshair_color,
        notifications: notifications_active,
    }
}

// ---------------------------------------------------------------------------
// Proportionality of the named shapes
// ---------------------------------------------------------------------------

/// Scaling a size multiple of one pixel by `k` scales each derived
/// coefficient by `k`.
proof fn lemma_coef_scales(m: int, k: int, c: int)
    requires
        1 <= m,
        1 <= k,
        1 <= c,
    ensures
        ((100 * m * k) * c) / 100 == k * (((100 * m) * c) / 100),
{
    assert((100 * m) * c == 100 * (m * c)) by (nonlinear_arith);
    assert(((100 * m) * c) / 100 == m * c) by {
        vstd::arithmetic::div_mod::lemma_div_multiples_vanish(m * c, 100);
    }
    assert((100 * m * k) * c == 100 * (m * k * c)) by (nonlinear_arith);
    assert(((100 * m * k) * c) / 100 == m * k * c) by {
        vstd::arithmetic::div_mod::lemma_div_multiples_vanish(m * k * c, 100);
    }
    assert(k * (m * c) == m * k * c) by (nonlinear_arith);
}

/// Halving scales the same way.
proof fn lemma_half_scales(m: int, k: int)
    requires
        1 <= m,
        1 <= k,
    ensures
        (100 * m * k) / 2 == k * ((100 * m) / 2),
{
    assert(100 * m == 2 * (50 * m)) by (nonlinear_arith);
    assert((100 * m) / 2 == 50 * m) by {
        vstd::arithmetic::div_mod::lemma_div_multiples_vanish(50 * m, 2);
    }
    assert(100 * m * k == 2 * (50 * m * k)) by (nonlinear_arith);
    assert((100 * m * k) / 2 == 50 * m * k) by {
        vstd::arithmetic::div_mod::lemma_div_multiples_vanish(50 * m * k, 2);
    }
    assert(k * (50 * m) == 50 * m * k) by (nonlinear_arith);
}

/// Law: each built-in shape is sized proportionally to the configured
/// size — for a whole-pixel size, drawing at `k` times the size yields
/// exactly the same primitives with every coordinate, radius and
/// thickness multiplied by `k`.
#[verifier::rlimit(100)]
pub proof fn lemma_named_shape_scales(t: Seq<u8>, size: int, k: int)
    requires
        recognized_shape(t),
        100 <= size,
        size % 100 == 0,
        1 <= k,
        size * k <= FX_MAX as int,
    ensures
        named_shape_at_origin(t, size * k) == named_shape_at_origin(t, size).map_values(
            |s: Shape| scale_shape(s, k),
        ),
{
    let m = size / 100;
    assert(size == 100 * m) by {
        vstd::arithmetic::div_mod::lemma_fundamental_div_mod(size, 100);
    }
    assert(1 <= m);
    assert(size * k == 100 * m * k);
    lemma_coef_scales(m, k, 5);
    lemma_coef_scales(m, k, 10);
    lemma_coef_scales(m, k, 15);
    lemma_coef_scales(m, k, 20);
    lemma_half_scales(m, k);
    // every scaled quantity stays within the fixed-point range
    assert(0 <= size * 15 / 100 <= size && 0 <= size * 10 / 100 <= size && 0 <= size * 20 / 100
        <= size && 0 <= size * 5 / 100 <= size && 0 <= size / 2 <= size) by {
        lemma_coef_le_size(size, 5);
        lemma_coef_le_size(size, 10);
        lemma_coef_le_size(size, 15);
        lemma_coef_le_size(size, 20);
        vstd::arithmetic::div_mod::lemma_div_is_ordered(0, size, 2);
        vstd::arithmetic::div_mod::lemma_div_is_ordered_by_denominator(size, 1, 2);
    }
    let big = size * k;
    assert(size <= big) by (nonlinear_arith)
        requires
            1 <= k && 100 <= size && big == size * k,
    ;
    assert(0 <= big * 15 / 100 <= big && 0 <= big * 10 / 100 <= big && 0 <= big * 20 / 100 <= big
        && 0 <= big * 5 / 100 <= big && 0 <= big / 2 <= big) by {
        lemma_coef_le_size(big, 5);
        lemma_coef_le_size(big, 10);
        lemma_coef_le_size(big, 15);
        lemma_coef_le_size(big, 20);
        vstd::arithmetic::div_mod::lemma_div_is_ordered(0, big, 2);
        vstd::arithmetic::div_mod::lemma_div_is_ordered_by_denominator(big, 1, 2);
    }
    let c5 = size * 5 / 100;
    let c10 = size * 10 / 100;
    let c15 = size * 15 / 100;
    let c20 = size * 20 / 100;
    let h = size / 2;
    assert(c5 * k == k * c5 && (-c5) * k == -(k * c5)) by (nonlinear_arith);
    assert(c10 * k == k * c10 && (-c10) * k == -(k * c10)) by (nonlinear_arith);
    assert(c15 * k == k * c15 && (-c15) * k == -(k * c15)) by (nonlinear_arith);
    assert(c20 * k == k * c20 && (-c20) * k == -(k * c20)) by (nonlinear_arith);
    assert(h * k == k * h && (-h) * k == -(k * h)) by (nonlinear_arith);
    assert(0 <= k * c5 <= big && 0 <= k * c10 <= big && 0 <= k * c15 <= big && 0 <= k * c20 <= big
        && 0 <= k * h <= big) by (nonlinear_arith)
        requires
            0 <= c5 <= size && 0 <= c10 <= size && 0 <= c15 <= size && 0 <= c20 <= size && 0 <= h
                <= size && 1 <= k && big == size * k,
    ;
    assert(0 * k == 0) by (nonlinear_arith);
    let lhs = named_shape_at_origin(t, size * k);
    let orig = named_shape_at_origin(t, size);
    let rhs = orig.map_values(|s: Shape| scale_shape(s, k));
    assert(lhs.len() == rhs.len());
    if t == lit_bytes("svg1") {
        assert(rhs[0] == scale_shape(orig[0], k));
        assert(lhs[0] == rhs[0]);
        assert(rhs[1] == scale_shape(orig[1], k));
        assert(lhs[1] == rhs[1]);
        assert(rhs[2] == scale_shape(orig[2], k));
        assert(lhs[2] == rhs[2]);
    } else if t == lit_bytes("svg2") {
        assert(rhs[0] == scale_shape(orig[0], k));
        assert(lhs[0] == rhs[0]);
        assert(rhs[1] == scale_shape(orig[1], k));
        assert(lhs[1] == rhs[1]);
    } else if t == lit_bytes("svg3") {
        assert(rhs[0] == scale_shape(orig[0], k));
        assert(lhs[0] == rhs[0]);
        assert(rhs[1] == scale_shape(orig[1], k));
        assert(lhs[1] == rhs[1]);
    } else if t == lit_bytes("svg4") {
        assert(rhs[0] == scale_shape(orig[0], k));
        assert(lhs[0] == rhs[0]);
        assert(rhs[1] == scale_shape(orig[1], k));
        assert(lhs[1] == rhs[1]);
        assert(rhs[2] == scale_shape(orig[2], k));
        assert(lhs[2] == rhs[2]);
        assert(rhs[3] == scale_shape(orig[3], k));
        assert(lhs[3] == rhs[3]);
        assert(rhs[4] == scale_shape(orig[4], k));
        assert(lhs[4] == rhs[4]);
    } else {
        assert(rhs[0] == scale_shape(orig[0], k));
        assert(lhs[0] == rhs[0]);
    }
    assert(lhs =~= rhs);
}

/// A percentage of a non-negative size never exceeds it.
proof fn lemma_coef_le_size(size: int, c: int)
    requires
        0 <= size,
        1 <= c <= 100,
    ensures
        0 <= (size * c) / 100 <= size,
{
    assert(0 <= size * c <= size * 100) by (nonlinear_arith)
        requires
            0 <= size && 1 <= c <= 100,
    ;
    assert((size * c) / 100 <= (size * 100) / 100) by {
        vstd::arithmetic::div_mod::lemma_div_is_ordered(size * c, size * 100, 100);
    }
    assert((size * 100) / 100 == size) by {
        assert(size * 100 == 100 * size) by (nonlinear_arith);
        vstd::arithmetic::div_mod::lemma_div_multiples_vanish(size, 100);
    }
    assert(0 <= (size * c) / 100) by {
        vstd::arithmetic::div_mod::lemma_div_is_ordered(0, size * c, 100);
    }
}

} // verus!
