//! A shape placed on an otherwise dead board: what the detector finds of
//! it, and how a glider travels.

use vstd::prelude::*;
use crate::board::{
    cell_index,
    lemma_cell_index,
    lemma_index_coordinates,
    valid_dimensions,
    Board,
    BoardError,
    BoardView,
    MAX_CELLS,
};
use crate::detect::{detect_spec, marks, window, window_index};
use crate::life::{lemma_wrap, neighbor, neighbor_count, next_state, step_n, step_spec, wrap};
use crate::pattern::{
    bent_glider_spec,
    encode_spec,
    library_spec,
    rotated,
    straight_glider_spec,
    SHAPE_CELLS,
};

verus! {

/// How far `coord` lies beyond `origin` on an axis of length `dim` whose
/// two ends are joined.
pub open spec fn offset(coord: int, origin: int, dim: int) -> int {
    (coord - origin) % dim
}

/// Whether the cell in column `rx` and row `ry` of a shape is alive. No
/// cell outside the shape is.
pub open spec fn shape_cell(shape: Seq<bool>, rx: int, ry: int) -> bool {
    0 <= rx < 5 && 0 <= ry < 5 && shape[ry * 5 + rx]
}

/// The board on which the cells of `shape`, its first cell at `(x0, y0)`,
/// are the only live ones. Both axes wrap.
pub open spec fn placed(shape: Seq<bool>, width: nat, height: nat, x0: int, y0: int) -> BoardView {
    BoardView {
        width,
        height,
        cells: Seq::new(
            width * height,
            |i: int|
                shape_cell(
                    shape,
                    offset(i % (width as int), x0, width as int),
                    offset(i / (width as int), y0, height as int),
                ),
        ),
    }
}

/// Whether a shape can be placed at `(x0, y0)` on a board of the given
/// dimensions: the board is at least as large as the shape.
pub open spec fn placeable(width: nat, height: nat, x0: int, y0: int) -> bool {
    &&& valid_dimensions(width as int, height as int)
    &&& 5 <= width
    &&& 5 <= height
    &&& 0 <= x0 < width
    &&& 0 <= y0 < height
}

/// The offset of a coordinate from an origin, without the remainder.
pub proof fn lemma_offset(coord: int, origin: int, dim: int)
    requires
        0 <= coord < dim,
        0 <= origin < dim,
    ensures
        0 <= offset(coord, origin, dim) < dim,
        offset(coord, origin, dim) == if coord >= origin {
            coord - origin
        } else {
            coord - origin + dim
        },
{
    let diff: int = coord - origin;
    if coord >= origin {
        vstd::arithmetic::div_mod::lemma_fundamental_div_mod_converse(diff, dim, 0, diff);
    } else {
        vstd::arithmetic::div_mod::lemma_fundamental_div_mod_converse(diff, dim, -1, diff + dim);
    }
}

/// A coordinate `a` places beyond an origin, without the remainder.
pub proof fn lemma_beyond(origin: int, a: int, dim: int)
    requires
        0 <= origin < dim,
        0 <= a < dim,
    ensures
        0 <= (origin + a) % dim < dim,
        (origin + a) % dim == if origin + a < dim {
            origin + a
        } else {
            origin + a - dim
        },
        offset((origin + a) % dim, origin, dim) == a,
{
    let sum: int = origin + a;
    if sum < dim {
        vstd::arithmetic::div_mod::lemma_fundamental_div_mod_converse(sum, dim, 0, sum);
    } else {
        vstd::arithmetic::div_mod::lemma_fundamental_div_mod_converse(sum, dim, 1, sum - dim);
    }
    lemma_offset((origin + a) % dim, origin, dim);
}

/// The cell at `(x, y)` of a placed shape is the cell of the shape at the
/// offsets of `(x, y)` from the place.
pub proof fn lemma_placed_cell(
    shape: Seq<bool>,
    width: nat,
    height: nat,
    x0: int,
    y0: int,
    x: int,
    y: int,
)
    requires
        placeable(width, height, x0, y0),
        0 <= x < width,
        0 <= y < height,
    ensures
        placed(shape, width, height, x0, y0).wf(),
        placed(shape, width, height, x0, y0).cell(x, y) == shape_cell(
            shape,
            offset(x, x0, width as int),
            offset(y, y0, height as int),
        ),
{
    lemma_cell_index(x, y, width as int, height as int);
}

/// The window anchored where a shape was placed holds the shape.
pub proof fn lemma_window_of_placed(shape: Seq<bool>, width: nat, height: nat, x0: int, y0: int)
    requires
        placeable(width, height, x0, y0),
        shape.len() == SHAPE_CELLS,
    ensures
        window(placed(shape, width, height, x0, y0), x0, y0) == shape,
{
    let board: BoardView = placed(shape, width, height, x0, y0);
    let w: int = width as int;
    let h: int = height as int;
    assert forall|k: int| 0 <= k < SHAPE_CELLS implies window(board, x0, y0)[k] == shape[k] by {
        let x: int = (x0 + k % 5) % w;
        let y: int = (y0 + k / 5) % h;
        lemma_beyond(x0, k % 5, w);
        lemma_beyond(y0, k / 5, h);
        lemma_placed_cell(shape, width, height, x0, y0, x, y);
    }
}

/// Where a shape whose pattern is in the library is placed on an otherwise
/// dead board, every live cell of the board is detected.
pub proof fn lemma_placed_shape_detected(
    shape: Seq<bool>,
    library: Set<nat>,
    width: nat,
    height: nat,
    x0: int,
    y0: int,
    i: int,
)
    requires
        placeable(width, height, x0, y0),
        shape.len() == SHAPE_CELLS,
        library.contains(encode_spec(shape)),
        0 <= i < width * height,
        placed(shape, width, height, x0, y0).cells[i],
    ensures
        detect_spec(placed(shape, width, height, x0, y0), library).contains(i),
{
    let board: BoardView = placed(shape, width, height, x0, y0);
    let w: int = width as int;
    let h: int = height as int;
    lemma_index_coordinates(i, w, h);
    let x: int = i % w;
    let y: int = i / w;
    lemma_offset(x, x0, w);
    lemma_offset(y, y0, h);
    let rx: int = offset(x, x0, w);
    let ry: int = offset(y, y0, h);
    let k: int = ry * 5 + rx;
    lemma_beyond(x0, rx, w);
    lemma_beyond(y0, ry, h);
    assert(window_index(w, h, x0, y0, k) == i);
    lemma_window_of_placed(shape, width, height, x0, y0);
    assert(marks(board, library, x0, y0, i));
}

/// Where a shape whose pattern is in the library is placed on an otherwise
/// dead board, the detected cells are the live cells of the board.
pub proof fn lemma_placed_detection(
    shape: Seq<bool>,
    library: Set<nat>,
    width: nat,
    height: nat,
    x0: int,
    y0: int,
)
    requires
        placeable(width, height, x0, y0),
        shape.len() == SHAPE_CELLS,
        library.contains(encode_spec(shape)),
    ensures
        detect_spec(placed(shape, width, height, x0, y0), library) == Set::new(
            |i: int| 0 <= i < width * height && placed(shape, width, height, x0, y0).cells[i],
        ),
{
    let board: BoardView = placed(shape, width, height, x0, y0);
    let live: Set<int> = Set::new(|i: int| 0 <= i < width * height && board.cells[i]);
    assert forall|i: int| live.contains(i) implies detect_spec(board, library).contains(i) by {
        lemma_placed_shape_detected(shape, library, width, height, x0, y0, i);
    }
}

/// A place beyond the board is the place that is reached by going around
/// the board.
pub proof fn lemma_placed_around(shape: Seq<bool>, width: nat, height: nat, x0: int, y0: int)
    requires
        0 < width,
        0 < height,
    ensures
        0 <= x0 % (width as int) < width,
        0 <= y0 % (height as int) < height,
        placed(shape, width, height, x0, y0) == placed(
            shape,
            width,
            height,
            x0 % (width as int),
            y0 % (height as int),
        ),
{
    let w: int = width as int;
    let h: int = height as int;
    vstd::arithmetic::div_mod::lemma_mod_bound(x0, w);
    vstd::arithmetic::div_mod::lemma_mod_bound(y0, h);
    let far: BoardView = placed(shape, width, height, x0, y0);
    let near: BoardView = placed(shape, width, height, x0 % w, y0 % h);
    assert forall|i: int| 0 <= i < width * height implies far.cells[i] == near.cells[i] by {
        vstd::arithmetic::div_mod::lemma_sub_mod_noop_right(i % w, x0, w);
        vstd::arithmetic::div_mod::lemma_sub_mod_noop_right(i / w, y0, h);
    }
    assert(far.cells =~= near.cells);
}

/// The library of the two gliders holds the patterns of both.
pub proof fn lemma_gliders_in_library()
    ensures
        library_spec(straight_glider_spec(), bent_glider_spec()).contains(
            encode_spec(straight_glider_spec()),
        ),
        library_spec(straight_glider_spec(), bent_glider_spec()).contains(
            encode_spec(bent_glider_spec()),
        ),
{
    assert(rotated(straight_glider_spec(), 0) == straight_glider_spec());
    assert(rotated(bent_glider_spec(), 0) == bent_glider_spec());
}

/// Where one of the two gliders is placed on an otherwise dead board, the
/// detector with the library of the gliders marks every live cell of it.
pub proof fn lemma_glider_detected(shape: Seq<bool>, width: nat, height: nat, x0: int, y0: int)
    requires
        placeable(width, height, x0, y0),
        shape == straight_glider_spec() || shape == bent_glider_spec(),
    ensures
        forall|i: int|
            0 <= i < width * height && #[trigger] placed(shape, width, height, x0, y0).cells[i]
                ==> detect_spec(
                placed(shape, width, height, x0, y0),
                library_spec(straight_glider_spec(), bent_glider_spec()),
            ).contains(i),
{
    let library: Set<nat> = library_spec(straight_glider_spec(), bent_glider_spec());
    let board: BoardView = placed(shape, width, height, x0, y0);
    lemma_gliders_in_library();
    assert forall|i: int| 0 <= i < width * height && #[trigger] board.cells[i] implies detect_spec(
        board,
        library,
    ).contains(i) by {
        lemma_placed_shape_detected(shape, library, width, height, x0, y0, i);
    }
}

/// 1 where the cell in column `rx` and row `ry` of a shape is alive, else 0.
pub open spec fn shape_bit(shape: Seq<bool>, rx: int, ry: int) -> nat {
    if shape_cell(shape, rx, ry) {
        1
    } else {
        0
    }
}

/// The number of live cells of a shape around the offsets `(rx, ry)`, on a
/// torus `width` by `height` that holds nothing but the shape.
pub open spec fn shape_neighbors(shape: Seq<bool>, rx: int, ry: int, width: int, height: int) -> nat {
    shape_bit(shape, wrap(rx, -1, width), wrap(ry, -1, height)) + shape_bit(
        shape,
        wrap(rx, 0, width),
        wrap(ry, -1, height),
    ) + shape_bit(shape, wrap(rx, 1, width), wrap(ry, -1, height)) + shape_bit(
        shape,
        wrap(rx, -1, width),
        wrap(ry, 0, height),
    ) + shape_bit(shape, wrap(rx, 1, width), wrap(ry, 0, height)) + shape_bit(
        shape,
        wrap(rx, -1, width),
        wrap(ry, 1, height),
    ) + shape_bit(shape, wrap(rx, 0, width), wrap(ry, 1, height)) + shape_bit(
        shape,
        wrap(rx, 1, width),
        wrap(ry, 1, height),
    )
}

/// Whether the rule makes of the cell at offsets `(rx, ry)` of the shape
/// `from` the cell of the shape `to` that stands there once `to` is placed
/// `(sx, sy)` further on.
pub open spec fn evolves_at(
    from: Seq<bool>,
    to: Seq<bool>,
    width: int,
    height: int,
    sx: int,
    sy: int,
    rx: int,
    ry: int,
) -> bool {
    next_state(shape_cell(from, rx, ry), shape_neighbors(from, rx, ry, width, height))
        == shape_cell(to, wrap(rx, -sx, width), wrap(ry, -sy, height))
}

/// The offset of a neighbor is the neighbor of the offset.
pub proof fn lemma_offset_of_neighbor(coord: int, delta: int, origin: int, dim: int)
    requires
        0 <= coord < dim,
        0 <= origin < dim,
        -1 <= delta <= 1,
    ensures
        offset(wrap(coord, delta, dim), origin, dim) == wrap(
            offset(coord, origin, dim),
            delta,
            dim,
        ),
{
    lemma_wrap(coord, delta, dim);
    lemma_offset(coord, origin, dim);
    lemma_offset(wrap(coord, delta, dim), origin, dim);
    lemma_wrap(offset(coord, origin, dim), delta, dim);
}

/// Moving the origin on by `shift` moves every offset back by `shift`.
pub proof fn lemma_offset_from_moved(coord: int, origin: int, shift: int, dim: int)
    requires
        0 <= coord < dim,
        0 <= origin < dim,
        0 <= shift <= 1,
    ensures
        0 <= wrap(origin, shift, dim) < dim,
        offset(coord, wrap(origin, shift, dim), dim) == wrap(
            offset(coord, origin, dim),
            -shift,
            dim,
        ),
{
    lemma_wrap(origin, shift, dim);
    lemma_offset(coord, origin, dim);
    lemma_offset(coord, wrap(origin, shift, dim), dim);
    lemma_wrap(offset(coord, origin, dim), -shift, dim);
}

/// A neighbor of a cell of a placed shape is the cell of the shape at the
/// neighboring offsets.
pub proof fn lemma_placed_neighbor(
    shape: Seq<bool>,
    width: nat,
    height: nat,
    x0: int,
    y0: int,
    x: int,
    y: int,
    dx: int,
    dy: int,
)
    requires
        placeable(width, height, x0, y0),
        0 <= x < width,
        0 <= y < height,
        -1 <= dx <= 1,
        -1 <= dy <= 1,
    ensures
        neighbor(placed(shape, width, height, x0, y0), x, y, dx, dy) == shape_bit(
            shape,
            wrap(offset(x, x0, width as int), dx, width as int),
            wrap(offset(y, y0, height as int), dy, height as int),
        ),
{
    let w: int = width as int;
    let h: int = height as int;
    lemma_wrap(x, dx, w);
    lemma_wrap(y, dy, h);
    lemma_placed_cell(shape, width, height, x0, y0, wrap(x, dx, w), wrap(y, dy, h));
    lemma_offset_of_neighbor(x, dx, x0, w);
    lemma_offset_of_neighbor(y, dy, y0, h);
}

/// The live neighbors of a cell of a placed shape are those of the shape
/// around the offsets of the cell.
pub proof fn lemma_placed_neighbor_count(
    shape: Seq<bool>,
    width: nat,
    height: nat,
    x0: int,
    y0: int,
    x: int,
    y: int,
)
    requires
        placeable(width, height, x0, y0),
        0 <= x < width,
        0 <= y < height,
    ensures
        neighbor_count(placed(shape, width, height, x0, y0), x, y) == shape_neighbors(
            shape,
            offset(x, x0, width as int),
            offset(y, y0, height as int),
            width as int,
            height as int,
        ),
{
    lemma_placed_neighbor(shape, width, height, x0, y0, x, y, -1, -1);
    lemma_placed_neighbor(shape, width, height, x0, y0, x, y, 0, -1);
    lemma_placed_neighbor(shape, width, height, x0, y0, x, y, 1, -1);
    lemma_placed_neighbor(shape, width, height, x0, y0, x, y, -1, 0);
    lemma_placed_neighbor(shape, width, height, x0, y0, x, y, 1, 0);
    lemma_placed_neighbor(shape, width, height, x0, y0, x, y, -1, 1);
    lemma_placed_neighbor(shape, width, height, x0, y0, x, y, 0, 1);
    lemma_placed_neighbor(shape, width, height, x0, y0, x, y, 1, 1);
}

/// Where the rule makes of every cell of the shape `from` the matching cell
/// of the shape `to`, a step makes of `from`, placed on an otherwise dead
/// board, `to` placed `(sx, sy)` further on.
pub proof fn lemma_step_placed(
    from: Seq<bool>,
    to: Seq<bool>,
    width: nat,
    height: nat,
    x0: int,
    y0: int,
    sx: int,
    sy: int,
)
    requires
        placeable(width, height, x0, y0),
        0 <= sx <= 1,
        0 <= sy <= 1,
        forall|rx: int, ry: int|
            0 <= rx < width && 0 <= ry < height ==> #[trigger] evolves_at(
                from,
                to,
                width as int,
                height as int,
                sx,
                sy,
                rx,
                ry,
            ),
    ensures
        placeable(width, height, wrap(x0, sx, width as int), wrap(y0, sy, height as int)),
        step_spec(placed(from, width, height, x0, y0)) == placed(
            to,
            width,
            height,
            wrap(x0, sx, width as int),
            wrap(y0, sy, height as int),
        ),
{
    let w: int = width as int;
    let h: int = height as int;
    let before: BoardView = placed(from, width, height, x0, y0);
    let after: BoardView = placed(to, width, height, wrap(x0, sx, w), wrap(y0, sy, h));
    lemma_wrap(x0, sx, w);
    lemma_wrap(y0, sy, h);
    assert forall|i: int| 0 <= i < width * height implies step_spec(before).cells[i]
        == after.cells[i] by {
        lemma_index_coordinates(i, w, h);
        let x: int = i % w;
        let y: int = i / w;
        let rx: int = offset(x, x0, w);
        let ry: int = offset(y, y0, h);
        lemma_offset(x, x0, w);
        lemma_offset(y, y0, h);
        lemma_placed_neighbor_count(from, width, height, x0, y0, x, y);
        lemma_offset_from_moved(x, x0, sx, w);
        lemma_offset_from_moved(y, y0, sy, h);
        assert(evolves_at(from, to, w, h, sx, sy, rx, ry));
    }
    assert(step_spec(before).cells =~= after.cells);
}

/// The glider one generation after [`straight_glider_spec`].
pub open spec fn second_glider_spec() -> Seq<bool> {
    seq![
        false, false, false, false, false,
        false, true, false, true, false,
        false, false, true, true, false,
        false, false, true, false, false,
        false, false, false, false, false,
    ]
}

/// The glider two generations after [`straight_glider_spec`].
pub open spec fn third_glider_spec() -> Seq<bool> {
    seq![
        false, false, false, false, false,
        false, false, false, true, false,
        false, true, false, true, false,
        false, false, true, true, false,
        false, false, false, false, false,
    ]
}

/// The live cells of the four gliders, by column and row.
proof fn lemma_glider_cells()
    ensures
        forall|x: int, y: int| #[trigger]
            shape_cell(straight_glider_spec(), x, y) == ((x == 2 && y == 1) || (x == 3 && y == 2)
                || (x == 1 && y == 3) || (x == 2 && y == 3) || (x == 3 && y == 3)),
        forall|x: int, y: int| #[trigger]
            shape_cell(second_glider_spec(), x, y) == ((x == 1 && y == 1) || (x == 3 && y == 1)
                || (x == 2 && y == 2) || (x == 3 && y == 2) || (x == 2 && y == 3)),
        forall|x: int, y: int| #[trigger]
            shape_cell(third_glider_spec(), x, y) == ((x == 3 && y == 1) || (x == 1 && y == 2)
                || (x == 3 && y == 2) || (x == 2 && y == 3) || (x == 3 && y == 3)),
        forall|x: int, y: int| #[trigger]
            shape_cell(bent_glider_spec(), x, y) == ((x == 1 && y == 1) || (x == 2 && y == 2)
                || (x == 3 && y == 2) || (x == 1 && y == 3) || (x == 2 && y == 3)),
{
    assert forall|x: int, y: int| #[trigger]
        shape_cell(straight_glider_spec(), x, y) == ((x == 2 && y == 1) || (x == 3 && y == 2)
            || (x == 1 && y == 3) || (x == 2 && y == 3) || (x == 3 && y == 3)) by {
        lemma_lit_cells(straight_glider_spec(), x, y);
    }
    assert forall|x: int, y: int| #[trigger]
        shape_cell(second_glider_spec(), x, y) == ((x == 1 && y == 1) || (x == 3 && y == 1)
            || (x == 2 && y == 2) || (x == 3 && y == 2) || (x == 2 && y == 3)) by {
        lemma_lit_cells(second_glider_spec(), x, y);
    }
    assert forall|x: int, y: int| #[trigger]
        shape_cell(third_glider_spec(), x, y) == ((x == 3 && y == 1) || (x == 1 && y == 2)
            || (x == 3 && y == 2) || (x == 2 && y == 3) || (x == 3 && y == 3)) by {
        lemma_lit_cells(third_glider_spec(), x, y);
    }
    assert forall|x: int, y: int| #[trigger]
        shape_cell(bent_glider_spec(), x, y) == ((x == 1 && y == 1) || (x == 2 && y == 2)
            || (x == 3 && y == 2) || (x == 1 && y == 3) || (x == 2 && y == 3)) by {
        lemma_lit_cells(bent_glider_spec(), x, y);
    }
}

/// A cell of a shape, looked up by the number of its position.
proof fn lemma_lit_cells(shape: Seq<bool>, x: int, y: int)
    ensures
        shape_cell(shape, x, y) == (0 <= x < 5 && 0 <= y < 5 && (if y == 0 {
            if x == 0 {
                shape[0]
            } else if x == 1 {
                shape[1]
            } else if x == 2 {
                shape[2]
            } else if x == 3 {
                shape[3]
            } else {
                shape[4]
            }
        } else if y == 1 {
            if x == 0 {
                shape[5]
            } else if x == 1 {
                shape[6]
            } else if x == 2 {
                shape[7]
            } else if x == 3 {
                shape[8]
            } else {
                shape[9]
            }
        } else if y == 2 {
            if x == 0 {
                shape[10]
            } else if x == 1 {
                shape[11]
            } else if x == 2 {
                shape[12]
            } else if x == 3 {
                shape[13]
            } else {
                shape[14]
            }
        } else if y == 3 {
            if x == 0 {
                shape[15]
            } else if x == 1 {
                shape[16]
            } else if x == 2 {
                shape[17]
            } else if x == 3 {
                shape[18]
            } else {
                shape[19]
            }
        } else {
            if x == 0 {
                shape[20]
            } else if x == 1 {
                shape[21]
            } else if x == 2 {
                shape[22]
            } else if x == 3 {
                shape[23]
            } else {
                shape[24]
            }
        })),
{
}

/// The three coordinates next to `coord`, without the remainder.
proof fn lemma_wraps(coord: int, dim: int)
    requires
        0 <= coord < dim,
        1 <= dim,
    ensures
        wrap(coord, -1, dim) == if coord == 0 {
            dim - 1
        } else {
            coord - 1
        },
        wrap(coord, 0, dim) == coord,
        wrap(coord, 1, dim) == if coord == dim - 1 {
            0
        } else {
            coord + 1
        },
{
    lemma_wrap(coord, -1, dim);
    lemma_wrap(coord, 0, dim);
    lemma_wrap(coord, 1, dim);
}

/// One generation on, the straight glider has become the second glider,
/// one row further down.
pub proof fn lemma_straight_steps(width: nat, height: nat, x0: int, y0: int)
    requires
        placeable(width, height, x0, y0),
    ensures
        placeable(width, height, x0, wrap(y0, 1, height as int)),
        step_spec(placed(straight_glider_spec(), width, height, x0, y0)) == placed(
            second_glider_spec(),
            width,
            height,
            x0,
            wrap(y0, 1, height as int),
        ),
{
    let w: int = width as int;
    let h: int = height as int;
    lemma_glider_cells();
    assert forall|rx: int, ry: int| 0 <= rx < w && 0 <= ry < h implies #[trigger] evolves_at(
        straight_glider_spec(),
        second_glider_spec(),
        w,
        h,
        0,
        1,
        rx,
        ry,
    ) by {
        lemma_wraps(rx, w);
        lemma_wraps(ry, h);
    }
    lemma_step_placed(straight_glider_spec(), second_glider_spec(), width, height, x0, y0, 0, 1);
    lemma_wraps(x0, w);
}

/// One generation on, the second glider has become the third glider, in
/// the same place.
pub proof fn lemma_second_steps(width: nat, height: nat, x0: int, y0: int)
    requires
        placeable(width, height, x0, y0),
    ensures
        step_spec(placed(second_glider_spec(), width, height, x0, y0)) == placed(
            third_glider_spec(),
            width,
            height,
            x0,
            y0,
        ),
{
    let w: int = width as int;
    let h: int = height as int;
    lemma_glider_cells();
    assert forall|rx: int, ry: int| 0 <= rx < w && 0 <= ry < h implies #[trigger] evolves_at(
        second_glider_spec(),
        third_glider_spec(),
        w,
        h,
        0,
        0,
        rx,
        ry,
    ) by {
        lemma_wraps(rx, w);
        lemma_wraps(ry, h);
    }
    lemma_step_placed(second_glider_spec(), third_glider_spec(), width, height, x0, y0, 0, 0);
    lemma_wraps(x0, w);
    lemma_wraps(y0, h);
}

/// One generation on, the third glider has become the bent glider, one
/// column further right.
pub proof fn lemma_third_steps(width: nat, height: nat, x0: int, y0: int)
    requires
        placeable(width, height, x0, y0),
    ensures
        placeable(width, height, wrap(x0, 1, width as int), y0),
        step_spec(placed(third_glider_spec(), width, height, x0, y0)) == placed(
            bent_glider_spec(),
            width,
            height,
            wrap(x0, 1, width as int),
            y0,
        ),
{
    let w: int = width as int;
    let h: int = height as int;
    lemma_glider_cells();
    assert forall|rx: int, ry: int| 0 <= rx < w && 0 <= ry < h implies #[trigger] evolves_at(
        third_glider_spec(),
        bent_glider_spec(),
        w,
        h,
        1,
        0,
        rx,
        ry,
    ) by {
        lemma_wraps(rx, w);
        lemma_wraps(ry, h);
    }
    lemma_step_placed(third_glider_spec(), bent_glider_spec(), width, height, x0, y0, 1, 0);
    lemma_wraps(y0, h);
}

/// One generation on, the bent glider has become the straight glider, in
/// the same place.
pub proof fn lemma_bent_steps(width: nat, height: nat, x0: int, y0: int)
    requires
        placeable(width, height, x0, y0),
    ensures
        step_spec(placed(bent_glider_spec(), width, height, x0, y0)) == placed(
            straight_glider_spec(),
            width,
            height,
            x0,
            y0,
        ),
{
    let w: int = width as int;
    let h: int = height as int;
    lemma_glider_cells();
    assert forall|rx: int, ry: int| 0 <= rx < w && 0 <= ry < h implies #[trigger] evolves_at(
        bent_glider_spec(),
        straight_glider_spec(),
        w,
        h,
        0,
        0,
        rx,
        ry,
    ) by {
        lemma_wraps(rx, w);
        lemma_wraps(ry, h);
    }
    lemma_step_placed(bent_glider_spec(), straight_glider_spec(), width, height, x0, y0, 0, 0);
    lemma_wraps(x0, w);
    lemma_wraps(y0, h);
}

/// A glider travels: four generations after the straight glider was placed
/// on an otherwise dead board, the board holds the same glider, and nothing
/// else, one column further right and one row further down. Both axes wrap.
pub proof fn lemma_glider_travels(width: nat, height: nat, x0: int, y0: int)
    requires
        placeable(width, height, x0, y0),
    ensures
        step_n(placed(straight_glider_spec(), width, height, x0, y0), 4) == placed(
            straight_glider_spec(),
            width,
            height,
            wrap(x0, 1, width as int),
            wrap(y0, 1, height as int),
        ),
{
    let w: int = width as int;
    let h: int = height as int;
    let x1: int = wrap(x0, 1, w);
    let y1: int = wrap(y0, 1, h);
    lemma_straight_steps(width, height, x0, y0);
    lemma_second_steps(width, height, x0, y1);
    lemma_third_steps(width, height, x0, y1);
    lemma_bent_steps(width, height, x1, y1);
    reveal_with_fuel(step_n, 5);
}

/// How far `coord` lies beyond `origin` on an axis of length `dim` whose
/// two ends are joined.
fn offset_of(coord: u32, origin: u32, dim: u32) -> (beyond: u32)
    requires
        coord < dim,
    ensures
        beyond == offset(coord as int, origin as int, dim as int),
        beyond < dim,
{
    let start: u32 = origin % dim;
    proof {
        vstd::arithmetic::div_mod::lemma_mod_bound(origin as int, dim as int);
        vstd::arithmetic::div_mod::lemma_sub_mod_noop_right(
            coord as int,
            origin as int,
            dim as int,
        );
        lemma_offset(coord as int, start as int, dim as int);
    }
    if coord >= start {
        coord - start
    } else {
        dim - start + coord
    }
}

/// The board on which the cells of `shape`, its first cell at `(x0, y0)`,
/// are the only live ones. Both axes wrap, and a place beyond the board is
/// taken around it. The board has to be at least as large as the shape.
pub fn place(shape: &[bool; 25], width: u32, height: u32, x0: u32, y0: u32) -> (made: Result<
    Board,
    BoardError,
>)
    ensures
        made is Ok <==> valid_dimensions(width as int, height as int) && 5 <= width && 5
            <= height,
        match made {
            Ok(board) => board@ == placed(
                shape@,
                width as nat,
                height as nat,
                x0 as int,
                y0 as int,
            ),
            Err(BoardError::ZeroDimension) => width == 0 || height == 0,
            Err(BoardError::TooLarge) => width > 0 && height > 0 && width * height > MAX_CELLS,
            Err(BoardError::TooSmall) => valid_dimensions(width as int, height as int) && (width < 5
                || height < 5),
            Err(BoardError::LengthMismatch) => false,
            Err(BoardError::InvalidProbability) => false,
        },
{
    if width == 0 || height == 0 {
        return Err(BoardError::ZeroDimension);
    }
    assert(width * height <= 0xffff_ffff * 0xffff_ffff) by (nonlinear_arith)
        requires
            0 <= width <= 0xffff_ffff,
            0 <= height <= 0xffff_ffff,
    ;
    let count: u64 = (width as u64) * (height as u64);
    if count > MAX_CELLS as u64 {
        return Err(BoardError::TooLarge);
    }
    if width < 5 || height < 5 {
        return Err(BoardError::TooSmall);
    }
    let ghost wanted: BoardView = placed(
        shape@,
        width as nat,
        height as nat,
        x0 as int,
        y0 as int,
    );
    let mut cells: Vec<bool> = Vec::with_capacity(count as usize);
    let mut y: u32 = 0;
    while y < height
        invariant
            y <= height,
            valid_dimensions(width as int, height as int),
            wanted == placed(shape@, width as nat, height as nat, x0 as int, y0 as int),
            cells@.len() == y * width,
            forall|i: int| 0 <= i < cells@.len() ==> cells@[i] == wanted.cells[i],
        decreases height - y,
    {
        let ry: u32 = offset_of(y, y0, height);
        let mut x: u32 = 0;
        while x < width
            invariant
                x <= width,
                y < height,
                valid_dimensions(width as int, height as int),
                wanted == placed(shape@, width as nat, height as nat, x0 as int, y0 as int),
                ry == offset(y as int, y0 as int, height as int),
                cells@.len() == y * width + x,
                forall|i: int| 0 <= i < cells@.len() ==> cells@[i] == wanted.cells[i],
            decreases width - x,
        {
            let rx: u32 = offset_of(x, x0, width);
            proof {
                lemma_cell_index(x as int, y as int, width as int, height as int);
            }
            let alive: bool = rx < 5 && ry < 5 && shape[(ry * 5 + rx) as usize];
            cells.push(alive);
            x += 1;
        }
        assert((y + 1) * width == y * width + width) by (nonlinear_arith);
        y += 1;
    }
    assert(height * width == width * height) by (nonlinear_arith);
    assert(cells@ =~= wanted.cells);
    Ok(Board::from_parts(width, height, cells))
}

} // verus!
