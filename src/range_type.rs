use vstd::prelude::*;
use vstd::arithmetic::div_mod::{lemma_fundamental_div_mod, lemma_fundamental_div_mod_converse};
use crate::geometry::{Point, chebyshev};

verus! {

/// An abstract area shape, turned into concrete tiles around an origin.
#[derive(Clone, Debug)]
pub enum RangeType {
    /// No targeting step at all.
    Empty,
    /// The origin tile alone.
    Single,
    /// Every tile within Chebyshev distance `size` of the origin.
    Square { size: i32 },
    /// The origin shifted by each offset, in order.
    Custom { offsets: Vec<Point> },
}

impl RangeType {
    pub fn is_empty(&self) -> (r: bool)
        ensures
            r == (*self is Empty),
    {
        match self {
            RangeType::Empty => true,
            _ => false,
        }
    }
}

/// Side length of a square of the given size.
pub open spec fn square_side(size: int) -> int {
    2 * size + 1
}

/// The `k`-th tile of a square around `loc`, row by row.
pub open spec fn square_tile(loc: Point, size: int, k: int) -> Point {
    let side = square_side(size);
    Point { x: (loc.x - size + k % side) as i32, y: (loc.y - size + k / side) as i32 }
}

/// The tiles of a square around `loc`, row by row from the top left.
pub open spec fn square_tiles(loc: Point, size: int) -> Seq<Point> {
    if size < 0 {
        Seq::empty()
    } else {
        Seq::new((square_side(size) * square_side(size)) as nat, |k: int| square_tile(loc, size, k))
    }
}

pub open spec fn fits_offset(loc: Point, off: Point) -> bool {
    i32::MIN <= loc.x + off.x <= i32::MAX && i32::MIN <= loc.y + off.y <= i32::MAX
}

pub open spec fn offset_point(loc: Point, off: Point) -> Point {
    Point { x: (loc.x + off.x) as i32, y: (loc.y + off.y) as i32 }
}

/// What a shape covers around `loc`.
pub open spec fn range_tiles(range: RangeType, loc: Point) -> Seq<Point> {
    match range {
        RangeType::Empty => Seq::empty(),
        RangeType::Single => seq![loc],
        RangeType::Square { size } => square_tiles(loc, size as int),
        RangeType::Custom { offsets } => Seq::new(
            offsets@.len(),
            |i: int| offset_point(loc, offsets@[i]),
        ),
    }
}

/// The shape can be laid at `loc` with every coordinate fitting in an `i32`
/// and every tile fitting in memory.
pub open spec fn range_fits(range: RangeType, loc: Point) -> bool {
    match range {
        RangeType::Square { size } => size < 0 || (
            loc.x - size >= i32::MIN && loc.x + size <= i32::MAX
            && loc.y - size >= i32::MIN && loc.y + size <= i32::MAX
            && square_side(size as int) * square_side(size as int) <= usize::MAX),
        RangeType::Custom { offsets } => forall|i: int|
            0 <= i < offsets@.len() ==> fits_offset(loc, #[trigger] offsets@[i]),
        _ => true,
    }
}

proof fn lemma_square_index(loc: Point, size: int, row: int, col: int)
    requires
        size >= 0,
        0 <= row < square_side(size),
        0 <= col < square_side(size),
    ensures
        square_tile(loc, size, row * square_side(size) + col)
            == (Point { x: (loc.x - size + col) as i32, y: (loc.y - size + row) as i32 }),
{
    lemma_fundamental_div_mod_converse(row * square_side(size) + col, square_side(size), row, col);
}

/// Every tile of a square lies within `size` of its origin.
pub proof fn lemma_square_tile_near(loc: Point, size: int, k: int)
    requires
        0 <= size,
        loc.x - size >= i32::MIN && loc.x + size <= i32::MAX,
        loc.y - size >= i32::MIN && loc.y + size <= i32::MAX,
        0 <= k < square_side(size) * square_side(size),
    ensures
        loc.x - size <= square_tile(loc, size, k).x <= loc.x + size,
        loc.y - size <= square_tile(loc, size, k).y <= loc.y + size,
        chebyshev(loc, square_tile(loc, size, k)) <= size,
{
    let side = square_side(size);
    lemma_fundamental_div_mod(k, side);
    let q = k / side;
    let r = k % side;
    assert(0 <= r < side);
    assert(0 <= q < side) by (nonlinear_arith)
        requires
            k == side * q + r,
            0 <= r < side,
            0 <= k < side * side,
            side > 0,
    ;
}

/// Resolves a shape at `loc` into concrete tiles.
pub fn resolve_range_at(range: &RangeType, loc: Point) -> (r: Vec<Point>)
    requires
        range_fits(*range, loc),
    ensures
        r@ == range_tiles(*range, loc),
{
    match range {
        RangeType::Empty => Vec::new(),
        RangeType::Single => {
            let mut v = Vec::new();
            v.push(loc);
            proof {
                assert(v@ =~= seq![loc]);
            }
            v
        },
        RangeType::Square { size } => {
            let size = *size;
            if size < 0 {
                return Vec::new();
            }
            let ghost side = square_side(size as int);
            let mut v: Vec<Point> = Vec::new();
            let size = size as i64;
            assert(0 * side == 0);
            let mut dy: i64 = -size;
            while dy <= size
                invariant
                    0 <= size <= i32::MAX,
                    loc.x - size >= i32::MIN && loc.x + size <= i32::MAX,
                    loc.y - size >= i32::MIN && loc.y + size <= i32::MAX,
                    side == square_side(size as int),
                    -size <= dy <= size + 1,
                    v@.len() == (dy + size) * side,
                    forall|k: int| 0 <= k < v@.len() ==> v@[k] == square_tile(loc, size as int, k),
                decreases size + 1 - dy,
            {
                let mut dx: i64 = -size;
                let ghost row = dy + size;
                assert((row + 1) * side <= side * side) by (nonlinear_arith)
                    requires
                        0 <= row < side,
                ;
                while dx <= size
                    invariant
                        0 <= size <= i32::MAX,
                        loc.x - size >= i32::MIN && loc.x + size <= i32::MAX,
                        loc.y - size >= i32::MIN && loc.y + size <= i32::MAX,
                        side == square_side(size as int),
                        -size <= dy <= size,
                        row == dy + size,
                        -size <= dx <= size + 1,
                        (row + 1) * side <= side * side,
                        v@.len() == row * side + (dx + size),
                        forall|k: int| 0 <= k < v@.len() ==> v@[k] == square_tile(loc, size as int, k),
                    decreases size + 1 - dx,
                {
                    proof {
                        lemma_square_index(loc, size as int, row, dx + size);
                    }
                    v.push(Point { x: (loc.x as i64 + dx) as i32, y: (loc.y as i64 + dy) as i32 });
                    dx = dx + 1;
                }
                assert(v@.len() == (dy + 1 + size) * side) by (nonlinear_arith)
                    requires
                        v@.len() == row * side + side,
                        row == dy + size,
                ;
                dy = dy + 1;
            }
            assert(v@ =~= square_tiles(loc, size as int));
            v
        },
        RangeType::Custom { offsets } => {
            let mut v: Vec<Point> = Vec::new();
            let mut i: usize = 0;
            while i < offsets.len()
                invariant
                    forall|j: int| 0 <= j < offsets@.len() ==> fits_offset(loc, #[trigger] offsets@[j]),
                    i <= offsets@.len(),
                    v@ =~= Seq::new(i as nat, |j: int| offset_point(loc, offsets@[j])),
                decreases offsets@.len() - i,
            {
                let off = offsets[i];
                assert(fits_offset(loc, offsets@[i as int]));
                v.push(Point { x: loc.x + off.x, y: loc.y + off.y });
                i = i + 1;
            }
            v
        },
    }
}

} // verus!
