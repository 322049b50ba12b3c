//! Integer grid vectors and the quarter-turn rotations of item shapes.
//!
//! Grid coordinates grow to the right (x) and downwards (y). A rotation step
//! turns a vector by 90 degrees clockwise on screen: `(x, y) -> (-y, x)`.
use vstd::prelude::*;

verus! {

/// A cell or offset on the inventory grid.
#[derive(Debug, Clone, Copy, PartialEq, Eq, Hash, Structural)]
pub struct GridVec {
    pub x: i32,
    pub y: i32,
}

/// The cell `(x, y)`.
pub open spec fn gv(x: int, y: int) -> GridVec {
    GridVec { x: x as i32, y: y as i32 }
}

/// `true` when both coordinates of `(x, y)` fit in an `i32`.
pub open spec fn fits_i32(x: int, y: int) -> bool {
    i32::MIN <= x <= i32::MAX && i32::MIN <= y <= i32::MAX
}

/// `v` turned by `turns` quarter turns (only `turns % 4` matters).
pub open spec fn rotated(v: GridVec, turns: nat) -> GridVec {
    let t = turns % 4;
    if t == 0 {
        v
    } else if t == 1 {
        gv(-v.y, v.x as int)
    } else if t == 2 {
        gv(-v.x, -v.y)
    } else {
        gv(v.y as int, -v.x)
    }
}

/// `true` when turning `v` step by step `turns % 4` times never negates `i32::MIN`.
pub open spec fn can_rotate(v: GridVec, turns: nat) -> bool {
    let t = turns % 4;
    t == 0 || (v.y != i32::MIN && (t == 1 || v.x != i32::MIN))
}

/// `true` when `a + b` does not overflow in either coordinate.
pub open spec fn can_add(a: GridVec, b: GridVec) -> bool {
    fits_i32(a.x + b.x, a.y + b.y)
}

/// The sum `a + b`.
pub open spec fn plus(a: GridVec, b: GridVec) -> GridVec {
    gv(a.x + b.x, a.y + b.y)
}

/// Every offset of `shape` turned by `turns` quarter turns.
pub open spec fn rotated_shape(shape: Seq<GridVec>, turns: nat) -> Seq<GridVec> {
    shape.map_values(|v: GridVec| rotated(v, turns))
}

/// `true` when every offset of `shape` can be turned by `turns`.
pub open spec fn shape_can_rotate(shape: Seq<GridVec>, turns: nat) -> bool {
    forall|i: int| 0 <= i < shape.len() ==> #[trigger] can_rotate(shape[i], turns)
}

/// `true` when the shape can be turned and put at `pos` without overflow.
pub open spec fn can_place_at(pos: GridVec, shape: Seq<GridVec>, turns: nat) -> bool {
    &&& shape_can_rotate(shape, turns)
    &&& forall|i: int| 0 <= i < shape.len() ==> #[trigger] can_add(pos, rotated(shape[i], turns))
}

/// The cells that `shape`, turned by `turns`, covers when anchored at `pos`.
pub open spec fn placed_cells(pos: GridVec, shape: Seq<GridVec>, turns: nat) -> Seq<GridVec> {
    shape.map_values(|v: GridVec| plus(pos, rotated(v, turns)))
}

/// The key under which a cell is stored in a hash map: a bijection from cells onto `i64`.
pub open spec fn cell_key(c: GridVec) -> int {
    c.x * 4294967296 + (c.y + 2147483648)
}

/// Distinct cells have distinct keys.
pub proof fn lemma_cell_key_injective(a: GridVec, b: GridVec)
    ensures
        cell_key(a) == cell_key(b) <==> a == b,
{
    if cell_key(a) == cell_key(b) {
        assert(a.x == b.x) by (nonlinear_arith)
            requires
                a.x * 4294967296 + (a.y + 2147483648) == b.x * 4294967296 + (b.y + 2147483648),
                i32::MIN <= a.y <= i32::MAX,
                i32::MIN <= b.y <= i32::MAX,
        ;
    }
}

/// The key of every cell lies in the range of `i64`.
pub proof fn lemma_cell_key_range(c: GridVec)
    ensures
        i64::MIN <= cell_key(c) <= i64::MAX,
{
}

/// Every key in the range of `i64` is the key of a cell (with the injectivity above, of
/// exactly one).
pub proof fn lemma_cell_key_onto(k: int)
    requires
        i64::MIN <= k <= i64::MAX,
    ensures
        exists|c: GridVec| #[trigger] cell_key(c) == k,
{
    let x = k / 4294967296;
    let r = k % 4294967296;
    assert(k == x * 4294967296 + r && 0 <= r < 4294967296) by {
        vstd::arithmetic::div_mod::lemma_fundamental_div_mod(k, 4294967296);
        vstd::arithmetic::div_mod::lemma_mod_bound(k, 4294967296);
    }
    assert(-2147483648 <= x <= 2147483647) by (nonlinear_arith)
        requires
            k == x * 4294967296 + r,
            0 <= r < 4294967296,
            -9223372036854775808 <= k <= 9223372036854775807,
    ;
    let c = gv(x, r - 2147483648);
    assert(c.x == x && c.y == r - 2147483648);
    assert(cell_key(c) == k);
}

/// The hash map key of cell `c`.
pub fn cell_key_of(c: GridVec) -> (k: i64)
    ensures
        k == cell_key(c),
{
    (c.x as i64) * 4294967296 + ((c.y as i64) + 2147483648)
}

impl GridVec {
    /// The vector `(x, y)`.
    pub fn new(x: i32, y: i32) -> (v: GridVec)
        ensures
            v.x == x,
            v.y == y,
    {
        GridVec { x, y }
    }

    /// The sum `self + other`; it must not overflow.
    pub fn offset_by(self, other: GridVec) -> (r: GridVec)
        requires
            can_add(self, other),
        ensures
            r == plus(self, other),
    {
        GridVec { x: self.x + other.x, y: self.y + other.y }
    }

    /// The difference `self - other`; it must not overflow.
    pub fn minus(self, other: GridVec) -> (r: GridVec)
        requires
            fits_i32(self.x - other.x, self.y - other.y),
        ensures
            r == gv(self.x - other.x, self.y - other.y),
    {
        GridVec { x: self.x - other.x, y: self.y - other.y }
    }
}

/// One quarter turn (as the step of the rotation loops).
fn turn_once(v: GridVec) -> (r: GridVec)
    requires
        v.y != i32::MIN,
    ensures
        r == gv(-v.y, v.x as int),
{
    GridVec { x: -v.y, y: v.x }
}

/// Turning by `k + 1` quarter turns is one more quarter turn after `k` of them.
proof fn lemma_rotated_step(v: GridVec, k: nat)
    requires
        k < 3,
        can_rotate(v, (k + 1) as nat),
    ensures
        rotated(v, k).y != i32::MIN,
        rotated(v, (k + 1) as nat) == gv(-rotated(v, k).y, rotated(v, k).x as int),
{
}

/// Turns a single vector by `rot` quarter turns clockwise (`rot % 4` steps of `(x, y) -> (-y, x)`).
pub fn rotate_vector(p: GridVec, rot: u8) -> (r: GridVec)
    requires
        can_rotate(p, rot as nat),
    ensures
        r == rotated(p, rot as nat),
{
    let turns = rot % 4;
    let mut v = p;
    let mut i: u8 = 0;
    while i < turns
        invariant
            turns == rot % 4,
            i <= turns,
            can_rotate(p, rot as nat),
            v == rotated(p, i as nat),
        decreases turns - i,
    {
        proof {
            lemma_rotated_step(p, i as nat);
        }
        v = turn_once(v);
        i = i + 1;
    }
    v
}

/// Turns every offset of `shape` by `rot` quarter turns clockwise.
pub fn rotate_shape(shape: &Vec<GridVec>, rot: u8) -> (r: Vec<GridVec>)
    requires
        shape_can_rotate(shape@, rot as nat),
    ensures
        r@ == rotated_shape(shape@, rot as nat),
{
    let steps = rot % 4;
    if steps == 0 {
        assert(shape@ =~= rotated_shape(shape@, rot as nat));
        return shape.clone();
    }
    let mut out: Vec<GridVec> = Vec::new();
    let mut i: usize = 0;
    while i < shape.len()
        invariant
            i <= shape.len(),
            shape_can_rotate(shape@, rot as nat),
            out@ =~= rotated_shape(shape@.take(i as int), rot as nat),
        decreases shape.len() - i,
    {
        assert(can_rotate(shape@[i as int], rot as nat));
        let v = rotate_vector(shape[i], rot);
        out.push(v);
        i = i + 1;
        assert(shape@.take(i as int).drop_last() =~= shape@.take(i - 1));
    }
    assert(shape@.take(i as int) =~= shape@);
    out
}

/// The cells covered by `shape`, turned by `rot`, anchored at `pos`.
pub fn placed_cells_of(pos: GridVec, shape: &Vec<GridVec>, rot: u8) -> (r: Vec<GridVec>)
    requires
        can_place_at(pos, shape@, rot as nat),
    ensures
        r@ == placed_cells(pos, shape@, rot as nat),
{
    let rotated_offsets = rotate_shape(shape, rot);
    let mut out: Vec<GridVec> = Vec::new();
    let mut i: usize = 0;
    while i < rotated_offsets.len()
        invariant
            i <= rotated_offsets.len(),
            rotated_offsets@ == rotated_shape(shape@, rot as nat),
            can_place_at(pos, shape@, rot as nat),
            out@ =~= placed_cells(pos, shape@.take(i as int), rot as nat),
        decreases rotated_offsets.len() - i,
    {
        assert(can_add(pos, rotated(shape@[i as int], rot as nat)));
        let c = pos.offset_by(rotated_offsets[i]);
        out.push(c);
        i = i + 1;
        assert(shape@.take(i as int).drop_last() =~= shape@.take(i - 1));
    }
    assert(shape@.take(i as int) =~= shape@);
    out
}

/// Quarter turns compose: turning by `a` and then by `b` is turning by `a + b`.
pub proof fn lemma_rotation_composes(v: GridVec, a: nat, b: nat)
    requires
        can_rotate(v, a),
        can_rotate(rotated(v, a), b),
    ensures
        rotated(rotated(v, a), b) == rotated(v, a + b),
{
    assert((a + b) % 4 == ((a % 4) + (b % 4)) % 4) by (nonlinear_arith);
}

/// Turning a shape by `a` and the result by `b` turns it by `(a % 4 + b % 4) % 4`, whenever
/// both turns can be made (no coordinate negated from `i32::MIN`).
pub proof fn lemma_shape_rotation_composes(shape: Seq<GridVec>, a: nat, b: nat)
    requires
        shape_can_rotate(shape, a),
        shape_can_rotate(rotated_shape(shape, a), b),
    ensures
        rotated_shape(rotated_shape(shape, a), b) == rotated_shape(shape, ((a % 4 + b % 4) % 4) as nat),
{
    let c = ((a % 4 + b % 4) % 4) as nat;
    assert forall|i: int| 0 <= i < shape.len() implies #[trigger] rotated(rotated(shape[i], a), b) == rotated(shape[i], c) by {
        assert(can_rotate(shape[i], a));
        assert(rotated_shape(shape, a)[i] == rotated(shape[i], a));
        assert(can_rotate(rotated_shape(shape, a)[i], b));
        lemma_rotation_composes(shape[i], a, b);
        assert((a + b) % 4 == c);
    }
    assert(rotated_shape(rotated_shape(shape, a), b) =~= rotated_shape(shape, c));
}

/// Four quarter turns bring every vector back to itself.
pub proof fn lemma_full_turn_is_identity(v: GridVec, turns: nat)
    requires
        turns % 4 == 0,
    ensures
        rotated(v, turns) == v,
{
}

/// A quarter turn keeps the distance `|x| + |y|` of a vector to the anchor.
pub proof fn lemma_rotation_keeps_distance(v: GridVec, turns: nat)
    requires
        can_rotate(v, turns),
    ensures
        abs_int(rotated(v, turns).x as int) + abs_int(rotated(v, turns).y as int) == abs_int(
            v.x as int,
        ) + abs_int(v.y as int),
{
}

/// Distinct offsets stay distinct after the same rotation, so a turned shape keeps its cell count.
pub proof fn lemma_rotation_injective(a: GridVec, b: GridVec, turns: nat)
    requires
        can_rotate(a, turns),
        can_rotate(b, turns),
        rotated(a, turns) == rotated(b, turns),
    ensures
        a == b,
{
}

/// The absolute value of `v`.
pub open spec fn abs_int(v: int) -> int {
    if v < 0 {
        -v
    } else {
        v
    }
}

} // verus!
