//! Collision of boxes with voxels: which cell stops a move, and what the
//! contact means.

use crate::scalar::Scalar;
use vstd::prelude::*;

verus! {

/// A voxel cell.
#[derive(Clone, Copy, Debug, PartialEq, Eq, Hash, Structural)]
pub struct Cell {
    pub x: i32,
    pub y: i32,
    pub z: i32,
}

/// World solidity, shared by every mover.
pub trait VoxelQuery {
    spec fn solid(&self, cell: Cell) -> bool;

    /// Whether `cell` is solid for movement now.
    fn is_solid(&self, cell: Cell) -> (r: bool)
        ensures
            r == self.solid(cell),
    ;

    spec fn drift(&self, cell: Cell) -> Velocity;

    /// Velocity of the ground at `cell`: conveyors, drift plates.
    fn ground_velocity(&self, cell: Cell) -> (v: Velocity)
        ensures
            v == self.drift(cell),
    ;
}

#[derive(Clone, Copy, Debug, PartialEq, Eq, Structural)]
pub struct Velocity {
    pub x: Scalar,
    pub y: Scalar,
    pub z: Scalar,
}

/// At rest.
pub open spec fn still() -> Velocity {
    Velocity { x: Scalar { bits: 0 }, y: Scalar { bits: 0 }, z: Scalar { bits: 0 } }
}

impl Velocity {
    pub fn zero() -> (v: Velocity)
        ensures
            v == still(),
    {
        Velocity { x: Scalar::zero(), y: Scalar::zero(), z: Scalar::zero() }
    }
}

#[derive(Clone, Copy, Debug, PartialEq, Eq, Structural)]
pub enum Axis {
    X,
    Y,
    Z,
}

/// Cells that a box overlaps, from `lo` to `hi`, both included. None if an
/// end lies before its start.
#[derive(Clone, Copy, Debug, PartialEq, Eq, Structural)]
pub struct Span {
    pub x0: i32,
    pub x1: i32,
    pub y0: i32,
    pub y1: i32,
    pub z0: i32,
    pub z1: i32,
}

pub open spec fn in_span(s: Span, c: Cell) -> bool {
    s.x0 <= c.x <= s.x1 && s.y0 <= c.y <= s.y1 && s.z0 <= c.z <= s.z1
}

/// A coordinate as the scan meets it: downward moves meet the far end of
/// their axis first.
pub open spec fn met(v: i32, this: Axis, axis: Axis, down: bool) -> int {
    if this == axis && down {
        -(v as int)
    } else {
        v as int
    }
}

/// The scan of a move along `axis` meets `a` before `b`.
pub open spec fn before(a: Cell, b: Cell, axis: Axis, down: bool) -> bool {
    let (ax, bx) = (met(a.x, Axis::X, axis, down), met(b.x, Axis::X, axis, down));
    let (ay, by) = (met(a.y, Axis::Y, axis, down), met(b.y, Axis::Y, axis, down));
    let (az, bz) = (met(a.z, Axis::Z, axis, down), met(b.z, Axis::Z, axis, down));
    ax < bx || (ax == bx && (ay < by || (ay == by && az < bz)))
}

/// `hit` is the first solid cell that the scan meets.
pub open spec fn first_hit<Q: VoxelQuery>(
    q: Q,
    s: Span,
    axis: Axis,
    down: bool,
    hit: Option<Cell>,
) -> bool {
    match hit {
        Some(c) => {
            &&& in_span(s, c)
            &&& q.solid(c)
            &&& forall|d: Cell|
                in_span(s, d) && #[trigger] q.solid(d) ==> !before(d, c, axis, down)
        },
        None => forall|d: Cell| in_span(s, d) ==> !#[trigger] q.solid(d),
    }
}

/// The `k`-th value of a range that is walked up or down.
fn nth(lo: i32, hi: i32, k: i64, down: bool) -> (v: i32)
    requires
        0 <= k <= hi - lo,
    ensures
        v == if down {
            hi - k
        } else {
            lo + k
        },
        lo <= v <= hi,
{
    if down {
        (hi as i64 - k) as i32
    } else {
        (lo as i64 + k) as i32
    }
}

/// Solid cells of the column at `(x, y)`.
fn scan_z<Q: VoxelQuery>(q: &Q, s: Span, x: i32, y: i32, down: bool) -> (r: Option<i32>)
    ensures
        match r {
            Some(z) => {
                &&& s.z0 <= z <= s.z1
                &&& q.solid(Cell { x, y, z })
                &&& forall|d: i32|
                    s.z0 <= d <= s.z1 && #[trigger] q.solid(Cell { x, y, z: d }) ==> if down {
                        d <= z
                    } else {
                        d >= z
                    }
            },
            None => forall|d: i32| s.z0 <= d <= s.z1 ==> !#[trigger] q.solid(Cell { x, y, z: d }),
        },
{
    if s.z1 < s.z0 {
        return None;
    }
    let n: i64 = s.z1 as i64 - s.z0 as i64;
    let mut k: i64 = 0;
    while k <= n
        invariant
            0 <= k <= n + 1,
            n == s.z1 - s.z0,
            forall|d: i32|
                s.z0 <= d <= s.z1 && (if down {
                    s.z1 - d
                } else {
                    d - s.z0
                }) < k ==> !#[trigger] q.solid(Cell { x, y, z: d }),
        decreases n + 1 - k,
    {
        let z: i32 = nth(s.z0, s.z1, k, down);
        if q.is_solid(Cell { x, y, z }) {
            return Some(z);
        }
        k += 1;
    }
    None
}

/// Solid cells of the slice at `x`.
fn scan_y<Q: VoxelQuery>(q: &Q, s: Span, x: i32, axis: Axis, down: bool) -> (r: Option<(i32, i32)>)
    ensures
        match r {
            Some((y, z)) => {
                &&& s.y0 <= y <= s.y1
                &&& s.z0 <= z <= s.z1
                &&& q.solid(Cell { x, y, z })
                &&& forall|dy: i32, dz: i32|
                    s.y0 <= dy <= s.y1 && s.z0 <= dz <= s.z1 && #[trigger] q.solid(Cell { x, y: dy, z: dz })
                        ==> !before(Cell { x, y: dy, z: dz }, Cell { x, y, z }, axis, down)
            },
            None => forall|dy: i32, dz: i32|
                s.y0 <= dy <= s.y1 && s.z0 <= dz <= s.z1 ==> !#[trigger] q.solid(Cell { x, y: dy, z: dz }),
        },
{
    if s.y1 < s.y0 {
        return None;
    }
    let fall = down && axis == Axis::Y;
    let back = down && axis == Axis::Z;
    let n: i64 = s.y1 as i64 - s.y0 as i64;
    let mut k: i64 = 0;
    while k <= n
        invariant
            0 <= k <= n + 1,
            n == s.y1 - s.y0,
            fall == (down && axis == Axis::Y),
            back == (down && axis == Axis::Z),
            forall|dy: i32, dz: i32|
                s.y0 <= dy <= s.y1 && s.z0 <= dz <= s.z1 && (if fall {
                    s.y1 - dy
                } else {
                    dy - s.y0
                }) < k ==> !#[trigger] q.solid(Cell { x, y: dy, z: dz }),
        decreases n + 1 - k,
    {
        let y: i32 = nth(s.y0, s.y1, k, fall);
        if let Some(z) = scan_z(q, s, x, y, back) {
            return Some((y, z));
        }
        k += 1;
    }
    None
}

/// The first solid cell that a move along `axis` runs into, among the cells
/// of `s`, slice by slice along x. The scan follows the move, so that a box
/// is stopped at the near face; a fall ends on the highest top of the first
/// slice that has a solid cell.
pub fn first_solid<Q: VoxelQuery>(q: &Q, s: Span, axis: Axis, down: bool) -> (hit: Option<Cell>)
    ensures
        first_hit(*q, s, axis, down, hit),
{
    if s.x1 < s.x0 {
        return None;
    }
    let west = down && axis == Axis::X;
    let n: i64 = s.x1 as i64 - s.x0 as i64;
    let mut k: i64 = 0;
    while k <= n
        invariant
            0 <= k <= n + 1,
            n == s.x1 - s.x0,
            west == (down && axis == Axis::X),
            forall|d: Cell|
                in_span(s, d) && (if west {
                    s.x1 - d.x
                } else {
                    d.x - s.x0
                }) < k ==> !#[trigger] q.solid(d),
        decreases n + 1 - k,
    {
        let x: i32 = nth(s.x0, s.x1, k, west);
        match scan_y(q, s, x, axis, down) {
            Some((y, z)) => {
                let c = Cell { x, y, z };
                proof {
                    assert forall|d: Cell| in_span(s, d) && #[trigger] q.solid(d) implies !before(
                        d,
                        c,
                        axis,
                        down,
                    ) by {
                        if d.x == x {
                            assert(d == Cell { x, y: d.y, z: d.z });
                        }
                    }
                }
                return Some(c);
            },
            None => {
                proof {
                    assert forall|d: Cell|
                        in_span(s, d) && (if west {
                            s.x1 - d.x
                        } else {
                            d.x - s.x0
                        }) < k + 1 implies !#[trigger] q.solid(d) by {
                        if d.x == x {
                            assert(d == Cell { x, y: d.y, z: d.z });
                        }
                    }
                }
            },
        }
        k += 1;
    }
    None
}

/// A wall that was touched: its normal points along the axis, against the
/// move.
#[derive(Clone, Copy, Debug, PartialEq, Eq, Structural)]
pub struct Wall {
    pub axis: Axis,
    pub against: Scalar,
}

/// What the last move touched.
#[derive(Clone, Copy, Debug, PartialEq, Eq)]
pub struct PhysicsState {
    pub on_ground: bool,
    pub on_ceiling: bool,
    pub on_wall: Option<Wall>,
    pub in_fluid: bool,
    pub ground_vel: Velocity,
}

impl Default for PhysicsState {
    fn default() -> (s: PhysicsState)
        ensures
            s == (PhysicsState {
                on_ground: false,
                on_ceiling: false,
                on_wall: None,
                in_fluid: false,
                ground_vel: still(),
            }),
    {
        PhysicsState {
            on_ground: false,
            on_ceiling: false,
            on_wall: None,
            in_fluid: false,
            ground_vel: Velocity::zero(),
        }
    }
}

impl PhysicsState {
    /// Forget the last move's contacts.
    pub fn begin_move(&mut self)
        ensures
            *final(self) == (PhysicsState {
                on_ground: false,
                on_ceiling: false,
                on_wall: None,
                ground_vel: still(),
                ..*old(self)
            }),
    {
        self.on_ground = false;
        self.on_ceiling = false;
        self.on_wall = None;
        self.ground_vel = Velocity::zero();
    }
}

#[derive(Clone, Copy, Debug, PartialEq, Eq, Structural)]
pub struct MoveResult {
    pub hit_x: bool,
    pub hit_y: bool,
    pub hit_z: bool,
    pub grounded: bool,
    pub ground_vel: Velocity,
}

impl Default for MoveResult {
    fn default() -> (r: MoveResult)
        ensures
            r == (MoveResult {
                hit_x: false,
                hit_y: false,
                hit_z: false,
                grounded: false,
                ground_vel: still(),
            }),
    {
        MoveResult {
            hit_x: false,
            hit_y: false,
            hit_z: false,
            grounded: false,
            ground_vel: Velocity::zero(),
        }
    }
}

/// Where a stopped box comes to rest on its axis, a skin off the surface.
#[derive(Clone, Copy, Debug, PartialEq, Eq)]
pub enum Rest {
    /// Its far side before the low face of the cell.
    Before(Cell),
    /// Its near side behind the high face of the cell.
    Behind(Cell),
    /// On the surface of the cell.
    OnTop(Cell),
}

/// Contacts after a move by `amount` along `axis` was stopped by a cell
/// whose ground moves at `ground`.
pub open spec fn touched(state: PhysicsState, axis: Axis, amount: Scalar, ground: Velocity) -> PhysicsState {
    match axis {
        Axis::Y => if (Scalar { bits: 0 }).lt(amount) {
            PhysicsState { on_ceiling: true, ..state }
        } else {
            PhysicsState { on_ground: true, ground_vel: ground, ..state }
        },
        _ => PhysicsState { on_wall: Some(Wall { axis, against: amount }), ..state },
    }
}

/// The result of the move so far, after that.
pub open spec fn counted(r: MoveResult, axis: Axis, amount: Scalar, ground: Velocity) -> MoveResult {
    match axis {
        Axis::X => MoveResult { hit_x: true, ..r },
        Axis::Y => if (Scalar { bits: 0 }).lt(amount) {
            MoveResult { hit_y: true, ..r }
        } else {
            MoveResult { hit_y: true, grounded: true, ground_vel: ground, ..r }
        },
        Axis::Z => MoveResult { hit_z: true, ..r },
    }
}

/// Where the box comes to rest, after that.
pub open spec fn rests(axis: Axis, amount: Scalar, cell: Cell) -> Rest {
    if (Scalar { bits: 0 }).lt(amount) {
        Rest::Before(cell)
    } else if axis == Axis::Y {
        Rest::OnTop(cell)
    } else {
        Rest::Behind(cell)
    }
}

/// Resolve a move by `amount` along `axis` that brought a box over the cells
/// of `s`. `None`: nothing stops it.
pub fn resolve_axis<Q: VoxelQuery>(
    q: &Q,
    s: Span,
    axis: Axis,
    amount: Scalar,
    result: &mut MoveResult,
    state: &mut PhysicsState,
) -> (rest: Option<Rest>)
    ensures
        ({
            let zero = Scalar { bits: 0 };
            let down = amount.lt(zero);
            match rest {
                None => {
                    &&& amount.eqv(zero) || first_hit(*q, s, axis, down, None)
                    &&& *final(result) == *old(result)
                    &&& *final(state) == *old(state)
                },
                Some(r) => {
                    &&& !amount.eqv(zero)
                    &&& exists|cell: Cell|
                        #[trigger] in_span(s, cell) && first_hit(*q, s, axis, down, Some(cell))
                            && r == rests(axis, amount, cell) && *final(result) == counted(
                            *old(result),
                            axis,
                            amount,
                            q.drift(cell),
                        ) && *final(state) == touched(*old(state), axis, amount, q.drift(cell))
                },
            }
        }),
{
    let zero = Scalar::zero();
    if amount.same(zero) {
        return None;
    }
    let cell = match first_solid(q, s, axis, amount.less(zero)) {
        Some(c) => c,
        None => return None,
    };
    let up = zero.less(amount);
    match axis {
        Axis::X => {
            result.hit_x = true;
            state.on_wall = Some(Wall { axis, against: amount });
        },
        Axis::Z => {
            result.hit_z = true;
            state.on_wall = Some(Wall { axis, against: amount });
        },
        Axis::Y => {
            result.hit_y = true;
            if up {
                state.on_ceiling = true;
            } else {
                let ground = q.ground_velocity(cell);
                result.grounded = true;
                state.on_ground = true;
                state.ground_vel = ground;
                result.ground_vel = ground;
            }
        },
    }
    let rest = if up {
        Rest::Before(cell)
    } else if axis == Axis::Y {
        Rest::OnTop(cell)
    } else {
        Rest::Behind(cell)
    };
    proof {
        assert(in_span(s, cell));
        assert(*result == counted(*old(result), axis, amount, q.drift(cell)));
        assert(*state == touched(*old(state), axis, amount, q.drift(cell)));
    }
    Some(rest)
}

/// The scan meets one cell first, and only one.
pub proof fn law_first_cell_is_one<Q: VoxelQuery>(
    q: Q,
    s: Span,
    axis: Axis,
    down: bool,
    a: Option<Cell>,
    b: Option<Cell>,
)
    requires
        first_hit(q, s, axis, down, a),
        first_hit(q, s, axis, down, b),
    ensures
        a == b,
{
    if let (Some(c), Some(d)) = (a, b) {
        assert(!before(c, d, axis, down));
        assert(!before(d, c, axis, down));
        assert(c == d);
    }
}

/// Of the solid cells at the hit's `x`, a fall ends on a highest one and a
/// climb at a lowest.
pub proof fn law_falls_end_on_the_highest_top<Q: VoxelQuery>(
    q: Q,
    s: Span,
    down: bool,
    hit: Cell,
    other: Cell,
)
    requires
        first_hit(q, s, Axis::Y, down, Some(hit)),
        in_span(s, other),
        q.solid(other),
        other.x == hit.x,
    ensures
        down ==> other.y <= hit.y,
        !down ==> other.y >= hit.y,
{
    assert(!before(other, hit, Axis::Y, down));
}

/// Axis of the least overlap, the first of several, if the boxes overlap on
/// every axis.
pub open spec fn least_axis(ox: Scalar, oy: Scalar, oz: Scalar) -> Option<Axis> {
    let zero = Scalar { bits: 0 };
    if ox.eqv(zero) || oy.eqv(zero) || oz.eqv(zero) {
        None
    } else if ox.le(oy) && ox.le(oz) {
        Some(Axis::X)
    } else if oy.le(ox) && oy.le(oz) {
        Some(Axis::Y)
    } else {
        Some(Axis::Z)
    }
}

/// Axis along which two overlapping boxes are pushed apart: the one they
/// overlap least on. None if they do not overlap.
pub fn push_axis(ox: Scalar, oy: Scalar, oz: Scalar) -> (r: Option<Axis>)
    ensures
        r == least_axis(ox, oy, oz),
{
    let zero = Scalar::zero();
    if ox.same(zero) || oy.same(zero) || oz.same(zero) {
        None
    } else if ox.at_most(oy) && ox.at_most(oz) {
        Some(Axis::X)
    } else if oy.at_most(ox) && oy.at_most(oz) {
        Some(Axis::Y)
    } else {
        Some(Axis::Z)
    }
}

/// Whether the box at `a` is pushed back, and the one at `b` ahead, along
/// the axis that their positions are taken on.
pub fn pushes_back(a: Scalar, b: Scalar) -> (r: bool)
    ensures
        r == a.lt(b),
{
    a.less(b)
}

/// The push is along an axis of least overlap.
pub proof fn law_push_is_least(ox: Scalar, oy: Scalar, oz: Scalar)
    requires
        !ox.nan(),
        !oy.nan(),
        !oz.nan(),
    ensures
        least_axis(ox, oy, oz) matches Some(axis) ==> {
            let least = match axis {
                Axis::X => ox,
                Axis::Y => oy,
                Axis::Z => oz,
            };
            least.le(ox) && least.le(oy) && least.le(oz)
        },
{
}

/// Half extents of a box after quarter turns about the vertical.
pub fn rotated_box_aabb<T: Copy>(half: [T; 3], rot: u8) -> (r: [T; 3])
    ensures
        rot % 2 == 1 ==> r@ == seq![half[2], half[1], half[0]],
        rot % 2 == 0 ==> r@ == half@,
{
    if rot % 4 == 1 || rot % 4 == 3 {
        let r = [half[2], half[1], half[0]];
        assert(r@ =~= seq![half[2], half[1], half[0]]);
        r
    } else {
        half
    }
}

/// Coordinate of a cell along an axis.
pub open spec fn along(c: Cell, axis: Axis) -> int {
    match axis {
        Axis::X => c.x as int,
        Axis::Y => c.y as int,
        Axis::Z => c.z as int,
    }
}

/// The box rests on the low side of the plane at `at`, up to it.
pub open spec fn rests_below(r: Rest, axis: Axis, at: int) -> bool {
    r matches Rest::Before(c) && along(c, axis) <= at
}

/// The box rests on the high side of the plane at `at`, from it on.
pub open spec fn rests_above(r: Rest, axis: Axis, at: int) -> bool {
    match r {
        Rest::Before(_) => false,
        Rest::Behind(c) => at <= along(c, axis) + 1,
        Rest::OnTop(c) => at <= along(c, axis) + 1,
    }
}

/// A stopped box rests on the side it came from, on each axis alike: below
/// the low face of the stopping cell after a move up the axis, above its
/// high face after a move down, and so never past the cell.
pub proof fn law_boxes_rest_where_they_came_from(axis: Axis, amount: Scalar, cell: Cell)
    ensures
        (Scalar { bits: 0 }).lt(amount) ==> {
            &&& rests(axis, amount, cell) == Rest::Before(cell)
            &&& rests_below(rests(axis, amount, cell), axis, along(cell, axis))
            &&& forall|at: int| !#[trigger] rests_above(rests(axis, amount, cell), axis, at)
        },
        amount.lt(Scalar { bits: 0 }) ==> {
            &&& rests(axis, amount, cell) == if axis == Axis::Y {
                Rest::OnTop(cell)
            } else {
                Rest::Behind(cell)
            }
            &&& rests_above(rests(axis, amount, cell), axis, along(cell, axis) + 1)
            &&& forall|at: int| !#[trigger] rests_below(rests(axis, amount, cell), axis, at)
        },
{
}

/// Opposite moves against one cell rest on opposite sides of it, on every
/// axis.
pub proof fn law_opposite_moves_rest_apart(axis: Axis, a: Scalar, b: Scalar, cell: Cell)
    requires
        a.lt(Scalar { bits: 0 }),
        (Scalar { bits: 0 }).lt(b),
    ensures
        rests(axis, a, cell) != rests(axis, b, cell),
        rests_below(rests(axis, b, cell), axis, along(cell, axis)),
        rests_above(rests(axis, a, cell), axis, along(cell, axis) + 1),
{
}

/// A stop along x or z is a touched wall on that axis, against the amount
/// of the move, and changes nothing else. A stop along y is the ceiling
/// after a move up, and the ground, with its velocity, after a move down.
pub proof fn law_contacts_follow_the_move(
    state: PhysicsState,
    axis: Axis,
    amount: Scalar,
    ground: Velocity,
)
    ensures
        ({
            let t = touched(state, axis, amount, ground);
            let up = (Scalar { bits: 0 }).lt(amount);
            &&& t.in_fluid == state.in_fluid
            &&& axis != Axis::Y ==> t.on_wall == Some(Wall { axis, against: amount })
            &&& axis == Axis::Y ==> t.on_wall == state.on_wall
            &&& t.on_ceiling == (state.on_ceiling || axis == Axis::Y && up)
            &&& t.on_ground == (state.on_ground || axis == Axis::Y && !up)
            &&& t.ground_vel == if axis == Axis::Y && !up {
                ground
            } else {
                state.ground_vel
            }
        }),
{
}

/// A stop counts as a hit on its own axis and no other; only a stop on the
/// way down grounds the box, on what moves at `ground`.
pub proof fn law_hits_are_counted_by_axis(
    r: MoveResult,
    axis: Axis,
    amount: Scalar,
    ground: Velocity,
)
    ensures
        ({
            let c = counted(r, axis, amount, ground);
            let down = axis == Axis::Y && !(Scalar { bits: 0 }).lt(amount);
            &&& c.hit_x == (r.hit_x || axis == Axis::X)
            &&& c.hit_y == (r.hit_y || axis == Axis::Y)
            &&& c.hit_z == (r.hit_z || axis == Axis::Z)
            &&& c.grounded == (r.grounded || down)
            &&& c.ground_vel == if down {
                ground
            } else {
                r.ground_vel
            }
        }),
{
}

/// A move is stopped exactly if a cell that the box overlaps is solid, the
/// cells at both ends of each range included.
pub proof fn law_moves_stop_at_solid_cells<Q: VoxelQuery>(
    q: Q,
    s: Span,
    axis: Axis,
    down: bool,
    hit: Option<Cell>,
)
    requires
        first_hit(q, s, axis, down, hit),
    ensures
        hit is Some <==> exists|c: Cell| #[trigger]
            q.solid(c) && s.x0 <= c.x <= s.x1 && s.y0 <= c.y <= s.y1 && s.z0 <= c.z <= s.z1,
        hit matches Some(c) ==> q.solid(c) && s.x0 <= c.x <= s.x1 && s.y0 <= c.y <= s.y1 && s.z0
            <= c.z <= s.z1,
{
    if let Some(c) = hit {
        assert(q.solid(c));
    } else {
        assert forall|c: Cell| #[trigger] q.solid(c) implies !(s.x0 <= c.x <= s.x1 && s.y0 <= c.y
            <= s.y1 && s.z0 <= c.z <= s.z1) by {
            if s.x0 <= c.x <= s.x1 && s.y0 <= c.y <= s.y1 && s.z0 <= c.z <= s.z1 {
                assert(in_span(s, c));
            }
        }
    }
}

/// The cell that stops a move is the nearest one in its way: of all solid
/// cells the first along x for a move along x, and for the other axes of
/// those in its slice, or its column, the first along the move. Ties go to
/// the lower coordinates.
pub proof fn law_the_nearest_cell_stops<Q: VoxelQuery>(
    q: Q,
    s: Span,
    axis: Axis,
    down: bool,
    hit: Cell,
    other: Cell,
)
    requires
        first_hit(q, s, axis, down, Some(hit)),
        q.solid(other),
        s.x0 <= other.x <= s.x1,
        s.y0 <= other.y <= s.y1,
        s.z0 <= other.z <= s.z1,
    ensures
        axis == Axis::X && down ==> other.x <= hit.x,
        axis == Axis::X && !down ==> other.x >= hit.x,
        axis != Axis::X ==> other.x >= hit.x,
        axis == Axis::Y && other.x == hit.x && down ==> other.y <= hit.y,
        axis == Axis::Y && other.x == hit.x && !down ==> other.y >= hit.y,
        axis != Axis::Y && other.x == hit.x ==> other.y >= hit.y,
        axis == Axis::Z && other.x == hit.x && other.y == hit.y && down ==> other.z <= hit.z,
        axis == Axis::Z && other.x == hit.x && other.y == hit.y && !down ==> other.z >= hit.z,
        axis != Axis::Z && other.x == hit.x && other.y == hit.y ==> other.z >= hit.z,
{
    assert(in_span(s, other));
    assert(!before(other, hit, axis, down));
}

/// Boxes are pushed exactly if they overlap on all three axes; of equal
/// overlaps the push goes by x before y, and by y before z.
pub proof fn law_pushes_need_all_overlaps(ox: Scalar, oy: Scalar, oz: Scalar)
    requires
        (Scalar { bits: 0 }).le(ox),
        (Scalar { bits: 0 }).le(oy),
        (Scalar { bits: 0 }).le(oz),
    ensures
        least_axis(ox, oy, oz) is None <==> ox.rank() == 0 || oy.rank() == 0 || oz.rank() == 0,
        least_axis(ox, oy, oz) == Some(Axis::X) ==> ox.rank() <= oy.rank() && ox.rank()
            <= oz.rank(),
        least_axis(ox, oy, oz) == Some(Axis::Y) ==> oy.rank() < ox.rank() && oy.rank()
            <= oz.rank(),
        least_axis(ox, oy, oz) == Some(Axis::Z) ==> oz.rank() < ox.rank() && oz.rank()
            < oy.rank(),
{
}

} // verus!
