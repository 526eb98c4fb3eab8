//! Cube coordinates on a hexagonal grid.
//!
//! A [`Cubic`] holds the three cube coordinates of a hex cell. Rotations turn
//! a coordinate by sixty degrees around the origin, [`Cubic::distance`] is the
//! hex-grid distance, and [`Cubic::ring`] / [`Cubic::spiral`] enumerate the
//! cells at (or within) a given distance of a center.

use vstd::prelude::*;

verus! {

/// A point in cube coordinates.
#[derive(Clone, Copy, Debug, PartialEq, Eq, Structural, Hash)]
pub struct Cubic(pub i64, pub i64, pub i64);

/// The mathematical value of a coordinate triple.
pub type Tri = (int, int, int);

impl View for Cubic {
    type V = Tri;

    open spec fn view(&self) -> Tri {
        (self.0 as int, self.1 as int, self.2 as int)
    }
}

impl Default for Cubic {
    fn default() -> (c: Cubic)
        ensures
            c@ == (0int, 0int, 0int),
    {
        Cubic(0, 0, 0)
    }
}

pub open spec fn tri_add(a: Tri, b: Tri) -> Tri {
    (a.0 + b.0, a.1 + b.1, a.2 + b.2)
}

pub open spec fn tri_sub(a: Tri, b: Tri) -> Tri {
    (a.0 - b.0, a.1 - b.1, a.2 - b.2)
}

pub open spec fn tri_scale(a: Tri, k: int) -> Tri {
    (a.0 * k, a.1 * k, a.2 * k)
}

pub open spec fn abs(x: int) -> int {
    if x < 0 {
        -x
    } else {
        x
    }
}

pub open spec fn max3(a: int, b: int, c: int) -> int {
    if a >= b && a >= c {
        a
    } else if b >= c {
        b
    } else {
        c
    }
}

/// Hex distance between two cube points: the largest coordinate difference.
pub open spec fn tri_distance(a: Tri, b: Tri) -> int {
    max3(abs(a.0 - b.0), abs(a.1 - b.1), abs(a.2 - b.2))
}

/// Whether every coordinate of `a` lies in `[-bound, bound]`.
pub open spec fn tri_within(a: Tri, bound: int) -> bool {
    &&& -bound <= a.0 <= bound
    &&& -bound <= a.1 <= bound
    &&& -bound <= a.2 <= bound
}

/// Whether every coordinate of `a` can move by up to `r` either way and
/// stay within `i64`.
pub open spec fn tri_spans(a: Tri, r: int) -> bool {
    &&& i64::MIN + r <= a.0 <= i64::MAX - r
    &&& i64::MIN + r <= a.1 <= i64::MAX - r
    &&& i64::MIN + r <= a.2 <= i64::MAX - r
}

/// Whether `a` can be held by a [`Cubic`].
pub open spec fn tri_fits(a: Tri) -> bool {
    &&& i64::MIN <= a.0 <= i64::MAX
    &&& i64::MIN <= a.1 <= i64::MAX
    &&& i64::MIN <= a.2 <= i64::MAX
}

/// The six unit offsets, indexed as the neighbors of a cell.
pub open spec fn unit(i: int) -> Tri {
    if i == 0 {
        (1int, 0int, -1int)
    } else if i == 1 {
        (1int, -1int, 0int)
    } else if i == 2 {
        (0int, -1int, 1int)
    } else if i == 3 {
        (-1int, 0int, 1int)
    } else if i == 4 {
        (-1int, 1int, 0int)
    } else {
        (0int, 1int, -1int)
    }
}

/// One sixty-degree turn to the right: `(x, y, z) -> (-y, -z, -x)`.
pub open spec fn turn_right(a: Tri) -> Tri {
    (-a.1, -a.2, -a.0)
}

/// One sixty-degree turn to the left: `(x, y, z) -> (-z, -x, -y)`.
pub open spec fn turn_left(a: Tri) -> Tri {
    (-a.2, -a.0, -a.1)
}

/// `n` turns to the right.
pub open spec fn turns_right(a: Tri, n: nat) -> Tri
    decreases n,
{
    if n == 0 {
        a
    } else {
        turn_right(turns_right(a, (n - 1) as nat))
    }
}

/// `n` turns to the left.
pub open spec fn turns_left(a: Tri, n: nat) -> Tri
    decreases n,
{
    if n == 0 {
        a
    } else {
        turn_left(turns_left(a, (n - 1) as nat))
    }
}

/// The rotation that [`Cubic::rotate`] performs: `d` turns to the right
/// when `d` is not negative, `-d` turns to the left otherwise.
pub open spec fn rotated(a: Tri, d: int) -> Tri {
    if d < 0 {
        turns_left(a, (-d) as nat)
    } else {
        turns_right(a, d as nat)
    }
}

/// The first cell of side `side` of the ring of radius `r` around the origin.
pub open spec fn ring_corner(side: int, r: int) -> Tri {
    if side == 0 {
        (-r, r, 0int)
    } else if side == 1 {
        (0int, r, -r)
    } else if side == 2 {
        (r, 0int, -r)
    } else if side == 3 {
        (r, -r, 0int)
    } else if side == 4 {
        (0int, -r, r)
    } else {
        (-r, 0int, r)
    }
}

/// The `k`-th cell that [`Cubic::ring`] yields for the ring of radius `r`
/// around `center`: it starts `r` steps in direction 4 and walks each side
/// `i` of the hexagon in direction `i`.
pub open spec fn ring_at(center: Tri, r: int, k: int) -> Tri {
    if r == 0 {
        center
    } else {
        tri_add(center, tri_add(ring_corner(k / r, r), tri_scale(unit(k / r), k % r)))
    }
}

/// Number of cells that [`Cubic::ring`] yields for radius `r`.
pub open spec fn ring_len(r: int) -> int {
    if r == 0 {
        1
    } else {
        6 * r
    }
}

/// Number of cells within distance `r` of a center: `1 + 3 r (r + 1)`.
pub open spec fn spiral_len(r: int) -> int {
    1 + 3 * r * (r + 1)
}

/// Number of cells that [`Cubic::spiral`] yields before ring `r` starts.
pub open spec fn spiral_offset(r: int) -> int
    decreases r,
{
    if r <= 0 {
        0
    } else {
        spiral_offset(r - 1) + ring_len(r - 1)
    }
}

/// The unit offset `i` as a [`Cubic`].
pub fn unit_offset(i: usize) -> (c: Cubic)
    requires
        i < 6,
    ensures
        c@ == unit(i as int),
{
    match i {
        0 => Cubic(1, 0, -1),
        1 => Cubic(1, -1, 0),
        2 => Cubic(0, -1, 1),
        3 => Cubic(-1, 0, 1),
        4 => Cubic(-1, 1, 0),
        _ => Cubic(0, 1, -1),
    }
}

impl Cubic {
    /// Component-wise sum.
    pub fn add(self, rhs: Cubic) -> (c: Cubic)
        requires
            tri_fits(tri_add(self@, rhs@)),
        ensures
            c@ == tri_add(self@, rhs@),
    {
        Cubic(self.0 + rhs.0, self.1 + rhs.1, self.2 + rhs.2)
    }

    /// Component-wise difference.
    pub fn sub(self, rhs: Cubic) -> (c: Cubic)
        requires
            tri_fits(tri_sub(self@, rhs@)),
        ensures
            c@ == tri_sub(self@, rhs@),
    {
        Cubic(self.0 - rhs.0, self.1 - rhs.1, self.2 - rhs.2)
    }

    /// Multiplies each component by `k`.
    pub fn mul(self, k: i64) -> (c: Cubic)
        requires
            tri_fits(tri_scale(self@, k as int)),
        ensures
            c@ == tri_scale(self@, k as int),
    {
        Cubic(self.0 * k, self.1 * k, self.2 * k)
    }

    /// Adds `rhs` in place.
    pub fn add_assign(&mut self, rhs: Cubic)
        requires
            tri_fits(tri_add(old(self)@, rhs@)),
        ensures
            final(self)@ == tri_add(old(self)@, rhs@),
    {
        *self = self.add(rhs);
    }

    /// Turns the point sixty degrees to the left around the origin.
    pub fn rotate_left(self) -> (c: Cubic)
        requires
            tri_within(self@, i64::MAX as int),
        ensures
            c@ == turn_left(self@),
    {
        Cubic(-self.2, -self.0, -self.1)
    }

    /// Turns the point sixty degrees to the right around the origin.
    pub fn rotate_right(self) -> (c: Cubic)
        requires
            tri_within(self@, i64::MAX as int),
        ensures
            c@ == turn_right(self@),
    {
        Cubic(-self.1, -self.2, -self.0)
    }

    /// Turns the point `d` times: to the right when `d >= 0`, to the left
    /// `-d` times otherwise.
    pub fn rotate(self, d: i8) -> (c: Cubic)
        requires
            d != i8::MIN,
            tri_within(self@, i64::MAX as int),
        ensures
            c@ == rotated(self@, d as int),
    {
        let left = d < 0;
        let n: i8 = if left {
            -d
        } else {
            d
        };
        let mut cur = self;
        let mut k: i8 = 0;
        while k < n
            invariant
                0 <= k <= n,
                n == (if left {
                    -d
                } else {
                    d as int
                }),
                tri_within(cur@, i64::MAX as int),
                cur@ == (if left {
                    turns_left(self@, k as nat)
                } else {
                    turns_right(self@, k as nat)
                }),
            decreases n - k,
        {
            if left {
                cur = cur.rotate_left();
            } else {
                cur = cur.rotate_right();
            }
            k = k + 1;
        }
        cur
    }

    /// The hex distance between two points.
    pub fn distance(self, other: Cubic) -> (d: i64)
        requires
            tri_within(tri_sub(self@, other@), i64::MAX as int),
        ensures
            d as int == tri_distance(self@, other@),
    {
        let a = self.0 - other.0;
        let b = self.1 - other.1;
        let c = self.2 - other.2;
        let a = if a < 0 {
            -a
        } else {
            a
        };
        let b = if b < 0 {
            -b
        } else {
            b
        };
        let c = if c < 0 {
            -c
        } else {
            c
        };
        let m = if a >= b {
            a
        } else {
            b
        };
        if m >= c {
            m
        } else {
            c
        }
    }

    /// The neighbor in direction `i`, if `i` names one of the six directions.
    pub fn neighbor(self, i: u8) -> (n: Option<Cubic>)
        requires
            i < 6 ==> tri_fits(tri_add(unit(i as int), self@)),
        ensures
            i < 6 ==> n == Some(Cubic::spec_from(tri_add(unit(i as int), self@))),
            i >= 6 ==> n is None,
    {
        if i < 6 {
            Some(unit_offset(i as usize).add(self))
        } else {
            None
        }
    }

    /// The cell holding the triple `t`.
    pub open spec fn spec_from(t: Tri) -> Cubic {
        Cubic(t.0 as i64, t.1 as i64, t.2 as i64)
    }

    /// The six neighbors, in direction order.
    pub fn neighbors(self) -> (ns: Vec<Cubic>)
        requires
            tri_spans(self@, 1),
        ensures
            ns.len() == 6,
            forall|i: int| 0 <= i < 6 ==> #[trigger] ns@[i]@ == tri_add(unit(i), self@),
    {
        let mut ns: Vec<Cubic> = Vec::new();
        let mut i: usize = 0;
        while i < 6
            invariant
                i <= 6,
                ns.len() == i,
                tri_spans(self@, 1),
                forall|j: int| 0 <= j < i ==> #[trigger] ns@[j]@ == tri_add(unit(j), self@),
            decreases 6 - i,
        {
            ns.push(unit_offset(i).add(self));
            i = i + 1;
        }
        ns
    }

    /// The cells at distance `radius` from `self`, starting `radius` steps in
    /// direction 4 and walking the six sides of the hexagon in direction
    /// order. A radius of 0 yields the center alone.
    pub fn ring(self, radius: u64) -> (out: Vec<Cubic>)
        requires
            6 * radius <= usize::MAX,
            tri_spans(self@, radius as int),
        ensures
            out.len() == ring_len(radius as int),
            forall|k: int| 0 <= k < out.len() ==> #[trigger] out@[k]@ == ring_at(self@, radius as int, k),
    {
        let mut out: Vec<Cubic> = Vec::new();
        if radius == 0 {
            out.push(self);
            return out;
        }
        let r = radius as i64;
        proof {
            lemma_ring_step_start(self@, r as int);
            lemma_unit_scaled(4, r as int);
        }
        let mut cur = self.add(unit_offset(4).mul(r));
        let mut i: usize = 0;
        while i < 6
            invariant
                0 < r,
                r == radius,
                6 * radius <= usize::MAX,
                tri_spans(self@, radius as int),
                i <= 6,
                out.len() == i * radius,
                i < 6 ==> cur@ == ring_at(self@, r as int, i * r),
                forall|k: int| 0 <= k < out.len() ==> #[trigger] out@[k]@ == ring_at(self@, r as int, k),
            decreases 6 - i,
        {
            let mut j: u64 = 0;
            while j < radius
                invariant
                    0 < r,
                    r == radius,
                    6 * radius <= usize::MAX,
                    tri_spans(self@, radius as int),
                    i < 6,
                    j <= radius,
                    out.len() == i * radius + j,
                    i * r + j < 6 * r ==> cur@ == ring_at(self@, r as int, i * r + j),
                    forall|k: int| 0 <= k < out.len() ==> #[trigger] out@[k]@ == ring_at(self@, r as int, k),
                decreases radius - j,
            {
                proof {
                    lemma_ring_step(self@, r as int, i as int, j as int);
                    lemma_mul_le_bound(i as int, r as int);
                    if j + 1 < radius || i + 1 < 6 {
                        assert(i * r + j + 1 < 6 * r) by (nonlinear_arith)
                            requires
                                0 <= i < 6,
                                0 <= j < r,
                                j + 1 < r || i + 1 < 6,
                        ;
                        lemma_ring_at_bounded(self@, r as int, i * r + j + 1);
                    }
                }
                out.push(cur);
                if j + 1 < radius || i + 1 < 6 {
                    cur = cur.add(unit_offset(i));
                }
                j = j + 1;
            }
            proof {
                lemma_mul_le_bound(i as int + 1, r as int);
                assert((i + 1) * r == i * r + r) by (nonlinear_arith);
                assert(i + 1 < 6 ==> i * r + r < 6 * r) by (nonlinear_arith)
                    requires
                        0 < r,
                ;
            }
            i = i + 1;
        }
        out
    }

    /// All cells within distance `radius` of `self`: the rings of radius
    /// `0..=radius`, innermost first.
    pub fn spiral(self, radius: u64) -> (out: Vec<Cubic>)
        requires
            3 * radius * (radius + 1) + 1 <= usize::MAX,
            tri_spans(self@, radius as int),
        ensures
            out.len() == spiral_len(radius as int),
            forall|r: int, k: int|
                #![trigger ring_at(self@, r, k)]
                0 <= r <= radius && 0 <= k < ring_len(r) ==> out@[spiral_offset(r) + k]@ == ring_at(self@, r, k),
    {
        let mut out: Vec<Cubic> = Vec::new();
        let mut r: u64 = 0;
        loop
            invariant
                3 * radius * (radius + 1) + 1 <= usize::MAX,
                tri_spans(self@, radius as int),
                r <= radius,
                out.len() == spiral_offset(r as int),
                forall|q: int, k: int|
                    #![trigger ring_at(self@, q, k)]
                    0 <= q < r && 0 <= k < ring_len(q) ==> out@[spiral_offset(q) + k]@ == ring_at(self@, q, k),
            decreases radius - r,
        {
            proof {
                lemma_spiral_len_bound(r as int, radius as int);
            }
            let ring = self.ring(r);
            let ghost before = out@;
            let mut t: usize = 0;
            while t < ring.len()
                invariant
                    t <= ring.len(),
                    ring.len() == ring_len(r as int),
                    out@.len() == before.len() + t,
                    before.len() == spiral_offset(r as int),
                    spiral_offset(r as int + 1) <= usize::MAX,
                    spiral_offset(r as int + 1) == spiral_offset(r as int) + ring_len(r as int),
                    forall|i: int| 0 <= i < before.len() ==> out@[i] == before[i],
                    forall|k: int| 0 <= k < t ==> out@[before.len() + k] == ring@[k],
                decreases ring.len() - t,
            {
                out.push(ring[t]);
                t = t + 1;
            }
            proof {
                assert forall|q: int, k: int|
                    #![trigger ring_at(self@, q, k)]
                    0 <= q < r + 1 && 0 <= k < ring_len(q) implies out@[spiral_offset(q) + k]@
                    == ring_at(self@, q, k) by {
                    if q < r {
                        assert(spiral_offset(q + 1) == spiral_offset(q) + ring_len(q));
                        lemma_spiral_offset_mono(q + 1, r as int);
                        lemma_spiral_offset_nonneg(q);
                        let idx = spiral_offset(q) + k;
                        assert(0 <= idx < before.len());
                        assert(out@[idx] == before[idx]);
                    } else {
                        assert(out@[spiral_offset(q) + k] == ring@[k]);
                    }
                }
            }
            if r == radius {
                proof {
                    lemma_spiral_offset(r as int + 1);
                    assert(3 * (r + 1) * (r + 1 - 1) + 1 == 1 + 3 * r * (r + 1)) by (nonlinear_arith);
                }
                return out;
            }
            r = r + 1;
        }
    }
}

proof fn lemma_mul_le_bound(i: int, r: int)
    requires
        0 <= i <= 6,
        0 < r,
    ensures
        i * r <= 6 * r,
        0 <= i * r,
{
    assert(i * r <= 6 * r) by (nonlinear_arith)
        requires
            0 <= i <= 6,
            0 < r,
    ;
    assert(0 <= i * r) by (nonlinear_arith)
        requires
            0 <= i,
            0 < r,
    ;
}

proof fn lemma_div_mod_of(r: int, i: int, j: int)
    requires
        0 < r,
        0 <= j < r,
        0 <= i,
    ensures
        (i * r + j) / r == i,
        (i * r + j) % r == j,
{
    vstd::arithmetic::div_mod::lemma_fundamental_div_mod_converse(i * r + j, r, i, j);
}

/// The walk starts at the corner of side 0.
proof fn lemma_ring_step_start(c: Tri, r: int)
    requires
        0 < r,
    ensures
        ring_at(c, r, 0 * r) == tri_add(c, tri_scale(unit(4), r)),
{
    lemma_div_mod_of(r, 0, 0);
    lemma_unit_scaled(4, r);
    lemma_scale_zero(unit(0));
}

/// Every cell of the walk stays within `r` of the center in each coordinate.
proof fn lemma_ring_at_bounded(c: Tri, r: int, k: int)
    requires
        0 < r,
        0 <= k < 6 * r,
    ensures
        tri_within(tri_sub(ring_at(c, r, k), c), r),
{
    let i = k / r;
    let j = k % r;
    vstd::arithmetic::div_mod::lemma_fundamental_div_mod(k, r);
    assert(0 <= j < r) by {
        vstd::arithmetic::div_mod::lemma_mod_bound(k, r);
    }
    assert(0 <= i < 6) by {
        vstd::arithmetic::div_mod::lemma_div_pos_is_pos(k, r);
        vstd::arithmetic::div_mod::lemma_div_by_multiple_is_strongly_ordered(k, 6 * r, 6, r);
        vstd::arithmetic::div_mod::lemma_div_by_multiple(6, r);
    }
    lemma_unit_scaled(i, j);
}

/// Scaling by `j + 1` adds the point once more to scaling by `j`.
proof fn lemma_scale_succ(a: Tri, j: int)
    ensures
        tri_scale(a, j + 1) == tri_add(tri_scale(a, j), a),
{
    assert(a.0 * (j + 1) == a.0 * j + a.0) by (nonlinear_arith);
    assert(a.1 * (j + 1) == a.1 * j + a.1) by (nonlinear_arith);
    assert(a.2 * (j + 1) == a.2 * j + a.2) by (nonlinear_arith);
}

/// Scaling by zero gives the origin.
proof fn lemma_scale_zero(a: Tri)
    ensures
        tri_scale(a, 0) == (0int, 0int, 0int),
{
    assert(a.0 * 0 == 0) by (nonlinear_arith);
    assert(a.1 * 0 == 0) by (nonlinear_arith);
    assert(a.2 * 0 == 0) by (nonlinear_arith);
}

/// The unit offsets scaled by `r`.
proof fn lemma_unit_scaled(i: int, r: int)
    requires
        0 <= i < 6,
    ensures
        tri_scale(unit(i), r) == (if i == 0 {
            (r, 0int, -r)
        } else if i == 1 {
            (r, -r, 0int)
        } else if i == 2 {
            (0int, -r, r)
        } else if i == 3 {
            (-r, 0int, r)
        } else if i == 4 {
            (-r, r, 0int)
        } else {
            (0int, r, -r)
        }),
{
    if i == 0 {
        assert(unit(i) == (1int, 0int, -1int));
    } else if i == 1 {
        assert(unit(i) == (1int, -1int, 0int));
    } else if i == 2 {
        assert(unit(i) == (0int, -1int, 1int));
    } else if i == 3 {
        assert(unit(i) == (-1int, 0int, 1int));
    } else if i == 4 {
        assert(unit(i) == (-1int, 1int, 0int));
    } else {
        assert(unit(i) == (0int, 1int, -1int));
    }
}

/// The end of side `i` is the corner of side `i + 1`.
proof fn lemma_corner_step(i: int, r: int)
    requires
        0 <= i < 5,
    ensures
        ring_corner(i + 1, r) == tri_add(ring_corner(i, r), tri_scale(unit(i), r)),
{
    lemma_unit_scaled(i, r);
}

/// One step of the walk: adding the side's unit offset moves from cell `k`
/// to cell `k + 1`, also across a corner.
proof fn lemma_ring_step(c: Tri, r: int, i: int, j: int)
    requires
        0 < r,
        0 <= i < 6,
        0 <= j < r,
    ensures
        (j + 1 < r || i + 1 < 6) ==> ring_at(c, r, i * r + j + 1) == tri_add(ring_at(c, r, i * r + j), unit(i)),
        i * r + j < 6 * r,
        (i + 1) * r == i * r + r,
{
    lemma_div_mod_of(r, i, j);
    assert((i + 1) * r == i * r + r) by (nonlinear_arith);
    assert(i * r + j < 6 * r) by (nonlinear_arith)
        requires
            0 <= i < 6,
            0 <= j < r,
    ;
    lemma_scale_succ(unit(i), j);
    if j + 1 < r {
        lemma_div_mod_of(r, i, j + 1);
    } else if i + 1 < 6 {
        lemma_div_mod_of(r, i + 1, 0);
        assert(i * r + j + 1 == (i + 1) * r + 0);
        lemma_corner_step(i, r);
        lemma_scale_zero(unit(i + 1));
    }
}

proof fn lemma_spiral_offset(r: int)
    requires
        0 <= r,
    ensures
        spiral_offset(r) == 3 * r * (r - 1) + (if r > 0 {
            1int
        } else {
            0int
        }),
    decreases r,
{
    if r > 0 {
        lemma_spiral_offset(r - 1);
        assert(spiral_offset(r) == spiral_offset(r - 1) + ring_len(r - 1));
        if r == 1 {
            assert(spiral_offset(0) == 0);
            assert(3 * r * (r - 1) == 0) by (nonlinear_arith)
                requires
                    r == 1,
            ;
        } else {
            let p = spiral_offset(r - 1);
            assert(p == 3 * (r - 1) * (r - 1 - 1) + 1);
            assert(3 * (r - 1) * (r - 1 - 1) + 1 + 6 * (r - 1) == 3 * r * (r - 1) + 1) by (nonlinear_arith);
        }
    } else {
        assert(3 * r * (r - 1) == 0) by (nonlinear_arith)
            requires
                r == 0,
        ;
    }
}

proof fn lemma_spiral_offset_nonneg(r: int)
    ensures
        0 <= spiral_offset(r),
    decreases r,
{
    if r > 0 {
        lemma_spiral_offset_nonneg(r - 1);
    }
}

proof fn lemma_spiral_offset_mono(a: int, b: int)
    requires
        0 <= a <= b,
    ensures
        spiral_offset(a) <= spiral_offset(b),
    decreases b - a,
{
    if a < b {
        lemma_spiral_offset_mono(a, b - 1);
    }
}

proof fn lemma_spiral_len_bound(r: int, radius: int)
    requires
        0 <= r <= radius,
        3 * radius * (radius + 1) + 1 <= usize::MAX,
    ensures
        spiral_offset(r + 1) <= usize::MAX,
        spiral_offset(r + 1) == spiral_offset(r) + ring_len(r),
        6 * r <= usize::MAX,
{
    lemma_spiral_offset(r + 1);
    assert(3 * (r + 1) * r + 1 <= 3 * radius * (radius + 1) + 1) by (nonlinear_arith)
        requires
            0 <= r <= radius,
    ;
    assert(6 * r <= 3 * (r + 1) * r + 1) by (nonlinear_arith)
        requires
            0 <= r,
    ;
}

/// The six rotations of a point, by number of right turns modulo six.
pub open spec fn turn_table(a: Tri, m: int) -> Tri {
    if m == 0 {
        a
    } else if m == 1 {
        (-a.1, -a.2, -a.0)
    } else if m == 2 {
        (a.2, a.0, a.1)
    } else if m == 3 {
        (-a.0, -a.1, -a.2)
    } else if m == 4 {
        (a.1, a.2, a.0)
    } else {
        (-a.2, -a.0, -a.1)
    }
}

/// `n` right turns depend only on `n` modulo six.
pub proof fn lemma_turns_right_table(a: Tri, n: nat)
    ensures
        turns_right(a, n) == turn_table(a, (n % 6) as int),
    decreases n,
{
    if n > 0 {
        lemma_turns_right_table(a, (n - 1) as nat);
    }
}

/// `n` left turns are `6 - n % 6` right turns.
pub proof fn lemma_turns_left_table(a: Tri, n: nat)
    ensures
        turns_left(a, n) == turn_table(a, ((6 - n % 6) % 6) as int),
    decreases n,
{
    if n > 0 {
        lemma_turns_left_table(a, (n - 1) as nat);
    }
}

/// A right turn undoes a left turn and a left turn undoes a right turn.
pub proof fn lemma_turn_left_right_inverse(a: Tri)
    ensures
        turn_left(turn_right(a)) == a,
        turn_right(turn_left(a)) == a,
{
}

/// Six turns in either direction bring every point back to itself.
pub proof fn lemma_six_turns_identity(a: Tri)
    ensures
        turns_right(a, 6) == a,
        turns_left(a, 6) == a,
{
    lemma_turns_right_table(a, 6);
    lemma_turns_left_table(a, 6);
}

/// Rotating by `d` and then by `-d` gives the point back.
pub proof fn lemma_rotate_inverse(a: Tri, d: int)
    requires
        -128 < d < 128,
    ensures
        rotated(rotated(a, d), -d) == a,
{
    if d < 0 {
        lemma_turns_left_table(a, (-d) as nat);
        lemma_turns_right_table(turns_left(a, (-d) as nat), (-d) as nat);
    } else if d > 0 {
        lemma_turns_right_table(a, d as nat);
        lemma_turns_left_table(turns_right(a, d as nat), d as nat);
    }
}

/// Rotation about the origin preserves the distance between two points.
pub proof fn lemma_rotate_preserves_distance(a: Tri, b: Tri, d: int)
    ensures
        tri_distance(rotated(a, d), rotated(b, d)) == tri_distance(a, b),
{
    if d < 0 {
        lemma_turns_left_table(a, (-d) as nat);
        lemma_turns_left_table(b, (-d) as nat);
    } else {
        lemma_turns_right_table(a, d as nat);
        lemma_turns_right_table(b, d as nat);
    }
}

/// The hex distance is a metric: zero exactly between equal points,
/// symmetric, and obeying the triangle inequality.
pub proof fn lemma_distance_metric(a: Tri, b: Tri, c: Tri)
    ensures
        tri_distance(a, b) >= 0,
        tri_distance(a, b) == 0 <==> a == b,
        tri_distance(a, b) == tri_distance(b, a),
        tri_distance(a, c) <= tri_distance(a, b) + tri_distance(b, c),
{
}

/// Distances do not change when both points are moved by the same offset.
pub proof fn lemma_distance_shift_invariant(a: Tri, b: Tri, t: Tri)
    ensures
        tri_distance(tri_add(a, t), tri_add(b, t)) == tri_distance(a, b),
{
}

/// Each of the six neighbors is one step away.
pub proof fn lemma_neighbor_distance(c: Tri, i: int)
    requires
        0 <= i < 6,
    ensures
        tri_distance(c, tri_add(unit(i), c)) == 1,
{
}

/// Every cell of the ring of radius `r` lies at distance exactly `r` from
/// the center.
pub proof fn lemma_ring_distance(c: Tri, r: int, k: int)
    requires
        0 <= r,
        0 <= k < ring_len(r),
    ensures
        tri_distance(c, ring_at(c, r, k)) == r,
{
    if r > 0 {
        let i = k / r;
        let j = k % r;
        vstd::arithmetic::div_mod::lemma_fundamental_div_mod(k, r);
        vstd::arithmetic::div_mod::lemma_mod_bound(k, r);
        vstd::arithmetic::div_mod::lemma_div_pos_is_pos(k, r);
        vstd::arithmetic::div_mod::lemma_div_by_multiple_is_strongly_ordered(k, 6 * r, 6, r);
        vstd::arithmetic::div_mod::lemma_div_by_multiple(6, r);
        lemma_unit_scaled(i, j);
    }
}

/// The walk around a ring: it starts `r` steps from the center in
/// direction 4, every cell keeps the center's coordinate sum, and each
/// cell is a neighbor of the one before it.
pub proof fn lemma_ring_walk(c: Tri, r: int, k: int)
    requires
        0 < r,
        0 <= k < 6 * r,
    ensures
        ring_at(c, r, 0) == tri_add(c, tri_scale(unit(4), r)),
        ring_at(c, r, k).0 + ring_at(c, r, k).1 + ring_at(c, r, k).2 == c.0 + c.1 + c.2,
        k + 1 < 6 * r ==> tri_distance(ring_at(c, r, k), ring_at(c, r, k + 1)) == 1,
{
    lemma_ring_step_start(c, r);
    assert(0 * r == 0);
    let i = k / r;
    let j = k % r;
    vstd::arithmetic::div_mod::lemma_fundamental_div_mod(k, r);
    vstd::arithmetic::div_mod::lemma_mod_bound(k, r);
    vstd::arithmetic::div_mod::lemma_div_pos_is_pos(k, r);
    vstd::arithmetic::div_mod::lemma_div_by_multiple_is_strongly_ordered(k, 6 * r, 6, r);
    vstd::arithmetic::div_mod::lemma_div_by_multiple(6, r);
    lemma_unit_scaled(i, j);
    assert(r * i == i * r) by (nonlinear_arith);
    assert(k == i * r + j);
    if k + 1 < 6 * r {
        lemma_ring_step(c, r, i, j);
        assert(j + 1 < r || i + 1 < 6) by (nonlinear_arith)
            requires
                k == i * r + j,
                k + 1 < 6 * r,
                0 <= j < r,
                0 <= i < 6,
        ;
        let a = ring_at(c, r, k);
        assert(ring_at(c, r, k + 1) == tri_add(a, unit(i)));
        assert(tri_distance(a, tri_add(a, unit(i))) == 1);
    }
}

/// The cells of a ring are pairwise distinct.
pub proof fn lemma_ring_distinct(c: Tri, r: int, k1: int, k2: int)
    requires
        0 <= r,
        0 <= k1 < ring_len(r),
        0 <= k2 < ring_len(r),
        k1 != k2,
    ensures
        ring_at(c, r, k1) != ring_at(c, r, k2),
{
    if r > 0 {
        let i1 = k1 / r;
        let j1 = k1 % r;
        let i2 = k2 / r;
        let j2 = k2 % r;
        vstd::arithmetic::div_mod::lemma_fundamental_div_mod(k1, r);
        vstd::arithmetic::div_mod::lemma_mod_bound(k1, r);
        vstd::arithmetic::div_mod::lemma_div_pos_is_pos(k1, r);
        vstd::arithmetic::div_mod::lemma_div_by_multiple_is_strongly_ordered(k1, 6 * r, 6, r);
        vstd::arithmetic::div_mod::lemma_fundamental_div_mod(k2, r);
        vstd::arithmetic::div_mod::lemma_mod_bound(k2, r);
        vstd::arithmetic::div_mod::lemma_div_pos_is_pos(k2, r);
        vstd::arithmetic::div_mod::lemma_div_by_multiple_is_strongly_ordered(k2, 6 * r, 6, r);
        vstd::arithmetic::div_mod::lemma_div_by_multiple(6, r);
        lemma_unit_scaled(i1, j1);
        lemma_unit_scaled(i2, j2);
        if i1 == i2 {
            assert(j1 != j2);
        }
    }
}

/// Whether `v` is the spiral of radius `radius` around `c`, as
/// [`Cubic::spiral`] gives it: the rings of radius `0..=radius`, innermost
/// first.
pub open spec fn is_spiral(c: Tri, radius: int, v: Seq<Tri>) -> bool {
    &&& v.len() == spiral_len(radius)
    &&& forall|r: int, k: int|
        #![trigger ring_at(c, r, k)]
        0 <= r <= radius && 0 <= k < ring_len(r) ==> v[spiral_offset(r) + k] == ring_at(c, r, k)
}

/// The ring and the place in it of position `n` of a spiral.
proof fn spiral_index(n: int, radius: int) -> (rk: (int, int))
    requires
        0 <= radius,
        0 <= n < spiral_offset(radius + 1),
    ensures
        0 <= rk.0 <= radius,
        0 <= rk.1 < ring_len(rk.0),
        n == spiral_offset(rk.0) + rk.1,
    decreases radius,
{
    assert(spiral_offset(radius + 1) == spiral_offset(radius) + ring_len(radius));
    if n < spiral_offset(radius) {
        if radius == 0 {
            assert(spiral_offset(0) == 0);
            assert(false);
            (0, 0)
        } else {
            spiral_index(n, radius - 1)
        }
    } else {
        (radius, n - spiral_offset(radius))
    }
}

/// The spiral holds each cell within `radius` of its center once, ordered
/// by distance from the center: every cell lies within `radius`, no cell
/// comes twice, and a later cell is never nearer than an earlier one.
pub proof fn lemma_spiral_cells(c: Tri, radius: int, v: Seq<Tri>)
    requires
        0 <= radius,
        is_spiral(c, radius, v),
    ensures
        forall|n: int| 0 <= n < v.len() ==> tri_distance(c, #[trigger] v[n]) <= radius,
        forall|n: int, m: int|
            0 <= n < m < v.len() ==> tri_distance(c, #[trigger] v[n]) <= tri_distance(c, #[trigger] v[m]),
        forall|n: int, m: int| 0 <= n < m < v.len() ==> #[trigger] v[n] != #[trigger] v[m],
{
    lemma_spiral_offset(radius + 1);
    assert(spiral_len(radius) == spiral_offset(radius + 1)) by (nonlinear_arith)
        requires
            spiral_offset(radius + 1) == 3 * (radius + 1) * (radius + 1 - 1) + 1,
    ;
    assert forall|n: int| 0 <= n < v.len() implies tri_distance(c, #[trigger] v[n]) <= radius by {
        let (r, k) = spiral_index(n, radius);
        assert(v[n] == ring_at(c, r, k));
        lemma_ring_distance(c, r, k);
    }
    assert forall|n: int, m: int| 0 <= n < m < v.len() implies tri_distance(c, #[trigger] v[n])
        <= tri_distance(c, #[trigger] v[m]) && v[n] != v[m] by {
        let (r1, k1) = spiral_index(n, radius);
        let (r2, k2) = spiral_index(m, radius);
        assert(v[n] == ring_at(c, r1, k1));
        assert(v[m] == ring_at(c, r2, k2));
        lemma_ring_distance(c, r1, k1);
        lemma_ring_distance(c, r2, k2);
        if r1 > r2 {
            lemma_spiral_offset_mono(r2 + 1, r1);
            assert(spiral_offset(r2 + 1) == spiral_offset(r2) + ring_len(r2));
            assert(false);
        }
        if r1 == r2 {
            lemma_ring_distinct(c, r1, k1, k2);
        }
    }
}

} // verus!
