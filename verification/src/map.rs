//! Maps: axial hex coordinates, the transforms that place entities on a
//! map, the multi-resolution index of the entities on each map, and the
//! registry of maps by name.
//!
//! An entity's transform is relative to its parent: the parent's facing
//! turns the child's offset and facing, and the parent's position moves it.
//! Each map keeps, for every resolution of its [`MapConfig`], the entities
//! found in each (coarser) cell, so that neighbourhood queries touch few
//! cells.

use std::collections::HashMap;
use vstd::prelude::*;
use vstd::std_specs::hash::*;
use crate::names::NameMap;

verus! {

broadcast use vstd::std_specs::hash::group_hash_axioms;

// ---------------------------------------------------------------------------
// Coordinates and directions

/// Axial hex coordinates, as `hexx::Hex` holds them.
#[derive(Clone, Copy, Debug, PartialEq, Eq, Structural, Hash)]
pub struct Hex {
    pub x: i32,
    pub y: i32,
}

impl View for Hex {
    type V = (int, int);

    open spec fn view(&self) -> (int, int) {
        (self.x as int, self.y as int)
    }
}

/// Whether `(x, y)` fits in a [`Hex`], third cube coordinate included.
pub open spec fn hex_fits(h: (int, int)) -> bool {
    &&& i32::MIN <= h.0 <= i32::MAX
    &&& i32::MIN <= h.1 <= i32::MAX
    &&& i32::MIN <= -h.0 - h.1 <= i32::MAX
}

pub open spec fn hex_add(a: (int, int), b: (int, int)) -> (int, int) {
    (a.0 + b.0, a.1 + b.1)
}

/// `hexx::Hex::clockwise`: `(x, y) -> (-y, -z)` with `z = -x - y`.
pub open spec fn hex_cw(a: (int, int)) -> (int, int) {
    (-a.1, a.0 + a.1)
}

/// `hexx::Hex::counter_clockwise`: `(x, y) -> (-z, -x)`.
pub open spec fn hex_ccw(a: (int, int)) -> (int, int) {
    (a.0 + a.1, -a.0)
}

/// `hexx::Hex::rotate_cw`: `m` sixty-degree turns clockwise.
pub open spec fn hex_rotate_cw(a: (int, int), m: int) -> (int, int) {
    let k = m % 6;
    if k == 1 {
        hex_cw(a)
    } else if k == 2 {
        hex_cw(hex_cw(a))
    } else if k == 3 {
        (-a.0, -a.1)
    } else if k == 4 {
        hex_ccw(hex_ccw(a))
    } else if k == 5 {
        hex_ccw(a)
    } else {
        a
    }
}

/// Cube length of an axial vector, the distance to the origin.
pub open spec fn hex_length(a: (int, int)) -> int {
    let (x, y, z) = (abs(a.0), abs(a.1), abs(-a.0 - a.1));
    if x >= y && x >= z {
        x
    } else if y >= x && y >= z {
        y
    } else {
        z
    }
}

pub open spec fn abs(v: int) -> int {
    if v < 0 {
        -v
    } else {
        v
    }
}

/// The six neighbour offsets of `hexx::Hex::NEIGHBORS_COORDS`, indexed by
/// edge direction.
pub open spec fn neighbor_offset(i: int) -> (int, int) {
    if i == 0 {
        (1int, 0int)
    } else if i == 1 {
        (0int, 1int)
    } else if i == 2 {
        (-1int, 1int)
    } else if i == 3 {
        (-1int, 0int)
    } else if i == 4 {
        (0int, -1int)
    } else {
        (1int, -1int)
    }
}

impl Hex {
    pub fn new(x: i32, y: i32) -> (h: Hex)
        ensures
            h@ == (x as int, y as int),
    {
        Hex { x, y }
    }

    /// The sum of two coordinates.
    pub fn add(self, other: Hex) -> (h: Hex)
        requires
            hex_fits(hex_add(self@, other@)),
        ensures
            h@ == hex_add(self@, other@),
    {
        Hex { x: self.x + other.x, y: self.y + other.y }
    }

    /// `self` turned `m` sixty-degree steps clockwise around the origin.
    pub fn rotate_cw(self, m: u32) -> (h: Hex)
        requires
            hex_fits(hex_rotate_cw(self@, m as int)),
        ensures
            h@ == hex_rotate_cw(self@, m as int),
    {
        let k = m % 6;
        let (x, y) = (self.x as i64, self.y as i64);
        let (rx, ry): (i64, i64) = if k == 1 {
            (-y, x + y)
        } else if k == 2 {
            (-(x + y), x)
        } else if k == 3 {
            (-x, -y)
        } else if k == 4 {
            (y, -(x + y))
        } else if k == 5 {
            (x + y, -x)
        } else {
            (x, y)
        };
        Hex { x: rx as i32, y: ry as i32 }
    }

    /// The hex distance between `self` and `other`.
    pub fn distance_to(self, other: Hex) -> (d: u32)
        requires
            hex_fits((self@.0 - other@.0, self@.1 - other@.1)),
        ensures
            d == hex_length((self@.0 - other@.0, self@.1 - other@.1)),
    {
        let dx = self.x as i64 - other.x as i64;
        let dy = self.y as i64 - other.y as i64;
        let dz = -dx - dy;
        let ax = if dx < 0 { -dx } else { dx };
        let ay = if dy < 0 { -dy } else { dy };
        let az = if dz < 0 { -dz } else { dz };
        let m = if ax >= ay && ax >= az {
            ax
        } else if ay >= ax && ay >= az {
            ay
        } else {
            az
        };
        m as u32
    }
}

/// One of the six edge directions of a hex, as `hexx::EdgeDirection`
/// numbers them.
#[derive(Clone, Copy, Debug, PartialEq, Eq, Structural, Hash)]
pub struct EdgeDirection {
    index: u8,
}

impl EdgeDirection {
    /// The number of the direction, below six.
    pub closed spec fn spec_index(self) -> int {
        (self.index % 6) as int
    }

    /// The direction with number `i % 6`.
    pub fn from_index(i: u8) -> (d: EdgeDirection)
        ensures
            d.spec_index() == i % 6,
    {
        EdgeDirection { index: i % 6 }
    }

    /// The number of the direction.
    pub fn index(self) -> (i: u8)
        ensures
            i == self.spec_index(),
            i < 6,
    {
        self.index % 6
    }

    /// The direction `offset` sixths further clockwise.
    pub fn rotate_cw(self, offset: u8) -> (d: EdgeDirection)
        ensures
            d.spec_index() == (self.spec_index() + offset % 6) % 6,
    {
        EdgeDirection { index: (self.index % 6 + offset % 6) % 6 }
    }

    /// The unit step in this direction.
    pub fn into_hex(self) -> (h: Hex)
        ensures
            h@ == neighbor_offset(self.spec_index()),
    {
        match self.index % 6 {
            0 => Hex { x: 1, y: 0 },
            1 => Hex { x: 0, y: 1 },
            2 => Hex { x: -1, y: 1 },
            3 => Hex { x: -1, y: 0 },
            4 => Hex { x: 0, y: -1 },
            _ => Hex { x: 1, y: -1 },
        }
    }
}

// ---------------------------------------------------------------------------
// Transforms

/// Where an entity is: the map, the cell, the facing.
#[derive(Clone, Debug)]
pub struct Transform {
    pub map: String,
    pub coords: Hex,
    pub facing: EdgeDirection,
}

/// A transform as plain values: map name, cell, facing number.
pub type TransformView = (Seq<char>, (int, int), int);

impl Transform {
    pub open spec fn view_spec(&self) -> TransformView {
        (self.map@, self.coords@, self.facing.spec_index())
    }
}

/// The placement of a child with relative transform `child` under a parent
/// placed at `parent`: on the parent's map, offset by the child's position
/// turned by the parent's facing, facing the sum of the facings.
pub open spec fn compose(parent: TransformView, child: TransformView) -> TransformView {
    (
        parent.0,
        hex_add(parent.1, hex_rotate_cw(child.1, parent.2)),
        (child.2 + parent.2 % 6) % 6,
    )
}

/// Whether the composition of `parent` and `child` stays within `i32`.
pub open spec fn compose_fits(parent: TransformView, child: TransformView) -> bool {
    &&& hex_fits(hex_rotate_cw(child.1, parent.2))
    &&& hex_fits(compose(parent, child).1)
}

/// The global transform of an entity whose own transform is `child`: its
/// parent's global transform composed with it, or `child` itself at the
/// root.
pub fn global_transform(parent: Option<&Transform>, child: &Transform) -> (g: Transform)
    requires
        parent matches Some(p) ==> compose_fits(p.view_spec(), child.view_spec()),
    ensures
        g.view_spec() == match parent {
            Some(p) => compose(p.view_spec(), child.view_spec()),
            None => child.view_spec(),
        },
{
    match parent {
        Some(p) => {
            let turn = p.facing.index();
            let offset = child.coords.rotate_cw(turn as u32);
            Transform {
                map: p.map.clone(),
                coords: p.coords.add(offset),
                facing: child.facing.rotate_cw(turn),
            }
        },
        None => Transform { map: child.map.clone(), coords: child.coords, facing: child.facing },
    }
}

proof fn lemma_rotate_small(a: (int, int), i: int, j: int)
    requires
        0 <= i < 6,
        0 <= j < 6,
    ensures
        hex_rotate_cw(hex_rotate_cw(a, i), j) == hex_rotate_cw(a, i + j),
{
    if i == 0 {
    } else if i == 1 {
        if j == 0 {} else if j == 1 {} else if j == 2 {} else if j == 3 {} else if j == 4 {} else {}
    } else if i == 2 {
        if j == 0 {} else if j == 1 {} else if j == 2 {} else if j == 3 {} else if j == 4 {} else {}
    } else if i == 3 {
        if j == 0 {} else if j == 1 {} else if j == 2 {} else if j == 3 {} else if j == 4 {} else {}
    } else if i == 4 {
        if j == 0 {} else if j == 1 {} else if j == 2 {} else if j == 3 {} else if j == 4 {} else {}
    } else {
        if j == 0 {} else if j == 1 {} else if j == 2 {} else if j == 3 {} else if j == 4 {} else {}
    }
}

proof fn lemma_rotate_compose(a: (int, int), m: int, n: int)
    requires
        0 <= m,
        0 <= n,
    ensures
        hex_rotate_cw(hex_rotate_cw(a, m), n) == hex_rotate_cw(a, m + n),
{
    let i = m % 6;
    let j = n % 6;
    assert(hex_rotate_cw(a, m) == hex_rotate_cw(a, i));
    assert(hex_rotate_cw(hex_rotate_cw(a, m), n) == hex_rotate_cw(hex_rotate_cw(a, m), j));
    lemma_rotate_small(a, i, j);
    assert((m + n) % 6 == (i + j) % 6);
    assert(hex_rotate_cw(a, m + n) == hex_rotate_cw(a, i + j));
}

proof fn lemma_rotate_add(a: (int, int), b: (int, int), m: int)
    ensures
        hex_rotate_cw(hex_add(a, b), m) == hex_add(hex_rotate_cw(a, m), hex_rotate_cw(b, m)),
{
}

/// Placing a chain of entities does not depend on how it is grouped: a
/// grandchild placed under its parent's global transform lands where the
/// grandchild, first placed under its parent, lands under the grandparent.
#[verifier::rlimit(40)]
pub proof fn lemma_compose_assoc(a: TransformView, b: TransformView, c: TransformView)
    requires
        0 <= a.2 < 6,
        0 <= b.2 < 6,
        0 <= c.2 < 6,
    ensures
        compose(compose(a, b), c) == compose(a, compose(b, c)),
{
    let ab = compose(a, b);
    let bc = compose(b, c);
    lemma_rotate_add(b.1, hex_rotate_cw(c.1, b.2), a.2);
    lemma_rotate_compose(c.1, b.2, a.2);
    assert(ab.2 == (b.2 + a.2) % 6);
    assert(hex_rotate_cw(c.1, ab.2) == hex_rotate_cw(c.1, b.2 + a.2));
    assert((c.2 + ab.2 % 6) % 6 == ((c.2 + b.2 % 6) % 6 + a.2 % 6) % 6);
}

/// A root entity (no parent) is placed by its own transform, and composing
/// with the identity placement (origin, facing zero) changes nothing.
pub proof fn lemma_compose_identity(m: Seq<char>, c: TransformView)
    requires
        0 <= c.2 < 6,
        c.0 == m,
    ensures
        compose((m, (0int, 0int), 0int), c) == c,
{
}

// ---------------------------------------------------------------------------
// Resolutions

/// What `hexx::Hex::to_lower_res` gives for the cell `(x, y)` and a chunk
/// radius: the coordinates of the chunk that holds the cell.
pub uninterp spec fn hexx_lower_res(x: i32, y: i32, radius: u32) -> (i32, i32);

/// The bound on the first sums of `to_lower_res` (`y + shift * x` and its
/// rotations): `2^30 - 128`, a value that `f32` holds exactly. Dividing a
/// sum within it by the chunk area (at least 1) and flooring, in `f32`,
/// gives a value within it too, so the second sums `1 + x' - y'` and
/// `1 + y' - z'` stay within `i32`.
pub open spec fn lower_res_sum_bound() -> int {
    1073741696
}

/// Whether `to_lower_res` runs on `h` and `radius` without overflowing its
/// `u32` chunk area or its `i32` intermediate sums.
pub open spec fn lower_res_ok(h: (int, int), radius: int) -> bool {
    let shift = 3 * radius + 2;
    let (x, y, z) = (h.0, h.1, -h.0 - h.1);
    let b = lower_res_sum_bound();
    &&& 0 <= radius
    &&& 3 * radius * (radius + 1) + 1 <= u32::MAX
    &&& shift <= i32::MAX
    &&& hex_fits(h)
    &&& i32::MIN <= shift * x <= i32::MAX
    &&& i32::MIN <= shift * y <= i32::MAX
    &&& i32::MIN <= shift * z <= i32::MAX
    &&& -b <= y + shift * x <= b
    &&& -b <= z + shift * y <= b
    &&& -b <= x + shift * z <= b
}

/// The chunk that holds `h` at chunk radius `radius`, as plain values.
pub open spec fn lower_res(h: (int, int), radius: int) -> (int, int) {
    let r = hexx_lower_res(h.0 as i32, h.1 as i32, radius as u32);
    (r.0 as int, r.1 as int)
}

/// `hexx::Hex::to_lower_res`: the coordinates of the chunk of radius
/// `radius` that holds `h`. The result is a function of its arguments,
/// named here. Its second sums are taken over `f32` quotients, so the
/// inputs on which they could overflow are left out by bounding the first
/// sums (see [`lower_res_sum_bound`]); this leaves out some inputs on which
/// the call would in fact not overflow.
#[verifier::external_body]
fn hex_to_lower_res(h: Hex, radius: u32) -> (r: Hex)
    requires
        lower_res_ok(h@, radius as int),
    ensures
        (r.x, r.y) == hexx_lower_res(h.x, h.y, radius),
{
    let l = hexx::Hex::new(h.x, h.y).to_lower_res(radius);
    Hex { x: l.x, y: l.y }
}

/// `2^n`.
pub open spec fn pow2(n: nat) -> nat
    decreases n,
{
    if n == 0 {
        1
    } else {
        2 * pow2((n - 1) as nat)
    }
}

/// The chunk radius of resolution `i`: none at resolution 0, then `base`,
/// doubling with each further resolution.
pub open spec fn radius_at(base: int, i: int) -> int {
    if i <= 0 {
        0
    } else {
        base * pow2((i - 1) as nat)
    }
}

/// The resolutions of the spatial index of a map.
#[derive(Clone, Copy, Debug, PartialEq, Eq, Structural)]
pub struct MapConfig {
    /// The chunk radius of the first coarser resolution.
    pub init_res_power: u32,
    /// How many coarser resolutions there are besides the exact one.
    pub extra_resolutions: usize,
}

impl Default for MapConfig {
    fn default() -> (c: MapConfig)
        ensures
            c.init_res_power == 4,
            c.extra_resolutions == 4,
    {
        MapConfig { init_res_power: 4, extra_resolutions: 4 }
    }
}

proof fn lemma_pow2_mono(a: nat, b: nat)
    requires
        a <= b,
    ensures
        1 <= pow2(a) <= pow2(b),
    decreases b,
{
    if b > 0 {
        if a < b {
            lemma_pow2_mono(a, (b - 1) as nat);
        }
        lemma_pow2_mono(0, (b - 1) as nat);
    }
}

impl MapConfig {
    /// The radius of resolution `i`.
    pub open spec fn radius_spec(self, i: int) -> int {
        radius_at(self.init_res_power as int, i)
    }

    /// Whether the resolutions can be computed without overflow.
    pub open spec fn config_ok(self) -> bool {
        &&& self.extra_resolutions < usize::MAX
        &&& self.extra_resolutions >= 1 ==> pow2((self.extra_resolutions - 1) as nat) <= u32::MAX
        &&& self.radius_spec(self.extra_resolutions as int) <= u32::MAX
    }

    /// Whether cell `h` can be placed at every resolution.
    pub open spec fn supports_spec(self, h: (int, int)) -> bool {
        forall|i: int| 0 <= i <= self.extra_resolutions ==> #[trigger] lower_res_ok(h, self.radius_spec(i))
    }

    proof fn lemma_radius_bound(self, i: int)
        requires
            self.config_ok(),
            0 <= i <= self.extra_resolutions,
        ensures
            0 <= self.radius_spec(i) <= self.radius_spec(self.extra_resolutions as int),
            self.radius_spec(i) <= u32::MAX,
            i >= 1 ==> pow2((i - 1) as nat) <= u32::MAX,
    {
        if i >= 1 {
            let e = self.extra_resolutions as int;
            lemma_pow2_mono((i - 1) as nat, (e - 1) as nat);
            let b = self.init_res_power as int;
            let p = pow2((i - 1) as nat) as int;
            let q = pow2((e - 1) as nat) as int;
            assert(0 <= b * p <= b * q) by (nonlinear_arith)
                requires
                    0 <= b,
                    0 <= p <= q,
            ;
        }
    }

    /// The radius of resolution `i`.
    pub fn radius(&self, i: usize) -> (r: u32)
        requires
            self.config_ok(),
            i <= self.extra_resolutions,
        ensures
            r == self.radius_spec(i as int),
    {
        proof {
            self.lemma_radius_bound(i as int);
        }
        if i == 0 {
            return 0;
        }
        let mut p: u32 = 1;
        let mut k: usize = 1;
        while k < i
            invariant
                1 <= k <= i <= self.extra_resolutions,
                self.config_ok(),
                p == pow2((k - 1) as nat),
            decreases i - k,
        {
            proof {
                self.lemma_radius_bound(k as int + 1);
            }
            p = p * 2;
            k = k + 1;
        }
        proof {
            let b = self.init_res_power as int;
            assert(b * p == self.radius_spec(i as int));
        }
        self.init_res_power * p
    }

    /// Each resolution with its chunk radius.
    pub fn radii(&self) -> (v: Vec<(usize, u32)>)
        requires
            self.config_ok(),
        ensures
            v@.len() == self.extra_resolutions + 1,
            forall|i: int|
                0 <= i < v@.len() ==> #[trigger] v@[i] == (i as usize, self.radius_spec(i) as u32),
    {
        let mut v: Vec<(usize, u32)> = Vec::new();
        let mut i: usize = 0;
        while i <= self.extra_resolutions
            invariant
                self.config_ok(),
                i <= self.extra_resolutions + 1,
                v@.len() == i,
                forall|j: int| 0 <= j < i ==> #[trigger] v@[j] == (j as usize, self.radius_spec(j) as u32),
            decreases self.extra_resolutions + 1 - i,
        {
            let r = self.radius(i);
            v.push((i, r));
            i = i + 1;
        }
        v
    }

    /// Whether `h` can be placed at every resolution of this configuration.
    pub fn supports(&self, h: Hex) -> (b: bool)
        requires
            self.config_ok(),
        ensures
            b == self.supports_spec(h@),
    {
        let mut i: usize = 0;
        while i <= self.extra_resolutions
            invariant
                self.config_ok(),
                i <= self.extra_resolutions + 1,
                forall|j: int| 0 <= j < i ==> #[trigger] lower_res_ok(h@, self.radius_spec(j)),
            decreases self.extra_resolutions + 1 - i,
        {
            let r = self.radius(i) as i64;
            let (x, y) = (h.x as i64, h.y as i64);
            let z = -x - y;
            let shift = 3 * r + 2;
            let lim: i64 = 2147483647;
            let b: i64 = 1073741696;
            let r128 = r as i128;
            assert(0 <= r128 * (r128 + 1) <= 0x1_0000_0000 * 0x1_0000_0001) by (nonlinear_arith)
                requires
                    0 <= r128 <= 0xffff_ffff,
            ;
            let ok = 3 * (r128 * (r128 + 1)) + 1 <= 4294967295i128 && shift <= lim && -lim - 1 <= z && z <= lim
                && mul_within(shift, x) && mul_within(shift, y) && mul_within(shift, z)
                && -b <= y + shift * x && y + shift * x <= b
                && -b <= z + shift * y && z + shift * y <= b
                && -b <= x + shift * z && x + shift * z <= b;
            proof {
                assert(3 * (r128 * (r128 + 1)) == 3 * r128 * (r128 + 1)) by (nonlinear_arith);
                assert(ok == lower_res_ok(h@, self.radius_spec(i as int)));
            }
            if !ok {
                return false;
            }
            i = i + 1;
        }
        true
    }

    /// The chunk holding `h` at each resolution.
    pub fn hex_resolutions(&self, h: Hex) -> (v: Vec<(usize, Hex)>)
        requires
            self.config_ok(),
            self.supports_spec(h@),
        ensures
            v@.len() == self.extra_resolutions + 1,
            forall|i: int|
                0 <= i < v@.len() ==> (#[trigger] v@[i]).0 == i && v@[i].1@ == lower_res(
                    h@,
                    self.radius_spec(i),
                ),
    {
        let mut v: Vec<(usize, Hex)> = Vec::new();
        let mut i: usize = 0;
        while i <= self.extra_resolutions
            invariant
                self.config_ok(),
                self.supports_spec(h@),
                i <= self.extra_resolutions + 1,
                v@.len() == i,
                forall|j: int|
                    0 <= j < i ==> (#[trigger] v@[j]).0 == j && v@[j].1@ == lower_res(
                        h@,
                        self.radius_spec(j),
                    ),
            decreases self.extra_resolutions + 1 - i,
        {
            let r = self.radius(i);
            assert(lower_res_ok(h@, self.radius_spec(i as int)));
            let l = hex_to_lower_res(h, r);
            assert(h@.0 as i32 == h.x && h@.1 as i32 == h.y);
            assert(l@ == lower_res(h@, self.radius_spec(i as int)));
            v.push((i, l));
            i = i + 1;
        }
        v
    }
}

/// Whether `a * b` lies within `i32`, for factors within `i64` that keep
/// the product in `i128`.
fn mul_within(a: i64, b: i64) -> (r: bool)
    requires
        0 <= a <= i32::MAX,
        i32::MIN <= b <= i32::MAX,
    ensures
        r == (i32::MIN <= a * b <= i32::MAX),
{
    let a128 = a as i128;
    let b128 = b as i128;
    assert(-0x8000_0000_0000_0000 <= a128 * b128 <= 0x8000_0000_0000_0000) by (nonlinear_arith)
        requires
            0 <= a128 <= 0x8000_0000,
            -0x8000_0000 <= b128 <= 0x8000_0000,
    ;
    let p = a128 * b128;
    -2147483648i128 <= p && p <= 2147483647i128
}

// ---------------------------------------------------------------------------
// The spatial index of a map

/// A cell of the index: a resolution and the chunk coordinates there.
pub type CellKey = (int, (int, int));

/// Whether a cell key can be stored.
pub open spec fn key_in_range(k: CellKey) -> bool {
    &&& 0 <= k.0 <= u64::MAX
    &&& i32::MIN <= k.1.0 <= i32::MAX
    &&& i32::MIN <= k.1.1 <= i32::MAX
}

/// The number under which a cell is stored: resolution, column and row
/// packed into 128 bits.
pub open spec fn packed(k: CellKey) -> int {
    k.0 * 0x1_0000_0000_0000_0000 + (k.1.0 + 0x8000_0000) * 0x1_0000_0000 + (k.1.1 + 0x8000_0000)
}

proof fn lemma_packed_injective(a: CellKey, b: CellKey)
    requires
        key_in_range(a),
        key_in_range(b),
        packed(a) == packed(b),
    ensures
        a == b,
{
    let (ra, xa, ya) = (a.0, a.1.0 + 0x8000_0000, a.1.1 + 0x8000_0000);
    let (rb, xb, yb) = (b.0, b.1.0 + 0x8000_0000, b.1.1 + 0x8000_0000);
    assert(ra == rb && xa == xb && ya == yb) by (nonlinear_arith)
        requires
            0 <= xa < 0x1_0000_0000,
            0 <= xb < 0x1_0000_0000,
            0 <= ya < 0x1_0000_0000,
            0 <= yb < 0x1_0000_0000,
            ra * 0x1_0000_0000_0000_0000 + xa * 0x1_0000_0000 + ya == rb * 0x1_0000_0000_0000_0000
                + xb * 0x1_0000_0000 + yb,
    ;
}

proof fn lemma_packed_range(k: CellKey)
    requires
        key_in_range(k),
    ensures
        0 <= packed(k) <= u128::MAX,
{
    assert(0 <= packed(k) <= u128::MAX) by (nonlinear_arith)
        requires
            0 <= k.0 <= u64::MAX,
            0 <= k.1.0 + 0x8000_0000 < 0x1_0000_0000,
            0 <= k.1.1 + 0x8000_0000 < 0x1_0000_0000,
    ;
}

fn pack(res: usize, h: Hex) -> (k: u128)
    ensures
        key_in_range((res as int, h@)),
        k == packed((res as int, h@)),
{
    proof {
        lemma_packed_range((res as int, h@));
        assert(0 <= (res as int) * 0x1_0000_0000_0000_0000 <= u64::MAX * 0x1_0000_0000_0000_0000) by (nonlinear_arith)
            requires
                0 <= res <= u64::MAX,
        ;
        assert(0 <= (h.x as int + 0x8000_0000) * 0x1_0000_0000 < 0x1_0000_0000 * 0x1_0000_0000) by (nonlinear_arith)
            requires
                0 <= h.x as int + 0x8000_0000 < 0x1_0000_0000,
        ;
    }
    let r = res as u128;
    let x = (h.x as i64 + 2147483648i64) as u128;
    let y = (h.y as i64 + 2147483648i64) as u128;
    r * 18446744073709551616u128 + x * 4294967296u128 + y
}

/// `s` with `e` added at the end unless it is there already.
pub open spec fn add_unique(s: Seq<u64>, e: u64) -> Seq<u64> {
    if s.contains(e) {
        s
    } else {
        s.push(e)
    }
}

/// `s` without the occurrences of `e`.
pub open spec fn without(s: Seq<u64>, e: u64) -> Seq<u64>
    decreases s.len(),
{
    if s.len() == 0 {
        s
    } else {
        let w = without(s.drop_last(), e);
        if s.last() != e {
            w.push(s.last())
        } else {
            w
        }
    }
}

/// The entities on one map, by cell at each resolution and by id.
pub struct Entities {
    config: MapConfig,
    by_coords: HashMap<u128, Vec<u64>>,
    by_id: HashMap<u64, Transform>,
}

impl Entities {
    /// The resolutions of this index.
    pub closed spec fn cfg(&self) -> MapConfig {
        self.config
    }

    /// The resolutions of this index.
    pub fn config(&self) -> (c: MapConfig)
        ensures
            c == self.cfg(),
    {
        self.config
    }

    /// The entities recorded in chunk `h` of resolution `res`, in the order
    /// they were added.
    pub closed spec fn cell(&self, res: int, h: (int, int)) -> Seq<u64> {
        let k = packed((res, h)) as u128;
        if key_in_range((res, h)) && self.by_coords@.contains_key(k) {
            self.by_coords@[k]@
        } else {
            Seq::empty()
        }
    }

    /// The transform of each entity on the map.
    pub closed spec fn placed(&self) -> Map<u64, TransformView> {
        self.by_id@.map_values(|t: Transform| t.view_spec())
    }

    /// Whether the index can be updated: the resolutions compute and every
    /// placed entity's cell exists at each resolution.
    pub closed spec fn well_formed(&self) -> bool {
        &&& self.config.config_ok()
        &&& forall|e: u64| #[trigger]
            self.placed().contains_key(e) ==> self.config.supports_spec(self.placed()[e].1)
    }

    /// Every placed entity is found in its chunk at every resolution.
    pub closed spec fn indexed(&self) -> bool {
        forall|e: u64, i: int|
            #![trigger self.placed()[e], self.config.radius_spec(i)]
            self.placed().contains_key(e) && 0 <= i <= self.config.extra_resolutions ==> self.cell(
                i,
                lower_res(self.placed()[e].1, self.config.radius_spec(i)),
            ).contains(e)
    }

    /// An empty index for `config`.
    pub fn new(config: MapConfig) -> (m: Entities)
        ensures
            m.cfg() == config,
            forall|i: int, h: (int, int)| #[trigger] m.cell(i, h) == Seq::<u64>::empty(),
            m.placed() == Map::<u64, TransformView>::empty(),
            m.indexed(),
    {
        let m = Entities { config, by_coords: HashMap::new(), by_id: HashMap::new() };
        assert(m.placed() =~= Map::<u64, TransformView>::empty());
        m
    }

    /// The entities in chunk `coord` of resolution `resolution`.
    pub fn iter_at(&self, coord: Hex, resolution: usize) -> (v: Vec<u64>)
        ensures
            v@ == self.cell(resolution as int, coord@),
    {
        let k = pack(resolution, coord);
        match self.by_coords.get(&k) {
            Some(ents) => ents.clone(),
            None => Vec::new(),
        }
    }

    /// The transform recorded for `entity`.
    pub fn transform_of(&self, entity: u64) -> (t: Option<&Transform>)
        ensures
            match t {
                Some(t) => self.placed().contains_key(entity) && self.placed()[entity] == t.view_spec(),
                None => !self.placed().contains_key(entity),
            },
    {
        self.by_id.get(&entity)
    }

    proof fn lemma_cell_other(&self, after: &Entities, k0: CellKey)
        requires
            key_in_range(k0),
            forall|k: u128| k != packed(k0) as u128 ==> (#[trigger] after.by_coords@.contains_key(k)
                == self.by_coords@.contains_key(k) && (after.by_coords@.contains_key(k)
                ==> after.by_coords@[k] == self.by_coords@[k])),
        ensures
            forall|i: int, h: (int, int)| (i, h) != k0 ==> #[trigger] after.cell(i, h) == self.cell(i, h),
    {
        assert forall|i: int, h: (int, int)| (i, h) != k0 implies #[trigger] after.cell(i, h) == self.cell(i, h) by {
            if key_in_range((i, h)) {
                lemma_packed_range((i, h));
                lemma_packed_range(k0);
                if packed((i, h)) == packed(k0) {
                    lemma_packed_injective((i, h), k0);
                }
            }
        }
    }

    /// Adds `entity` to chunk `coords` of resolution `resolution`, unless it
    /// is there already.
    fn add_entity_at_resolution(&mut self, entity: u64, coords: Hex, resolution: usize)
        ensures
            final(self).cfg() == old(self).cfg(),
            final(self).by_id@ == old(self).by_id@,
            final(self).placed() == old(self).placed(),
            final(self).cell(resolution as int, coords@) == add_unique(old(self).cell(resolution as int, coords@), entity),
            forall|i: int, h: (int, int)|
                (i, h) != (resolution as int, coords@) ==> #[trigger] final(self).cell(i, h) == old(self).cell(i, h),
    {
        let ghost before = *self;
        let k = pack(resolution, coords);
        let mut ents = match self.by_coords.remove(&k) {
            Some(v) => v,
            None => Vec::new(),
        };
        if !contains(&ents, entity) {
            ents.push(entity);
        }
        self.by_coords.insert(k, ents);
        proof {
            before.lemma_cell_other(self, (resolution as int, coords@));
            assert(self.placed() =~= before.placed());
        }
    }

    /// Removes `entity` from chunk `coords` of resolution `resolution`.
    fn remove_entity_at_resolution(&mut self, entity: u64, coords: Hex, resolution: usize)
        ensures
            final(self).cfg() == old(self).cfg(),
            final(self).by_id@ == old(self).by_id@,
            final(self).placed() == old(self).placed(),
            final(self).cell(resolution as int, coords@) == without(old(self).cell(resolution as int, coords@), entity),
            forall|i: int, h: (int, int)|
                (i, h) != (resolution as int, coords@) ==> #[trigger] final(self).cell(i, h) == old(self).cell(i, h),
    {
        let ghost before = *self;
        let k = pack(resolution, coords);
        match self.by_coords.remove(&k) {
            Some(v) => {
                let kept = retain_other(&v, entity);
                self.by_coords.insert(k, kept);
            },
            None => {
                assert(without(Seq::<u64>::empty(), entity) =~= Seq::<u64>::empty());
            },
        }
        proof {
            before.lemma_cell_other(self, (resolution as int, coords@));
            assert(self.placed() =~= before.placed());
        }
    }
}

/// Whether `v` holds `e`.
pub(crate) fn contains(v: &Vec<u64>, e: u64) -> (b: bool)
    ensures
        b == v@.contains(e),
{
    let mut i: usize = 0;
    while i < v.len()
        invariant
            i <= v@.len(),
            forall|j: int| 0 <= j < i ==> v@[j] != e,
        decreases v@.len() - i,
    {
        if v[i] == e {
            assert(v@[i as int] == e);
            return true;
        }
        i = i + 1;
    }
    false
}

/// The elements of `v` other than `e`, in order.
fn retain_other(v: &Vec<u64>, e: u64) -> (r: Vec<u64>)
    ensures
        r@ == without(v@, e),
{
    let mut r: Vec<u64> = Vec::new();
    let mut i: usize = 0;
    while i < v.len()
        invariant
            i <= v@.len(),
            r@ == without(v@.take(i as int), e),
        decreases v@.len() - i,
    {
        proof {
            let t = v@.take(i + 1);
            assert(t.drop_last() =~= v@.take(i as int));
            assert(t.last() == v@[i as int]);
        }
        if v[i] != e {
            r.push(v[i]);
        }
        i = i + 1;
    }
    assert(v@.take(v@.len() as int) =~= v@);
    r
}

proof fn lemma_add_unique_keeps(s: Seq<u64>, e: u64, x: u64)
    ensures
        add_unique(s, e).contains(e),
        s.contains(x) ==> add_unique(s, e).contains(x),
{
    if !s.contains(e) {
        assert(s.push(e)[s.len() as int] == e);
        if s.contains(x) {
            let j = choose|j: int| 0 <= j < s.len() && s[j] == x;
            assert(s.push(e)[j] == x);
        }
    }
}

proof fn lemma_without_keeps(s: Seq<u64>, e: u64, x: u64)
    requires
        s.contains(x),
        x != e,
    ensures
        without(s, e).contains(x),
    decreases s.len(),
{
    let w = without(s.drop_last(), e);
    if s.last() == x {
        assert(w.push(x)[w.len() as int] == x);
    } else {
        let j = choose|j: int| 0 <= j < s.len() && s[j] == x;
        assert(s.drop_last()[j] == x);
        lemma_without_keeps(s.drop_last(), e, x);
        if s.last() != e {
            let k = choose|k: int| 0 <= k < w.len() && w[k] == x;
            assert(w.push(s.last())[k] == x);
        }
    }
}

/// A copy of `t`.
fn copy_transform(t: &Transform) -> (c: Transform)
    ensures
        c.view_spec() == t.view_spec(),
{
    Transform { map: t.map.clone(), coords: t.coords, facing: t.facing }
}

/// The cells of resolution `i` updated for `entity` moving from the chunk
/// `from` (if any) to the chunk of `to`: what `add_entity`, `remove_entity`
/// and `move_entity` do to a cell.
pub open spec fn moved_cell(
    old_cell: Seq<u64>,
    entity: u64,
    h: (int, int),
    from: Option<(int, int)>,
    to: Option<(int, int)>,
) -> Seq<u64> {
    if from == to {
        old_cell
    } else if from == Some(h) {
        without(old_cell, entity)
    } else if to == Some(h) {
        add_unique(old_cell, entity)
    } else {
        old_cell
    }
}

impl Entities {
    /// The chunk of `h` at resolution `i`, for `i` within the resolutions.
    pub open spec fn chunk(&self, h: Option<(int, int)>, i: int) -> Option<(int, int)> {
        match h {
            Some(c) => if 0 <= i <= self.cfg().extra_resolutions {
                Some(lower_res(c, self.cfg().radius_spec(i)))
            } else {
                None
            },
            None => None,
        }
    }

    /// Every cell of `after` is the cell of `self` updated for `entity`
    /// leaving `from` and arriving at `to`.
    pub open spec fn cells_moved(
        &self,
        after: &Entities,
        entity: u64,
        from: Option<(int, int)>,
        to: Option<(int, int)>,
    ) -> bool {
        forall|i: int, h: (int, int)|
            #[trigger] after.cell(i, h) == moved_cell(
                self.cell(i, h),
                entity,
                h,
                self.chunk(from, i),
                self.chunk(to, i),
            )
    }

    proof fn lemma_indexed_after_move(
        &self,
        after: &Entities,
        entity: u64,
        from: Option<(int, int)>,
        to: (int, int),
    )
        requires
            self.indexed(),
            self.cells_moved(after, entity, from, Some(to)),
            after.cfg() == self.cfg(),
            forall|e: u64| e != entity ==> #[trigger] after.placed().contains_key(e) == self.placed().contains_key(e) && (after.placed().contains_key(e) ==> after.placed()[e] == self.placed()[e]),
            after.placed().contains_key(entity),
            after.placed()[entity].1 == to,
            from is Some ==> self.placed().contains_key(entity) && from == Some(self.placed()[entity].1),
        ensures
            after.indexed(),
    {
        assert forall|e: u64, i: int|
            #![trigger after.placed()[e], after.cfg().radius_spec(i)]
            after.placed().contains_key(e) && 0 <= i <= after.cfg().extra_resolutions implies after.cell(
                i,
                lower_res(after.placed()[e].1, after.cfg().radius_spec(i)),
            ).contains(e) by {
            let r = self.cfg().radius_spec(i);
            let h = lower_res(after.placed()[e].1, r);
            let c = self.cell(i, h);
            assert(after.cell(i, h) == moved_cell(c, entity, h, self.chunk(from, i), self.chunk(Some(to), i)));
            if e == entity {
                lemma_add_unique_keeps(c, entity, entity);
                if self.chunk(from, i) == self.chunk(Some(to), i) {
                    assert(self.placed().contains_key(entity));
                    assert(self.placed()[entity].1 == from->0);
                    assert(self.placed()[e] == self.placed()[e]);
                    assert(self.cfg().radius_spec(i) == r);
                }
            } else {
                assert(self.placed()[e] == after.placed()[e]);
                assert(self.cfg().radius_spec(i) == r);
                assert(c.contains(e));
                lemma_add_unique_keeps(c, entity, e);
                lemma_without_keeps(c, entity, e);
            }
        }
    }

    proof fn lemma_indexed_after_remove(&self, after: &Entities, entity: u64, from: (int, int))
        requires
            self.indexed(),
            self.cells_moved(after, entity, Some(from), None),
            after.cfg() == self.cfg(),
            after.placed() == self.placed().remove(entity),
        ensures
            after.indexed(),
    {
        assert forall|e: u64, i: int|
            #![trigger after.placed()[e], after.cfg().radius_spec(i)]
            after.placed().contains_key(e) && 0 <= i <= after.cfg().extra_resolutions implies after.cell(
                i,
                lower_res(after.placed()[e].1, after.cfg().radius_spec(i)),
            ).contains(e) by {
            let r = self.cfg().radius_spec(i);
            let h = lower_res(after.placed()[e].1, r);
            let c = self.cell(i, h);
            assert(after.cell(i, h) == moved_cell(c, entity, h, self.chunk(Some(from), i), self.chunk(None, i)));
            assert(self.placed()[e] == after.placed()[e]);
            assert(c.contains(e));
            lemma_without_keeps(c, entity, e);
        }
    }

    /// Records `entity` at `xform`: in its chunk at every resolution and by
    /// id.
    pub fn add_entity(&mut self, entity: u64, xform: &Transform)
        requires
            old(self).well_formed(),
            old(self).cfg().supports_spec(xform.coords@),
        ensures
            final(self).cfg() == old(self).cfg(),
            final(self).placed() == old(self).placed().insert(entity, xform.view_spec()),
            old(self).cells_moved(final(self), entity, None, Some(xform.coords@)),
            final(self).well_formed(),
            old(self).indexed() ==> final(self).indexed(),
    {
        let ghost before = *self;
        self.add_cells(entity, xform.coords);
        let ghost mid = *self;
        let t = copy_transform(xform);
        self.by_id.insert(entity, t);
        proof {
            assert forall|i: int, h: (int, int)| #[trigger] self.cell(i, h) == mid.cell(i, h) by {}
            assert(self.placed() =~= before.placed().insert(entity, xform.view_spec()));
            if before.indexed() {
                before.lemma_indexed_after_move(self, entity, None, xform.coords@);
            }
        }
    }

    /// Adds `entity` to the chunk of `coords` at every resolution.
    fn add_cells(&mut self, entity: u64, coords: Hex)
        requires
            old(self).well_formed(),
            old(self).cfg().supports_spec(coords@),
        ensures
            final(self).cfg() == old(self).cfg(),
            final(self).placed() == old(self).placed(),
            final(self).well_formed(),
            old(self).cells_moved(final(self), entity, None, Some(coords@)),
    {
        let ghost before = *self;
        let res = self.config.hex_resolutions(coords);
        let mut j: usize = 0;
        while j < res.len()
            invariant
                j <= res@.len() == before.cfg().extra_resolutions + 1,
                self.cfg() == before.cfg(),
                self.placed() == before.placed(),
                before.well_formed(),
                forall|i: int|
                    0 <= i < res@.len() ==> (#[trigger] res@[i]).0 == i && res@[i].1@ == lower_res(
                        coords@,
                        before.cfg().radius_spec(i),
                    ),
                forall|i: int, h: (int, int)|
                    #[trigger] self.cell(i, h) == if i < j {
                        moved_cell(before.cell(i, h), entity, h, None, before.chunk(Some(coords@), i))
                    } else {
                        before.cell(i, h)
                    },
            decreases res@.len() - j,
        {
            let (i, c) = res[j];
            self.add_entity_at_resolution(entity, c, i);
            j = j + 1;
        }
        proof {
            assert(self.well_formed());
        }
    }

    /// Removes `entity` from the chunk of `coords` at every resolution.
    fn remove_cells(&mut self, entity: u64, coords: Hex)
        requires
            old(self).cfg().config_ok(),
            old(self).cfg().supports_spec(coords@),
        ensures
            final(self).cfg() == old(self).cfg(),
            final(self).by_id@ == old(self).by_id@,
            old(self).cells_moved(final(self), entity, Some(coords@), None),
    {
        let ghost before = *self;
        let res = self.config.hex_resolutions(coords);
        let mut j: usize = 0;
        while j < res.len()
            invariant
                j <= res@.len() == before.cfg().extra_resolutions + 1,
                self.cfg() == before.cfg(),
                self.by_id@ == before.by_id@,
                forall|i: int|
                    0 <= i < res@.len() ==> (#[trigger] res@[i]).0 == i && res@[i].1@ == lower_res(
                        coords@,
                        before.cfg().radius_spec(i),
                    ),
                forall|i: int, h: (int, int)|
                    #[trigger] self.cell(i, h) == if i < j {
                        moved_cell(before.cell(i, h), entity, h, before.chunk(Some(coords@), i), None)
                    } else {
                        before.cell(i, h)
                    },
            decreases res@.len() - j,
        {
            let (i, c) = res[j];
            self.remove_entity_at_resolution(entity, c, i);
            j = j + 1;
        }
    }

    /// Moves `entity` from the chunk of `from` to the chunk of `to` at each
    /// resolution where the two differ.
    fn move_cells(&mut self, entity: u64, from: Hex, to: Hex)
        requires
            old(self).cfg().config_ok(),
            old(self).cfg().supports_spec(from@),
            old(self).cfg().supports_spec(to@),
        ensures
            final(self).cfg() == old(self).cfg(),
            final(self).by_id@ == old(self).by_id@,
            old(self).cells_moved(final(self), entity, Some(from@), Some(to@)),
    {
        let ghost before = *self;
        let fr = self.config.hex_resolutions(from);
        let tr = self.config.hex_resolutions(to);
        let mut j: usize = 0;
        while j < fr.len()
            invariant
                j <= fr@.len() == tr@.len() == before.cfg().extra_resolutions + 1,
                self.cfg() == before.cfg(),
                self.by_id@ == before.by_id@,
                forall|i: int|
                    0 <= i < fr@.len() ==> (#[trigger] fr@[i]).0 == i && fr@[i].1@ == lower_res(
                        from@,
                        before.cfg().radius_spec(i),
                    ),
                forall|i: int|
                    0 <= i < tr@.len() ==> (#[trigger] tr@[i]).0 == i && tr@[i].1@ == lower_res(
                        to@,
                        before.cfg().radius_spec(i),
                    ),
                forall|i: int, h: (int, int)|
                    #[trigger] self.cell(i, h) == if i < j {
                        moved_cell(
                            before.cell(i, h),
                            entity,
                            h,
                            before.chunk(Some(from@), i),
                            before.chunk(Some(to@), i),
                        )
                    } else {
                        before.cell(i, h)
                    },
            decreases fr@.len() - j,
        {
            let (i, p) = fr[j];
            let (_, q) = tr[j];
            if p != q {
                self.remove_entity_at_resolution(entity, p, i);
                self.add_entity_at_resolution(entity, q, i);
            }
            j = j + 1;
        }
    }

    /// Removes `entity`: from its chunk at every resolution and by id. Gives
    /// back its transform, or `None` if it was not on this map.
    pub fn remove_entity(&mut self, entity: u64) -> (r: Option<Transform>)
        requires
            old(self).well_formed(),
        ensures
            final(self).cfg() == old(self).cfg(),
            final(self).well_formed(),
            old(self).indexed() ==> final(self).indexed(),
            match r {
                Some(t) => old(self).placed().contains_key(entity) && old(self).placed()[entity]
                    == t.view_spec() && final(self).placed() == old(self).placed().remove(entity)
                    && old(self).cells_moved(final(self), entity, Some(t.coords@), None),
                None => !old(self).placed().contains_key(entity) && final(self).placed()
                    == old(self).placed() && old(self).cells_moved(final(self), entity, None, None),
            },
    {
        let ghost before = *self;
        match self.by_id.remove(&entity) {
            Some(prev) => {
                proof {
                    assert(before.placed().contains_key(entity));
                    assert(before.cfg().supports_spec(prev.coords@));
                }
                let ghost mid = *self;
                self.remove_cells(entity, prev.coords);
                proof {
                    assert forall|i: int, h: (int, int)| #[trigger] mid.cell(i, h) == before.cell(i, h) by {}
                    assert(mid.chunk(Some(prev.coords@), 0) == before.chunk(Some(prev.coords@), 0));
                }
                proof {
                    assert(self.placed() =~= before.placed().remove(entity));
                    if before.indexed() {
                        before.lemma_indexed_after_remove(self, entity, prev.coords@);
                    }
                }
                Some(prev)
            },
            None => {
                proof {
                    assert(self.placed() =~= before.placed());
                }
                None
            },
        }
    }

    /// Records that `entity` is now at `new`: where it was on this map
    /// before, it leaves each chunk that differs from its new one.
    pub fn move_entity(&mut self, entity: u64, new: &Transform)
        requires
            old(self).well_formed(),
            old(self).cfg().supports_spec(new.coords@),
        ensures
            final(self).cfg() == old(self).cfg(),
            final(self).placed() == old(self).placed().insert(entity, new.view_spec()),
            final(self).well_formed(),
            old(self).indexed() ==> final(self).indexed(),
            old(self).cells_moved(
                final(self),
                entity,
                if old(self).placed().contains_key(entity) {
                    Some(old(self).placed()[entity].1)
                } else {
                    None
                },
                Some(new.coords@),
            ),
    {
        let ghost before = *self;
        let t = copy_transform(new);
        match self.by_id.insert(entity, t) {
            None => {
                let ghost mid = *self;
                proof {
                    assert(mid.placed() =~= before.placed().insert(entity, new.view_spec()));
                }
                self.add_cells(entity, new.coords);
                proof {
                    assert forall|i: int, h: (int, int)| #[trigger] mid.cell(i, h) == before.cell(i, h) by {}
                    assert(mid.chunk(Some(new.coords@), 0) == before.chunk(Some(new.coords@), 0));
                    if before.indexed() {
                        before.lemma_indexed_after_move(self, entity, None, new.coords@);
                    }
                }
            },
            Some(prev) => {
                proof {
                    assert(before.placed().contains_key(entity));
                    assert(before.cfg().supports_spec(prev.coords@));
                }
                let ghost mid = *self;
                self.move_cells(entity, prev.coords, new.coords);
                proof {
                    assert forall|i: int, h: (int, int)| #[trigger] mid.cell(i, h) == before.cell(i, h) by {}
                }
                proof {
                    assert(self.placed() =~= before.placed().insert(entity, new.view_spec()));
                    if before.indexed() {
                        before.lemma_indexed_after_move(self, entity, Some(prev.coords@), new.coords@);
                    }
                }
            },
        }
    }
}

// ---------------------------------------------------------------------------
// Neighbourhood queries

/// The first resolution, from `i` on, whose chunk radius is at least half
/// of `radius`.
pub open spec fn first_resolution(cfg: MapConfig, radius: int, i: int) -> Option<int>
    decreases cfg.extra_resolutions + 1 - i,
{
    if i < 0 || i > cfg.extra_resolutions {
        None
    } else if cfg.radius_spec(i) >= radius / 2 {
        Some(i)
    } else {
        first_resolution(cfg, radius, i + 1)
    }
}

/// Whether both axial coordinates of `h` lie within `i32`.
pub open spec fn axial_fits(h: (int, int)) -> bool {
    &&& i32::MIN <= h.0 <= i32::MAX
    &&& i32::MIN <= h.1 <= i32::MAX
}

/// Chunk `d` followed by the first `k` of its neighbours (in edge
/// direction order) that have coordinates.
pub open spec fn neighborhood(d: (int, int), k: int) -> Seq<(int, int)>
    decreases k,
{
    if k <= 0 {
        seq![d]
    } else {
        let n = hex_add(d, neighbor_offset(k - 1));
        let prev = neighborhood(d, k - 1);
        if axial_fits(n) {
            prev.push(n)
        } else {
            prev
        }
    }
}

impl Entities {
    /// The entities of `s` that are placed, each with its transform.
    pub open spec fn placed_of(&self, s: Seq<u64>) -> Seq<(u64, TransformView)>
        decreases s.len(),
    {
        if s.len() == 0 {
            Seq::empty()
        } else {
            let r = self.placed_of(s.drop_last());
            if self.placed().contains_key(s.last()) {
                r.push((s.last(), self.placed()[s.last()]))
            } else {
                r
            }
        }
    }

    /// The placed entities of the chunks `cs` at resolution `res`, chunk
    /// by chunk.
    pub open spec fn found_in(&self, cs: Seq<(int, int)>, res: int) -> Seq<(u64, TransformView)>
        decreases cs.len(),
    {
        if cs.len() == 0 {
            Seq::empty()
        } else {
            self.found_in(cs.drop_last(), res) + self.placed_of(self.cell(res, cs.last()))
        }
    }

    /// What `find_within` finds around `coord` for `radius`.
    pub open spec fn within_spec(&self, coord: (int, int), radius: int) -> Seq<(u64, TransformView)> {
        match first_resolution(self.cfg(), radius, 0) {
            None => Seq::empty(),
            Some(i) => self.found_in(
                neighborhood(lower_res(coord, self.cfg().radius_spec(i)), 6),
                i,
            ),
        }
    }

    fn placed_in_cell(&self, coord: Hex, res: usize, out: &mut Vec<(u64, Transform)>)
        ensures
            final(out)@.map_values(|p: (u64, Transform)| (p.0, p.1.view_spec())) == old(out)@.map_values(
                |p: (u64, Transform)| (p.0, p.1.view_spec()),
            ) + self.placed_of(self.cell(res as int, coord@)),
    {
        let ents = self.iter_at(coord, res);
        let ghost start = out@.map_values(|p: (u64, Transform)| (p.0, p.1.view_spec()));
        let mut k: usize = 0;
        while k < ents.len()
            invariant
                k <= ents@.len(),
                ents@ == self.cell(res as int, coord@),
                out@.map_values(|p: (u64, Transform)| (p.0, p.1.view_spec())) == start
                    + self.placed_of(ents@.take(k as int)),
            decreases ents@.len() - k,
        {
            let e = ents[k];
            let ghost before = out@.map_values(|p: (u64, Transform)| (p.0, p.1.view_spec()));
            proof {
                assert(ents@.take(k + 1).drop_last() =~= ents@.take(k as int));
                assert(ents@.take(k + 1).last() == e);
            }
            match self.by_id.get(&e) {
                Some(t) => {
                    let c = copy_transform(t);
                    out.push((e, c));
                    proof {
                        assert(out@.map_values(|p: (u64, Transform)| (p.0, p.1.view_spec())) =~= before.push(
                            (e, t.view_spec()),
                        ));
                        assert(self.placed()[e] == t.view_spec());
                    }
                },
                None => {},
            }
            k = k + 1;
        }
        proof {
            assert(ents@.take(ents@.len() as int) =~= ents@);
        }
    }

    /// The placed entities in the chunk of `coord`, and in its six
    /// neighbours, at the first resolution whose chunk radius is at least
    /// half of `radius`; nothing if no resolution is that coarse.
    /// Neighbouring chunks whose coordinates would leave `i32` are skipped.
    pub fn find_within(&self, coord: Hex, radius: u32) -> (found: Vec<(u64, Transform)>)
        requires
            self.cfg().config_ok(),
            self.cfg().supports_spec(coord@),
        ensures
            found@.map_values(|p: (u64, Transform)| (p.0, p.1.view_spec())) == self.within_spec(
                coord@,
                radius as int,
            ),
    {
        let mut out: Vec<(u64, Transform)> = Vec::new();
        let radii = self.config.radii();
        let mut i: usize = 0;
        let half = radius / 2;
        while i < radii.len()
            invariant
                i <= radii@.len() == self.cfg().extra_resolutions + 1,
                self.cfg().config_ok(),
                forall|j: int|
                    0 <= j < radii@.len() ==> #[trigger] radii@[j] == (j as usize, self.cfg().radius_spec(j) as u32),
                first_resolution(self.cfg(), radius as int, 0) == first_resolution(self.cfg(), radius as int, i as int),
                half == radius / 2,
            ensures
                i <= radii@.len(),
                i < radii@.len() ==> radii@[i as int].1 >= half,
                first_resolution(self.cfg(), radius as int, 0) == first_resolution(self.cfg(), radius as int, i as int),
            decreases radii@.len() - i,
        {
            proof {
                self.cfg().lemma_radius_bound(i as int);
            }
            if radii[i].1 >= half {
                break;
            }
            i = i + 1;
        }
        if i == radii.len() {
            proof {
                assert(first_resolution(self.cfg(), radius as int, i as int) == None::<int>);
                assert(out@.map_values(|p: (u64, Transform)| (p.0, p.1.view_spec())) =~= Seq::<(u64, TransformView)>::empty());
            }
            return out;
        }
        let r = radii[i].1;
        proof {
            self.cfg().lemma_radius_bound(i as int);
            assert(first_resolution(self.cfg(), radius as int, i as int) == Some(i as int));
            assert(lower_res_ok(coord@, self.cfg().radius_spec(i as int)));
        }
        let d = hex_to_lower_res(coord, r);
        let ghost dv = lower_res(coord@, self.cfg().radius_spec(i as int));
        assert(coord@.0 as i32 == coord.x && coord@.1 as i32 == coord.y);
        assert(d@ == dv);
        proof {
            assert(out@.map_values(|p: (u64, Transform)| (p.0, p.1.view_spec())) =~= self.found_in(
                Seq::<(int, int)>::empty(),
                i as int,
            ));
        }
        self.placed_in_cell(d, i, &mut out);
        proof {
            let n0 = neighborhood(dv, 0);
            assert(n0.drop_last() =~= Seq::<(int, int)>::empty());
            assert(self.found_in(n0, i as int) == self.found_in(Seq::<(int, int)>::empty(), i as int) + self.placed_of(self.cell(i as int, dv)));
        }
        let mut k: u8 = 0;
        while k < 6
            invariant
                k <= 6,
                d@ == dv,
                out@.map_values(|p: (u64, Transform)| (p.0, p.1.view_spec())) == self.found_in(
                    neighborhood(dv, k as int),
                    i as int,
                ),
            decreases 6 - k,
        {
            let off = EdgeDirection::from_index(k).into_hex();
            let nx = d.x as i64 + off.x as i64;
            let ny = d.y as i64 + off.y as i64;
            let ghost n = hex_add(dv, neighbor_offset(k as int));
            if -2147483648 <= nx && nx <= 2147483647 && -2147483648 <= ny && ny <= 2147483647 {
                let nh = Hex { x: nx as i32, y: ny as i32 };
                self.placed_in_cell(nh, i, &mut out);
                proof {
                    let nb = neighborhood(dv, k + 1);
                    assert(nb == neighborhood(dv, k as int).push(n));
                    assert(nb.drop_last() =~= neighborhood(dv, k as int));
                    assert(nh@ == n);
                }
            } else {
                proof {
                    assert(neighborhood(dv, k + 1) == neighborhood(dv, k as int));
                }
            }
            k = k + 1;
        }
        out
    }
}

// ---------------------------------------------------------------------------
// The maps of the world

/// The maps by name and by entity.
pub struct Maps {
    by_name: NameMap<u64>,
    by_id: HashMap<u64, String>,
}

impl Maps {
    /// The map entity of each name.
    pub closed spec fn names(&self) -> Map<Seq<char>, u64> {
        self.by_name.map()
    }

    /// The name of each map entity.
    pub closed spec fn ids(&self) -> Map<u64, Seq<char>> {
        self.by_id@.map_values(|n: String| n@)
    }

    /// Each name leads to an entity that has that name.
    pub open spec fn consistent(&self) -> bool {
        forall|n: Seq<char>| #[trigger]
            self.names().contains_key(n) ==> self.ids().contains_key(self.names()[n])
                && self.ids()[self.names()[n]] == n
    }

    /// No maps.
    pub fn new() -> (m: Maps)
        ensures
            m.names() == Map::<Seq<char>, u64>::empty(),
            m.ids() == Map::<u64, Seq<char>>::empty(),
    {
        let m = Maps { by_name: NameMap::new(), by_id: HashMap::new() };
        assert(m.ids() =~= Map::<u64, Seq<char>>::empty());
        m
    }

    /// Registers map entity `id` under `name`.
    pub fn add_map(&mut self, name: String, id: u64)
        ensures
            final(self).names() == old(self).names().insert(name@, id),
            final(self).ids() == old(self).ids().insert(id, name@),
    {
        let ghost before = self.ids();
        self.by_name.insert(name.clone(), id);
        self.by_id.insert(id, name);
        assert(self.ids() =~= before.insert(id, name@));
    }

    /// Forgets map entity `id`, and the name it had.
    pub fn remove_map(&mut self, id: u64)
        ensures
            old(self).ids().contains_key(id) ==> final(self).ids() == old(self).ids().remove(id)
                && final(self).names() == old(self).names().remove(old(self).ids()[id]),
            !old(self).ids().contains_key(id) ==> final(self).ids() == old(self).ids()
                && final(self).names() == old(self).names(),
    {
        let ghost before = self.ids();
        match self.by_id.remove(&id) {
            Some(name) => {
                self.by_name.remove(name.as_str());
                assert(self.ids() =~= before.remove(id));
            },
            None => {
                assert(self.ids() =~= before);
            },
        }
    }

    /// The map entity named `name`.
    pub fn lookup(&self, name: &str) -> (r: Option<u64>)
        ensures
            match r {
                Some(id) => self.names().contains_key(name@) && self.names()[name@] == id,
                None => !self.names().contains_key(name@),
            },
    {
        match self.by_name.get(name) {
            Some(id) => Some(*id),
            None => None,
        }
    }
}

/// Registering a map entity that has no name yet, or forgetting one, keeps
/// every name pointing at an entity of that name.
pub proof fn lemma_maps_consistent(m: Maps, after_add: Maps, name: Seq<char>, id: u64, after_remove: Maps, gone: u64)
    requires
        m.consistent(),
        !m.ids().contains_key(id),
        after_add.names() == m.names().insert(name, id),
        after_add.ids() == m.ids().insert(id, name),
        m.ids().contains_key(gone) ==> after_remove.ids() == m.ids().remove(gone)
            && after_remove.names() == m.names().remove(m.ids()[gone]),
        !m.ids().contains_key(gone) ==> after_remove.ids() == m.ids() && after_remove.names() == m.names(),
    ensures
        after_add.consistent(),
        after_remove.consistent(),
{
    assert forall|n: Seq<char>| #[trigger] after_add.names().contains_key(n) implies after_add.ids().contains_key(after_add.names()[n])
        && after_add.ids()[after_add.names()[n]] == n by {
        if n != name {
            assert(m.names().contains_key(n));
            assert(m.names()[n] != id);
        }
    }
    assert forall|n: Seq<char>| #[trigger] after_remove.names().contains_key(n) implies after_remove.ids().contains_key(after_remove.names()[n])
        && after_remove.ids()[after_remove.names()[n]] == n by {
        assert(m.names().contains_key(n));
        if m.ids().contains_key(gone) {
            assert(m.names()[n] != gone);
        }
    }
}

/// The maps of the world with the spatial index of each.
pub struct MapSet {
    maps: Maps,
    indexes: HashMap<u64, Entities>,
}

impl MapSet {
    /// Every index can be updated.
    pub closed spec fn well_formed(&self) -> bool {
        forall|k: u64| #[trigger] self.indexes@.contains_key(k) ==> self.indexes@[k].well_formed()
    }

    /// The registry of maps.
    pub closed spec fn registry(&self) -> Maps {
        self.maps
    }

    /// The spatial index of each map entity.
    pub closed spec fn index(&self) -> Map<u64, Entities> {
        self.indexes@
    }

    /// The index of the map named `name`, if that map has one.
    pub open spec fn index_named(&self, name: Seq<char>) -> Option<u64> {
        if self.registry().names().contains_key(name) && self.index().contains_key(
            self.registry().names()[name],
        ) {
            Some(self.registry().names()[name])
        } else {
            None
        }
    }

    /// `after` is `before` once `entity` was recorded at `xform` in the
    /// index of its map; `done` says whether it was (the map is known and
    /// can index the cell).
    pub open spec fn entity_added(before: MapSet, after: MapSet, entity: u64, xform: Transform, done: bool) -> bool {
        &&& after.registry() == before.registry()
        &&& match before.index_named(xform.map@) {
            Some(k) => done == before.index()[k].cfg().supports_spec(xform.coords@) && (if done {
                after.index() == before.index().insert(k, after.index()[k])
                    && after.index()[k].placed() == before.index()[k].placed().insert(entity, xform.view_spec())
                    && before.index()[k].cells_moved(&after.index()[k], entity, None, Some(xform.coords@))
            } else {
                after.index() == before.index()
            }),
            None => !done && after.index() == before.index(),
        }
    }

    /// `after` is `before` once `entity` was taken out of the index of the
    /// map of `xform`.
    pub open spec fn entity_removed(before: MapSet, after: MapSet, entity: u64, xform: Transform) -> bool {
        &&& after.registry() == before.registry()
        &&& match before.index_named(xform.map@) {
            Some(k) => after.index() == before.index().insert(k, after.index()[k])
                && after.index()[k].placed() == before.index()[k].placed().remove(entity)
                && (before.index()[k].placed().contains_key(entity) ==> before.index()[k].cells_moved(
                    &after.index()[k],
                    entity,
                    Some(before.index()[k].placed()[entity].1),
                    None,
                )),
            None => after.index() == before.index(),
        }
    }

    /// `after` is `before` once `entity` was moved to `to` within the index
    /// of the map of `to`, where that map can index the new cell.
    pub open spec fn entity_moved_within(before: MapSet, after: MapSet, entity: u64, to: Transform) -> bool {
        &&& after.registry() == before.registry()
        &&& match before.index_named(to.map@) {
            Some(k) => after.index() == before.index().insert(k, after.index()[k])
                && if before.index()[k].cfg().supports_spec(to.coords@) {
                after.index()[k].placed() == before.index()[k].placed().insert(entity, to.view_spec())
                    && before.index()[k].cells_moved(
                    &after.index()[k],
                    entity,
                    if before.index()[k].placed().contains_key(entity) {
                        Some(before.index()[k].placed()[entity].1)
                    } else {
                        None
                    },
                    Some(to.coords@),
                )
            } else {
                after.index()[k] == before.index()[k]
            },
            None => after.index() == before.index(),
        }
    }

    /// No maps.
    pub fn new() -> (m: MapSet)
        ensures
            m.well_formed(),
            m.registry().names() == Map::<Seq<char>, u64>::empty(),
            m.index() == Map::<u64, Entities>::empty(),
    {
        let m = MapSet { maps: Maps::new(), indexes: HashMap::new() };
        assert(m.index() =~= Map::<u64, Entities>::empty());
        m
    }

    /// The registry of maps.
    pub fn maps(&self) -> (m: &Maps)
        ensures
            *m == self.registry(),
    {
        &self.maps
    }

    /// A map entity `id` named `name` appeared: it is registered and given
    /// an empty index with the resolutions of `config`.
    pub fn map_added(&mut self, id: u64, name: String, config: MapConfig)
        requires
            config.config_ok(),
            old(self).well_formed(),
        ensures
            final(self).well_formed(),
            final(self).registry().names() == old(self).registry().names().insert(name@, id),
            final(self).registry().ids() == old(self).registry().ids().insert(id, name@),
            final(self).index().contains_key(id),
            final(self).index()[id].cfg() == config,
            final(self).index()[id].placed() == Map::<u64, TransformView>::empty(),
            forall|k: u64| k != id ==> #[trigger] final(self).index().contains_key(k) == old(self).index().contains_key(k),
            forall|k: u64| k != id && #[trigger] old(self).index().contains_key(k) ==> final(self).index()[k] == old(self).index()[k],
    {
        self.maps.add_map(name, id);
        let e = Entities::new(config);
        proof {
            assert(e.well_formed());
        }
        self.indexes.insert(id, e);
    }

    /// Map entity `id` lost its map: its name is forgotten.
    pub fn map_removed(&mut self, id: u64)
        requires
            old(self).well_formed(),
        ensures
            final(self).well_formed(),
            old(self).registry().ids().contains_key(id) ==> final(self).registry().ids() == old(
                self,
            ).registry().ids().remove(id) && final(self).registry().names() == old(
                self,
            ).registry().names().remove(old(self).registry().ids()[id]),
            !old(self).registry().ids().contains_key(id) ==> final(self).registry().ids() == old(
                self,
            ).registry().ids() && final(self).registry().names() == old(self).registry().names(),
            final(self).index() == old(self).index(),
    {
        self.maps.remove_map(id);
    }

    /// The index of the map named `map`, if there is one.
    pub fn index_of_map(&self, map: &String) -> (r: Option<&Entities>)
        ensures
            match r {
                Some(e) => self.index_named(map@) matches Some(k) && *e == self.index()[k],
                None => self.index_named(map@) is None,
            },
    {
        match self.maps.lookup(map.as_str()) {
            Some(k) => self.indexes.get(&k),
            None => None,
        }
    }

    fn take_index(&mut self, map: &String) -> (r: Option<(u64, Entities)>)
        requires
            old(self).well_formed(),
        ensures
            final(self).well_formed(),
            final(self).registry() == old(self).registry(),
            match r {
                Some((k, e)) => old(self).index_named(map@) == Some(k) && e == old(self).index()[k]
                    && final(self).index() == old(self).index().remove(k) && e.well_formed(),
                None => old(self).index_named(map@) is None && final(self).index() == old(self).index(),
            },
    {
        let ghost before = self.indexes@;
        match self.maps.lookup(map.as_str()) {
            Some(k) => {
                let r = self.indexes.remove(&k);
                match r {
                    Some(e) => Some((k, e)),
                    None => None,
                }
            },
            None => None,
        }
    }

    /// Records `entity` at `xform` in the index of its map, if that map is
    /// known and the cell can be indexed there.
    pub fn add_entity(&mut self, entity: u64, xform: &Transform) -> (done: bool)
        requires
            old(self).well_formed(),
        ensures
            final(self).well_formed(),
            MapSet::entity_added(*old(self), *final(self), entity, *xform, done),
    {
        let ghost before = self.index();
        match self.take_index(&xform.map) {
            None => false,
            Some((k, mut e)) => {
                let ok = e.config.supports(xform.coords);
                if ok {
                    e.add_entity(entity, xform);
                }
                self.indexes.insert(k, e);
                proof {
                    if !ok {
                        assert(self.index() =~= before);
                    } else {
                        assert(self.index() =~= before.insert(k, self.index()[k]));
                    }
                }
                ok
            },
        }
    }

    /// Removes `entity`, placed at `xform`, from the index of its map.
    pub fn remove_entity(&mut self, entity: u64, xform: &Transform)
        requires
            old(self).well_formed(),
        ensures
            final(self).well_formed(),
            MapSet::entity_removed(*old(self), *final(self), entity, *xform),
    {
        let ghost before = self.index();
        match self.take_index(&xform.map) {
            None => {},
            Some((k, mut e)) => {
                let ghost e0 = e;
                let r = e.remove_entity(entity);
                self.indexes.insert(k, e);
                proof {
                    assert(self.index() =~= before.insert(k, self.index()[k]));
                    if r is None {
                        assert(e0.placed().remove(entity) =~= e0.placed());
                    }
                }
            },
        }
    }

    /// Moves `entity` from `from` to `to` in the indexes: within one map, or
    /// out of the map of `from` and into the map of `to`. Gives `false`,
    /// changing nothing, when the two transforms are equal.
    pub fn move_entity(&mut self, entity: u64, from: &Transform, to: &Transform) -> (moved: bool)
        requires
            old(self).well_formed(),
        ensures
            final(self).well_formed(),
            moved == (from.view_spec() != to.view_spec()),
            !moved ==> *final(self) == *old(self),
            moved && from.map@ == to.map@ ==> MapSet::entity_moved_within(*old(self), *final(self), entity, *to),
            moved && from.map@ != to.map@ ==> exists|mid: MapSet, done: bool|
                #[trigger] MapSet::entity_removed(*old(self), mid, entity, *from)
                    && #[trigger] MapSet::entity_added(mid, *final(self), entity, *to, done),
    {
        let same = str_equal(&from.map, &to.map) && from.coords == to.coords
            && from.facing.index() == to.facing.index();
        if same {
            return false;
        }
        if str_equal(&from.map, &to.map) {
            let ghost before = self.index();
            match self.take_index(&to.map) {
                None => {},
                Some((k, mut e)) => {
                    if e.config.supports(to.coords) {
                        e.move_entity(entity, to);
                    }
                    self.indexes.insert(k, e);
                    proof {
                        assert(self.index() =~= before.insert(k, self.index()[k]));
                    }
                },
            }
        } else {
            let ghost before = *self;
            self.remove_entity(entity, from);
            let ghost mid = *self;
            let done = self.add_entity(entity, to);
            proof {
                assert(MapSet::entity_removed(before, mid, entity, *from));
                assert(MapSet::entity_added(mid, *self, entity, *to, done));
            }
        }
        true
    }
}

/// Whether two strings are equal.
fn str_equal(a: &String, b: &String) -> (r: bool)
    ensures
        r == (a@ == b@),
{
    *a == *b
}

// ---------------------------------------------------------------------------
// Placement updates

/// What the index must do when an entity's global transform is
/// recomputed.
#[derive(Clone, Copy, Debug, PartialEq, Eq, Structural)]
pub enum PlacementChange {
    /// The transform changed: the entity moves in the indexes, and a move
    /// is announced.
    Move,
    /// The transform is as before but the entity just came alive: it is
    /// added to the index of its map, and a move is announced.
    Add,
    /// Nothing to do.
    Keep,
}

/// What recomputing an entity's global transform from `prev` to `new`
/// calls for; `newly_live` says the entity just came alive.
pub fn placement_change(prev: &Transform, new: &Transform, newly_live: bool) -> (c: PlacementChange)
    ensures
        c == (if prev.view_spec() != new.view_spec() {
            PlacementChange::Move
        } else if newly_live {
            PlacementChange::Add
        } else {
            PlacementChange::Keep
        }),
{
    let same = str_equal(&prev.map, &new.map) && prev.coords == new.coords
        && prev.facing.index() == new.facing.index();
    if !same {
        PlacementChange::Move
    } else if newly_live {
        PlacementChange::Add
    } else {
        PlacementChange::Keep
    }
}

/// A resolution that a search picks is one of the configuration's.
proof fn lemma_first_resolution_in_range(cfg: MapConfig, radius: int, i: int, j: int)
    requires
        first_resolution(cfg, radius, i) == Some(j),
    ensures
        0 <= i <= j <= cfg.extra_resolutions,
    decreases cfg.extra_resolutions + 1 - i,
{
    if !(i < 0 || i > cfg.extra_resolutions) && cfg.radius_spec(i) < radius / 2 {
        lemma_first_resolution_in_range(cfg, radius, i + 1, j);
    }
}

/// A chunk around `d` is `d` or one of its six neighbours.
proof fn lemma_neighborhood_has(d: (int, int), k: int, c: (int, int))
    requires
        0 <= k <= 6,
        axial_fits(c),
        c == d || exists|j: int| 0 <= j < k && c == hex_add(d, neighbor_offset(j)),
    ensures
        neighborhood(d, k).contains(c),
    decreases k,
{
    if k == 0 {
        assert(neighborhood(d, 0)[0] == d);
    } else {
        let n = hex_add(d, neighbor_offset(k - 1));
        if c == n {
            let nb = neighborhood(d, k);
            assert(nb == neighborhood(d, k - 1).push(n));
            assert(nb[nb.len() - 1] == c);
        } else {
            if c != d {
                let j = choose|j: int| 0 <= j < k && c == hex_add(d, neighbor_offset(j));
                assert(j < k - 1);
            }
            lemma_neighborhood_has(d, k - 1, c);
            let p = neighborhood(d, k - 1);
            let q = p.index_of(c);
            if axial_fits(n) {
                assert(neighborhood(d, k)[q] == c);
            }
        }
    }
}

impl Entities {
    /// A placed entity listed in `s` is among the placed entities of `s`.
    proof fn lemma_placed_of_has(&self, s: Seq<u64>, e: u64)
        requires
            s.contains(e),
            self.placed().contains_key(e),
        ensures
            self.placed_of(s).contains((e, self.placed()[e])),
        decreases s.len(),
    {
        let r = self.placed_of(s.drop_last());
        if s.last() == e {
            assert(self.placed_of(s) == r.push((e, self.placed()[e])));
            assert(self.placed_of(s)[r.len() as int] == (e, self.placed()[e]));
        } else {
            let k = s.index_of(e);
            assert(s.drop_last()[k] == e);
            self.lemma_placed_of_has(s.drop_last(), e);
            let q = r.index_of((e, self.placed()[e]));
            if self.placed().contains_key(s.last()) {
                assert(self.placed_of(s)[q] == (e, self.placed()[e]));
            }
        }
    }

    /// What the chunks `cs` hold includes what chunk `c` of them holds.
    proof fn lemma_found_in_has(&self, cs: Seq<(int, int)>, res: int, c: (int, int), x: (u64, TransformView))
        requires
            cs.contains(c),
            self.placed_of(self.cell(res, c)).contains(x),
        ensures
            self.found_in(cs, res).contains(x),
        decreases cs.len(),
    {
        let prev = self.found_in(cs.drop_last(), res);
        let last = self.placed_of(self.cell(res, cs.last()));
        assert(self.found_in(cs, res) == prev + last);
        if cs.last() == c {
            let q = last.index_of(x);
            assert((prev + last)[prev.len() + q] == x);
        } else {
            let k = cs.index_of(c);
            assert(cs.drop_last()[k] == c);
            self.lemma_found_in_has(cs.drop_last(), res, c, x);
            let q = prev.index_of(x);
            assert((prev + last)[q] == x);
        }
    }
}

/// A search finds every entity in and next to the chunk it looks at: for
/// the resolution `find_within` picks (the first whose chunk radius is at
/// least half the search radius), every placed entity whose chunk at that
/// resolution is the chunk of `coord` or one of its six neighbouring
/// chunks (hex distance at most 1 between chunks) is found, with its
/// transform.
pub proof fn lemma_find_within_finds_nearby(m: Entities, coord: (int, int), radius: int, e: u64)
    requires
        m.indexed(),
        m.placed().contains_key(e),
        first_resolution(m.cfg(), radius, 0) is Some,
        ({
            let i = first_resolution(m.cfg(), radius, 0)->0;
            let r = m.cfg().radius_spec(i);
            let c = lower_res(m.placed()[e].1, r);
            let d = lower_res(coord, r);
            hex_length((c.0 - d.0, c.1 - d.1)) <= 1
        }),
    ensures
        m.within_spec(coord, radius).contains((e, m.placed()[e])),
{
    let i = first_resolution(m.cfg(), radius, 0)->0;
    lemma_first_resolution_in_range(m.cfg(), radius, 0, i);
    let r = m.cfg().radius_spec(i);
    let c = lower_res(m.placed()[e].1, r);
    let d = lower_res(coord, r);
    assert(m.cell(i, c).contains(e)) by {
        reveal_indexed(m, e, i);
    }
    m.lemma_placed_of_has(m.cell(i, c), e);
    let (a, b) = (c.0 - d.0, c.1 - d.1);
    assert(c == d || exists|j: int| 0 <= j < 6 && c == hex_add(d, neighbor_offset(j))) by {
        if !(a == 0 && b == 0) {
            if a == 1 && b == 0 {
                assert(c == hex_add(d, neighbor_offset(0)));
            } else if a == 0 && b == 1 {
                assert(c == hex_add(d, neighbor_offset(1)));
            } else if a == -1 && b == 1 {
                assert(c == hex_add(d, neighbor_offset(2)));
            } else if a == -1 && b == 0 {
                assert(c == hex_add(d, neighbor_offset(3)));
            } else if a == 0 && b == -1 {
                assert(c == hex_add(d, neighbor_offset(4)));
            } else {
                assert(a == 1 && b == -1);
                assert(c == hex_add(d, neighbor_offset(5)));
            }
        }
    }
    lemma_neighborhood_has(d, 6, c);
    m.lemma_found_in_has(neighborhood(d, 6), i, c, (e, m.placed()[e]));
}

/// The index holds each placed entity in its chunk at each resolution.
proof fn reveal_indexed(m: Entities, e: u64, i: int)
    requires
        m.indexed(),
        m.placed().contains_key(e),
        0 <= i <= m.cfg().extra_resolutions,
    ensures
        m.cell(i, lower_res(m.placed()[e].1, m.cfg().radius_spec(i))).contains(e),
{
    assert(m.cfg() == m.config);
    let _ = m.placed()[e];
    let _ = m.config.radius_spec(i);
}

impl Entities {
    /// Every entry of `placed_of(s)` is a placed entity with its transform.
    proof fn lemma_placed_of_placed(&self, s: Seq<u64>, x: (u64, TransformView))
        requires
            self.placed_of(s).contains(x),
        ensures
            self.placed().contains_key(x.0),
            self.placed()[x.0] == x.1,
        decreases s.len(),
    {
        let r = self.placed_of(s.drop_last());
        if r.contains(x) {
            self.lemma_placed_of_placed(s.drop_last(), x);
        } else {
            let q = self.placed_of(s).index_of(x);
            assert(self.placed().contains_key(s.last()));
            assert(self.placed_of(s) == r.push((s.last(), self.placed()[s.last()])));
            assert(q == r.len());
        }
    }

    /// Every entry of `found_in(cs, res)` is a placed entity with its
    /// transform.
    proof fn lemma_found_in_placed(&self, cs: Seq<(int, int)>, res: int, x: (u64, TransformView))
        requires
            self.found_in(cs, res).contains(x),
        ensures
            self.placed().contains_key(x.0),
            self.placed()[x.0] == x.1,
        decreases cs.len(),
    {
        let prev = self.found_in(cs.drop_last(), res);
        let last = self.placed_of(self.cell(res, cs.last()));
        assert(self.found_in(cs, res) == prev + last);
        let q = (prev + last).index_of(x);
        if q < prev.len() {
            assert(prev[q] == x);
            self.lemma_found_in_placed(cs.drop_last(), res, x);
        } else {
            assert(last[q - prev.len()] == x);
            self.lemma_placed_of_placed(self.cell(res, cs.last()), x);
        }
    }
}

/// A search reports only entities that are on the map, each with the
/// transform it is placed at.
pub proof fn lemma_find_within_reports_placed(m: Entities, coord: (int, int), radius: int, x: (u64, TransformView))
    requires
        m.within_spec(coord, radius).contains(x),
    ensures
        m.placed().contains_key(x.0),
        m.placed()[x.0] == x.1,
{
    let i = first_resolution(m.cfg(), radius, 0)->0;
    m.lemma_found_in_placed(neighborhood(lower_res(coord, m.cfg().radius_spec(i)), 6), i, x);
}

} // verus!
