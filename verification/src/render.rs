//! Which map widgets to redraw after entities moved: the widget of every
//! entity that moved, and every widget near where a drawn entity was or
//! now is.

use crate::map::{contains, axial_fits, hex_length, Entities, Hex, MapSet, Transform, TransformView};
use vstd::prelude::*;

verus! {

/// How far from a moved drawn entity widgets are redrawn: cells closer
/// than this many steps.
pub const MAP_RADIUS: i32 = 9;

/// An entity moved from `prev` to `new` (to nowhere when it left the world).
#[derive(Debug)]
pub struct Moved {
    pub entity: u64,
    pub prev: Transform,
    pub new: Option<Transform>,
}

/// Whether cell `c` lies closer than the map radius to `center`.
pub open spec fn near(center: (int, int), c: (int, int)) -> bool {
    &&& axial_fits(c)
    &&& hex_length((c.0 - center.0, c.1 - center.1)) < MAP_RADIUS
}

/// Whether `x` is recorded in the exact-resolution index of `ents` in a
/// cell near `center`.
pub open spec fn seen_near(ents: Entities, center: (int, int), x: u64) -> bool {
    exists|c: (int, int)| #[trigger] near(center, c) && ents.cell(0, c).contains(x)
}

/// Whether `x` is recorded near the transform `t` on its map.
pub open spec fn seen_at(maps: MapSet, t: TransformView, x: u64) -> bool {
    match maps.index_named(t.0) {
        Some(k) => seen_near(maps.index()[k], t.1, x),
        None => false,
    }
}

/// Whether the move `m` of a drawn entity brings `x` into view: `x` lies
/// near where the entity was or where it is now.
pub open spec fn seen_by_move(maps: MapSet, m: Moved, x: u64) -> bool {
    ||| seen_at(maps, m.prev.view_spec(), x)
    ||| (m.new matches Some(t) && seen_at(maps, t.view_spec(), x))
}

/// Whether `x`'s widget is redrawn for the moves `moved`: it has a widget,
/// and it moved itself or lies near a drawn entity that moved.
pub open spec fn redrawn(
    maps: MapSet,
    moved: Seq<Moved>,
    widgets: Seq<u64>,
    drawn: Seq<u64>,
    x: u64,
) -> bool {
    &&& widgets.contains(x)
    &&& exists|i: int|
        0 <= i < moved.len() && (#[trigger] moved[i].entity == x || (drawn.contains(moved[i].entity)
            && seen_by_move(maps, moved[i], x)))
}

/// Adds the entities of `cell` that have widgets and are not in `out` yet.
fn add_from_cell(cell: &Vec<u64>, widgets: &Vec<u64>, out: &mut Vec<u64>)
    ensures
        forall|x: u64| #[trigger] final(out)@.contains(x) == (old(out)@.contains(x) || (widgets@.contains(x)
            && cell@.contains(x))),
{
    let mut k: usize = 0;
    while k < cell.len()
        invariant
            k <= cell@.len(),
            forall|x: u64| #[trigger] out@.contains(x) == (old(out)@.contains(x) || (widgets@.contains(x)
                && cell@.take(k as int).contains(x))),
        decreases cell@.len() - k,
    {
        let x = cell[k];
        let ghost o0 = out@;
        if !contains(out, x) && contains(widgets, x) {
            out.push(x);
        }
        proof {
            let t0 = cell@.take(k as int);
            let t1 = cell@.take(k + 1);
            assert(t1 =~= t0.push(x));
            assert forall|y: u64| #[trigger] out@.contains(y) == (old(out)@.contains(y) || (widgets@.contains(y)
                && t1.contains(y))) by {
                assert(t1.contains(y) == (t0.contains(y) || y == x)) by {
                    if t1.contains(y) {
                        let j = choose|j: int| 0 <= j < t1.len() && t1[j] == y;
                        if j < t0.len() {
                            assert(t0[j] == y);
                        }
                    }
                    if t0.contains(y) {
                        let j = choose|j: int| 0 <= j < t0.len() && t0[j] == y;
                        assert(t1[j] == y);
                    }
                    if y == x {
                        assert(t1[k as int] == y);
                    }
                }
                if out@.contains(y) && !o0.contains(y) {
                    let j = choose|j: int| 0 <= j < out@.len() && out@[j] == y;
                    if j < o0.len() {
                        assert(o0[j] == y);
                    }
                }
                if o0.contains(y) {
                    let j = choose|j: int| 0 <= j < o0.len() && o0[j] == y;
                    assert(out@[j] == y);
                }
                if y == x && !o0.contains(y) && widgets@.contains(y) {
                    assert(out@[out@.len() - 1] == y);
                }
            }
        }
        k = k + 1;
    }
    proof {
        assert(cell@.take(cell@.len() as int) =~= cell@);
    }
}

/// Adds the entities with widgets that `ents` records near `center`.
fn add_near(ents: &Entities, center: Hex, widgets: &Vec<u64>, out: &mut Vec<u64>)
    ensures
        forall|x: u64| #[trigger] final(out)@.contains(x) == (old(out)@.contains(x) || (widgets@.contains(x)
            && seen_near(*ents, center@, x))),
{
    let mut dx: i64 = -8;
    while dx <= 8
        invariant
            -8 <= dx <= 9,
            forall|x: u64| #[trigger] out@.contains(x) == (old(out)@.contains(x) || (widgets@.contains(x)
                && exists|c: (int, int)| #[trigger] near(center@, c) && c.0 - center@.0 < dx && ents.cell(0, c).contains(x))),
        decreases 9 - dx,
    {
        let mut dy: i64 = -8;
        while dy <= 8
            invariant
                -8 <= dx <= 8,
                -8 <= dy <= 9,
                forall|x: u64| #[trigger] out@.contains(x) == (old(out)@.contains(x) || (widgets@.contains(x)
                    && exists|c: (int, int)| #[trigger] near(center@, c) && (c.0 - center@.0 < dx || (c.0
                        - center@.0 == dx && c.1 - center@.1 < dy)) && ents.cell(0, c).contains(x))),
            decreases 9 - dy,
        {
            let cx = center.x as i64 + dx;
            let cy = center.y as i64 + dy;
            let dz = -dx - dy;
            let ad = if dx < 0 { -dx } else { dx };
            let bd = if dy < 0 { -dy } else { dy };
            let zd = if dz < 0 { -dz } else { dz };
            let m = if ad >= bd && ad >= zd { ad } else if bd >= ad && bd >= zd { bd } else { zd };
            let in_range = -2147483648 <= cx && cx <= 2147483647 && -2147483648 <= cy && cy <= 2147483647;
            let ghost c: (int, int) = (cx as int, cy as int);
            proof {
                assert(hex_length((c.0 - center@.0, c.1 - center@.1)) == m);
                assert(near(center@, c) == (in_range && m < 9));
            }
            let ghost o0 = out@;
            if in_range && m < 9 {
                let h = Hex { x: cx as i32, y: cy as i32 };
                let cell = ents.iter_at(h, 0);
                add_from_cell(&cell, widgets, out);
            }
            proof {
                assert forall|x: u64| #[trigger] out@.contains(x) == (old(out)@.contains(x) || (widgets@.contains(x)
                    && exists|c2: (int, int)| #[trigger] near(center@, c2) && (c2.0 - center@.0 < dx || (c2.0
                        - center@.0 == dx && c2.1 - center@.1 < dy + 1)) && ents.cell(0, c2).contains(x))) by {
                    if widgets@.contains(x) && exists|c2: (int, int)| #[trigger] near(center@, c2) && (c2.0 - center@.0 < dx || (c2.0
                        - center@.0 == dx && c2.1 - center@.1 < dy + 1)) && ents.cell(0, c2).contains(x) {
                        let c2 = choose|c2: (int, int)| #[trigger] near(center@, c2) && (c2.0 - center@.0 < dx || (c2.0
                            - center@.0 == dx && c2.1 - center@.1 < dy + 1)) && ents.cell(0, c2).contains(x);
                        if c2.0 - center@.0 == dx && c2.1 - center@.1 == dy {
                            assert(c2 == c);
                        }
                    }
                }
            }
            dy = dy + 1;
        }
        proof {
            assert forall|x: u64| #[trigger] out@.contains(x) == (old(out)@.contains(x) || (widgets@.contains(x)
                && exists|c: (int, int)| #[trigger] near(center@, c) && c.0 - center@.0 < dx + 1 && ents.cell(0, c).contains(x))) by {
                if widgets@.contains(x) && exists|c: (int, int)| #[trigger] near(center@, c) && c.0 - center@.0 < dx + 1 && ents.cell(0, c).contains(x) {
                    let c = choose|c: (int, int)| #[trigger] near(center@, c) && c.0 - center@.0 < dx + 1 && ents.cell(0, c).contains(x);
                    assert(c.1 - center@.1 < 9);
                }
            }
        }
        dx = dx + 1;
    }
    proof {
        assert forall|x: u64| #[trigger] out@.contains(x) == (old(out)@.contains(x) || (widgets@.contains(x)
            && seen_near(*ents, center@, x))) by {
            if seen_near(*ents, center@, x) {
                let c = choose|c: (int, int)| #[trigger] near(center@, c) && ents.cell(0, c).contains(x);
                assert(c.0 - center@.0 < 9);
            }
        }
    }
}

/// Adds the entities with widgets near `t` on its map.
fn add_near_transform(maps: &MapSet, t: &Transform, widgets: &Vec<u64>, out: &mut Vec<u64>)
    ensures
        forall|x: u64| #[trigger] final(out)@.contains(x) == (old(out)@.contains(x) || (widgets@.contains(x)
            && seen_at(*maps, t.view_spec(), x))),
{
    match maps.index_of_map(&t.map) {
        Some(ents) => add_near(ents, t.coords, widgets, out),
        None => {},
    }
}

/// The entities whose map widgets are redrawn after the moves `moved`:
/// `widgets` are the live entities with a map widget, `drawn` those that
/// are drawn on maps. Each entity that moved and has a widget is listed for
/// its move; each other entity at most once.
pub fn render_requests(maps: &MapSet, moved: &Vec<Moved>, widgets: &Vec<u64>, drawn: &Vec<u64>) -> (out: Vec<u64>)
    ensures
        forall|x: u64| #[trigger] out@.contains(x) == redrawn(*maps, moved@, widgets@, drawn@, x),
{
    let mut out: Vec<u64> = Vec::new();
    let mut i: usize = 0;
    while i < moved.len()
        invariant
            i <= moved@.len(),
            forall|x: u64| #[trigger] out@.contains(x) == redrawn(*maps, moved@.take(i as int), widgets@, drawn@, x),
        decreases moved@.len() - i,
    {
        let m = &moved[i];
        let ghost o0 = out@;
        if contains(widgets, m.entity) {
            out.push(m.entity);
        }
        let ghost o1 = out@;
        if contains(drawn, m.entity) {
            add_near_transform(maps, &m.prev, widgets, &mut out);
            match &m.new {
                Some(t) => add_near_transform(maps, t, widgets, &mut out),
                None => {},
            }
        }
        proof {
            let p0 = moved@.take(i as int);
            let p1 = moved@.take(i + 1);
            assert(p1[i as int] == moved@[i as int]);
            assert forall|x: u64| #[trigger] out@.contains(x) == redrawn(*maps, p1, widgets@, drawn@, x) by {
                assert(o1.contains(x) == (o0.contains(x) || (widgets@.contains(x) && x == m.entity))) by {
                    if o1.contains(x) && x != m.entity {
                        let j = choose|j: int| 0 <= j < o1.len() && o1[j] == x;
                        if j < o0.len() {
                            assert(o0[j] == x);
                        }
                    }
                    if o0.contains(x) {
                        let j = choose|j: int| 0 <= j < o0.len() && o0[j] == x;
                        assert(o1[j] == x);
                    }
                    if x == m.entity && widgets@.contains(x) {
                        assert(o1[o1.len() - 1] == x);
                    }
                }
                if redrawn(*maps, p1, widgets@, drawn@, x) {
                    let j = choose|j: int|
                        0 <= j < p1.len() && (#[trigger] p1[j].entity == x || (drawn@.contains(p1[j].entity)
                            && seen_by_move(*maps, p1[j], x)));
                    if j < i {
                        assert(p0[j] == p1[j]);
                        assert(redrawn(*maps, p0, widgets@, drawn@, x));
                    }
                }
                if redrawn(*maps, p0, widgets@, drawn@, x) {
                    let j = choose|j: int|
                        0 <= j < p0.len() && (#[trigger] p0[j].entity == x || (drawn@.contains(p0[j].entity)
                            && seen_by_move(*maps, p0[j], x)));
                    assert(p1[j] == p0[j]);
                }
                if widgets@.contains(x) && x == m.entity {
                    assert(p1[i as int].entity == x);
                }
                if widgets@.contains(x) && drawn@.contains(m.entity) && seen_by_move(*maps, moved@[i as int], x) {
                    assert(p1[i as int].entity == m.entity);
                }
            }
        }
        i = i + 1;
    }
    proof {
        assert(moved@.take(moved@.len() as int) =~= moved@);
    }
    out
}

} // verus!
