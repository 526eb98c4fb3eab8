//! Movement actions: what each movement command asks for, what a finished
//! move does to a transform, and how a finished move is told to the
//! player.
//!
//! How long a move takes (the movement debt, paid off over time at the
//! entity's speed) is measured by the game loop; here a move is applied
//! once the loop reports that its debt is paid.

use crate::map::{
    EdgeDirection, Hex, hex_add, hex_fits, hex_rotate_cw, neighbor_offset,
};
use vstd::prelude::*;

verus! {

/// A queued movement.
#[derive(Clone, Copy, Debug, PartialEq, Eq, Structural)]
pub enum MoveAction {
    /// A step by this offset, in map directions.
    MoveAbsolute(Hex),
    /// A step by this offset, relative to where the entity faces.
    MoveRelative(Hex),
    /// A turn by this many sixths, clockwise when positive.
    Turn(i8),
}

impl Default for MoveAction {
    fn default() -> (a: MoveAction)
        ensures
            a == MoveAction::MoveRelative(Hex { x: 0i32, y: -1i32 }),
    {
        MoveAction::MoveRelative(Hex { x: 0, y: -1 })
    }
}

/// The direction opposite to facing number `f`.
pub open spec fn opposite(f: int) -> int {
    (f + 3) % 6
}

impl MoveAction {
    /// The same move relative to an entity facing `facing`: an absolute
    /// step is turned by the direction opposite to the facing.
    pub fn to_relative(self, facing: EdgeDirection) -> (r: MoveAction)
        requires
            self matches MoveAction::MoveAbsolute(c) ==> hex_fits(
                hex_rotate_cw(c@, opposite(facing.spec_index())),
            ),
        ensures
            r == match self {
                MoveAction::MoveAbsolute(c) => MoveAction::MoveRelative(
                    Hex {
                        x: hex_rotate_cw(c@, opposite(facing.spec_index())).0 as i32,
                        y: hex_rotate_cw(c@, opposite(facing.spec_index())).1 as i32,
                    },
                ),
                other => other,
            },
    {
        match self {
            MoveAction::MoveAbsolute(c) => {
                let turn = facing.rotate_cw(3).index();
                MoveAction::MoveRelative(c.rotate_cw(turn as u32))
            },
            other => other,
        }
    }
}

/// The number of clockwise sixths that a turn by `dir` comes to: `dir`
/// raised by sixes until it is not negative.
pub open spec fn turn_steps_spec(dir: int) -> int {
    if dir >= 0 {
        dir
    } else {
        dir % 6
    }
}

/// Brings a turn into `0..`, adding six while it is negative.
pub fn turn_steps(dir: i8) -> (r: u8)
    ensures
        r == turn_steps_spec(dir as int),
{
    let mut d = dir as i32;
    while d < 0
        invariant
            -128 <= d <= 127,
            d % 6 == (dir as int) % 6,
            d >= dir,
            dir >= 0 ==> d == dir,
            dir < 0 ==> d < 6,
        decreases 6 - d,
    {
        d = d + 6;
    }
    proof {
        if dir < 0 {
            assert(0 <= d < 6);
            assert(d % 6 == d);
        }
    }
    d as u8
}

/// Where a move leaves an entity at `coords` facing `facing`, if the move
/// happens now: steps wait for the movement debt to be paid, turns for the
/// rotation debt.
pub open spec fn apply_spec(
    action: MoveAction,
    coords: (int, int),
    facing: int,
    movement_ready: bool,
    rotation_ready: bool,
) -> Option<((int, int), int)> {
    match action {
        MoveAction::MoveAbsolute(off) => if movement_ready {
            Some((hex_add(coords, off@), facing))
        } else {
            None
        },
        MoveAction::MoveRelative(off) => if movement_ready {
            Some((hex_add(coords, hex_rotate_cw(off@, facing)), facing))
        } else {
            None
        },
        MoveAction::Turn(dir) => if rotation_ready {
            Some((coords, (facing + turn_steps_spec(dir as int) % 6) % 6))
        } else {
            None
        },
    }
}

/// Whether applying `action` stays within the coordinates.
pub open spec fn apply_fits(action: MoveAction, coords: (int, int), facing: int) -> bool {
    match action {
        MoveAction::MoveAbsolute(off) => hex_fits(hex_add(coords, off@)),
        MoveAction::MoveRelative(off) => hex_fits(hex_rotate_cw(off@, facing)) && hex_fits(
            hex_add(coords, hex_rotate_cw(off@, facing)),
        ),
        MoveAction::Turn(_) => true,
    }
}

/// Whether `(x, y)` lies within `i32` in all three cube coordinates.
fn fits_wide(x: i64, y: i64) -> (b: bool)
    requires
        -0x1_0000_0000 <= x <= 0x1_0000_0000,
        -0x1_0000_0000 <= y <= 0x1_0000_0000,
    ensures
        b == hex_fits((x as int, y as int)),
{
    -2147483648 <= x && x <= 2147483647 && -2147483648 <= y && y <= 2147483647
        && -2147483648 <= -x - y && -x - y <= 2147483647
}

/// Whether [`apply`] can carry out `action` at `coords` facing `facing`
/// within `i32`: the turned step and the cell it leads to fit.
pub fn move_fits(action: MoveAction, coords: Hex, facing: EdgeDirection) -> (b: bool)
    ensures
        b == apply_fits(action, coords@, facing.spec_index()),
{
    let (cx, cy) = (coords.x as i64, coords.y as i64);
    match action {
        MoveAction::MoveAbsolute(off) => fits_wide(cx + off.x as i64, cy + off.y as i64),
        MoveAction::MoveRelative(off) => {
            let k = facing.index();
            let (x, y) = (off.x as i64, off.y as i64);
            let (rx, ry): (i64, i64) = if k == 1 {
                (-y, x + y)
            } else if k == 2 {
                (-(x + y), x)
            } else if k == 3 {
                (-x, -y)
            } else if k == 4 {
                (y, -(x + y))
            } else if k == 5 {
                (x + y, -x)
            } else {
                (x, y)
            };
            assert((rx as int, ry as int) == hex_rotate_cw(off@, facing.spec_index()));
            fits_wide(rx, ry) && fits_wide(cx + rx, cy + ry)
        },
        MoveAction::Turn(_) => true,
    }
}

/// Carries out `action` for an entity at `coords` facing `facing`, if it
/// is due: `movement_ready` says the movement debt is paid, and
/// `rotation_ready` that the rotation debt is at most zero. Gives the new
/// position and facing, or `None` when the move is not due yet.
pub fn apply(
    action: MoveAction,
    coords: Hex,
    facing: EdgeDirection,
    movement_ready: bool,
    rotation_ready: bool,
) -> (r: Option<(Hex, EdgeDirection)>)
    requires
        apply_fits(action, coords@, facing.spec_index()),
    ensures
        match r {
            Some((c, f)) => apply_spec(action, coords@, facing.spec_index(), movement_ready, rotation_ready)
                == Some((c@, f.spec_index())),
            None => apply_spec(action, coords@, facing.spec_index(), movement_ready, rotation_ready) is None,
        },
{
    match action {
        MoveAction::MoveAbsolute(off) => if movement_ready {
            Some((coords.add(off), facing))
        } else {
            None
        },
        MoveAction::MoveRelative(off) => if movement_ready {
            let turned = off.rotate_cw(facing.index() as u32);
            Some((coords.add(turned), facing))
        } else {
            None
        },
        MoveAction::Turn(dir) => if rotation_ready {
            Some((coords, facing.rotate_cw(turn_steps(dir))))
        } else {
            None
        },
    }
}

/// The direction from the origin towards `h`, as the number that
/// `hexx::Hex::main_direction_to` gives (the first of two on a tie): of
/// the cube differences `y - x`, `z - y` and `x - z`, the first of largest
/// size picks direction 2, 4 or 0, and its being negative turns that
/// direction around.
pub open spec fn main_direction_spec(h: (int, int)) -> int {
    let (x, y, z) = (h.0, h.1, -h.0 - h.1);
    let (a, b, c) = (y - x, z - y, x - z);
    let (aa, ab, ac) = (
        if a < 0 { -a } else { a },
        if b < 0 { -b } else { b },
        if c < 0 { -c } else { c },
    );
    let m0 = if aa >= ab { aa } else { ab };
    let m = if m0 >= ac { m0 } else { ac };
    if m == aa {
        if a < 0 { 5 } else { 2 }
    } else if m == ab {
        if b < 0 { 1 } else { 4 }
    } else {
        if c < 0 { 3 } else { 0 }
    }
}

/// Whether `main_direction_to` computes its cube differences and their
/// absolute values for `h` within `i32`.
pub open spec fn main_direction_ok(h: (int, int)) -> bool {
    let (x, y, z) = (h.0, h.1, -h.0 - h.1);
    let (a, b, c) = (y - x, z - y, x - z);
    &&& hex_fits(h)
    &&& i32::MIN < a <= i32::MAX
    &&& i32::MIN < b <= i32::MAX
    &&& i32::MIN < c <= i32::MAX
}

/// The edge direction of the wedge that holds `h`, seen from the origin,
/// as `hexx::Hex::main_direction_to` finds it.
fn main_direction(h: Hex) -> (d: u8)
    requires
        main_direction_ok(h@),
    ensures
        d == main_direction_spec(h@),
        d < 6,
{
    let (x, y) = (h.x as i64, h.y as i64);
    let z = -x - y;
    let (a, b, c) = (y - x, z - y, x - z);
    let aa = if a < 0 { -a } else { a };
    let ab = if b < 0 { -b } else { b };
    let ac = if c < 0 { -c } else { c };
    let m0 = if aa >= ab { aa } else { ab };
    let m = if m0 >= ac { m0 } else { ac };
    if m == aa {
        if a < 0 { 5 } else { 2 }
    } else if m == ab {
        if b < 0 { 1 } else { 4 }
    } else {
        if c < 0 { 3 } else { 0 }
    }
}

/// How a step in each relative direction is described.
pub open spec fn human_direction(i: int) -> Seq<char> {
    if i == 0 {
        "forward"@
    } else if i == 1 {
        "forward and to your right"@
    } else if i == 2 {
        "backward and to your right"@
    } else if i == 3 {
        "backward"@
    } else if i == 4 {
        "backward and to your left"@
    } else {
        "forward and to your left"@
    }
}

fn human_direction_str(i: u8) -> (s: &'static str)
    requires
        i < 6,
    ensures
        s@ == human_direction(i as int),
{
    if i == 0 {
        "forward"
    } else if i == 1 {
        "forward and to your right"
    } else if i == 2 {
        "backward and to your right"
    } else if i == 3 {
        "backward"
    } else if i == 4 {
        "backward and to your left"
    } else {
        "forward and to your left"
    }
}

/// The line that tells a player a relative move has finished.
pub open spec fn finished_line(action: MoveAction) -> Seq<char> {
    match action {
        MoveAction::Turn(dir) => "You turn "@ + (if dir > 0 {
            "to your right"@
        } else if dir < 0 {
            "to your left"@
        } else {
            "... nowhere? That seems wrong"@
        }) + "."@,
        MoveAction::MoveRelative(c) => "You move "@ + human_direction(
            main_direction_spec(c@),
        ) + "."@,
        MoveAction::MoveAbsolute(_) => Seq::empty(),
    }
}

/// Tells a player that a move, turned relative to the player's facing,
/// has finished.
pub fn finished_message(action: MoveAction, facing: EdgeDirection) -> (line: String)
    requires
        action matches MoveAction::MoveAbsolute(c) ==> hex_fits(
            hex_rotate_cw(c@, opposite(facing.spec_index())),
        ),
        ({
            let rel = match action {
                MoveAction::MoveAbsolute(c) => hex_rotate_cw(c@, opposite(facing.spec_index())),
                MoveAction::MoveRelative(c) => c@,
                MoveAction::Turn(_) => (0int, 0int),
            };
            main_direction_ok(rel)
        }),
    ensures
        line@ == finished_line(match action {
            MoveAction::MoveAbsolute(c) => MoveAction::MoveRelative(
                Hex {
                    x: hex_rotate_cw(c@, opposite(facing.spec_index())).0 as i32,
                    y: hex_rotate_cw(c@, opposite(facing.spec_index())).1 as i32,
                },
            ),
            other => other,
        }),
{
    let rel = action.to_relative(facing);
    let mut out = String::from_str("You ");
    match rel {
        MoveAction::Turn(dir) => {
            out.append("turn ");
            if dir > 0 {
                out.append("to your right");
            } else if dir < 0 {
                out.append("to your left");
            } else {
                out.append("... nowhere? That seems wrong");
            }
        },
        MoveAction::MoveRelative(c) => {
            out.append("move ");
            let d = main_direction(c);
            out.append(human_direction_str(d));
        },
        MoveAction::MoveAbsolute(_) => {},
    }
    out.append(".");
    proof {
        reveal_strlit("You ");
        reveal_strlit("turn ");
        reveal_strlit("move ");
        reveal_strlit("You turn ");
        reveal_strlit("You move ");
        reveal_strlit(".");
        match rel {
            MoveAction::Turn(_) => {
                assert("You "@ + "turn "@ =~= "You turn "@);
            },
            MoveAction::MoveRelative(_) => {
                assert("You "@ + "move "@ =~= "You move "@);
            },
            _ => {},
        }
    }
    assert(out@ =~= finished_line(rel));
    out
}

/// The move that each movement command queues.
pub fn player_action(name: &str) -> (a: Option<MoveAction>)
    ensures
        a == player_action_spec(name@),
{
    let mut i: usize = 0;
    while i < 20
        invariant
            i <= 20,
            first_match(name@, 0) == first_match(name@, i as int),
        decreases 20 - i,
    {
        if crate::names::str_eq(command_name_str(i), name) {
            return Some(action_of(i));
        }
        i = i + 1;
    }
    None
}

fn command_name_str(k: usize) -> (s: &'static str)
    requires
        k < 20,
    ensures
        s@ == command_name(k as int),
{
    if k == 0 { "forward" }
    else if k == 1 { "forwardright" }
    else if k == 2 { "forwardleft" }
    else if k == 3 { "backward" }
    else if k == 4 { "backwardright" }
    else if k == 5 { "backwardleft" }
    else if k == 6 { "right" }
    else if k == 7 { "left" }
    else if k == 8 { "north" }
    else if k == 9 { "northeast" }
    else if k == 10 { "southeast" }
    else if k == 11 { "south" }
    else if k == 12 { "southwest" }
    else if k == 13 { "northwest" }
    else if k == 14 { "n" }
    else if k == 15 { "ne" }
    else if k == 16 { "se" }
    else if k == 17 { "s" }
    else if k == 18 { "sw" }
    else { "nw" }
}

/// The move of the first movement command from `k` on named `name`.
pub open spec fn first_match(name: Seq<char>, k: int) -> Option<MoveAction>
    decreases 20 - k,
{
    if k < 0 || k >= 20 {
        None
    } else if command_name(k) == name {
        Some(command_action(k))
    } else {
        first_match(name, k + 1)
    }
}

/// The name of movement command `k`.
pub open spec fn command_name(k: int) -> Seq<char> {
    if k == 0 { "forward"@ }
    else if k == 1 { "forwardright"@ }
    else if k == 2 { "forwardleft"@ }
    else if k == 3 { "backward"@ }
    else if k == 4 { "backwardright"@ }
    else if k == 5 { "backwardleft"@ }
    else if k == 6 { "right"@ }
    else if k == 7 { "left"@ }
    else if k == 8 { "north"@ }
    else if k == 9 { "northeast"@ }
    else if k == 10 { "southeast"@ }
    else if k == 11 { "south"@ }
    else if k == 12 { "southwest"@ }
    else if k == 13 { "northwest"@ }
    else if k == 14 { "n"@ }
    else if k == 15 { "ne"@ }
    else if k == 16 { "se"@ }
    else if k == 17 { "s"@ }
    else if k == 18 { "sw"@ }
    else { "nw"@ }
}

/// The step one cell in direction `d`, as a coordinate.
pub open spec fn step(d: int) -> Hex {
    Hex { x: neighbor_offset(d).0 as i32, y: neighbor_offset(d).1 as i32 }
}

/// The move of movement command `k`: relative steps forward, forward
/// right, forward left, backward, backward right and backward left; turns
/// right and left; absolute steps north, north-east, south-east, south,
/// south-west and north-west, the last six also by their short names.
pub open spec fn command_action(k: int) -> MoveAction {
    if k == 0 { MoveAction::MoveRelative(step(0)) }
    else if k == 1 { MoveAction::MoveRelative(step(1)) }
    else if k == 2 { MoveAction::MoveRelative(step(5)) }
    else if k == 3 { MoveAction::MoveRelative(step(3)) }
    else if k == 4 { MoveAction::MoveRelative(step(2)) }
    else if k == 5 { MoveAction::MoveRelative(step(4)) }
    else if k == 6 { MoveAction::Turn(1i8) }
    else if k == 7 { MoveAction::Turn(-1i8) }
    else if k == 8 || k == 14 { MoveAction::MoveAbsolute(step(4)) }
    else if k == 9 || k == 15 { MoveAction::MoveAbsolute(step(5)) }
    else if k == 10 || k == 16 { MoveAction::MoveAbsolute(step(0)) }
    else if k == 11 || k == 17 { MoveAction::MoveAbsolute(step(1)) }
    else if k == 12 || k == 18 { MoveAction::MoveAbsolute(step(2)) }
    else { MoveAction::MoveAbsolute(step(3)) }
}

/// The move that the command named `name` queues, if it is a movement
/// command.
pub open spec fn player_action_spec(name: Seq<char>) -> Option<MoveAction> {
    first_match(name, 0)
}

fn action_of(k: usize) -> (a: MoveAction)
    requires
        k < 20,
    ensures
        a == command_action(k as int),
{
    let d: u8 = if k == 0 { 0 } else if k == 1 { 1 } else if k == 2 { 5 } else if k == 3 { 3 }
        else if k == 4 { 2 } else if k == 5 { 4 } else if k == 8 || k == 14 { 4 }
        else if k == 9 || k == 15 { 5 } else if k == 10 || k == 16 { 0 }
        else if k == 11 || k == 17 { 1 } else if k == 12 || k == 18 { 2 } else { 3 };
    let h = EdgeDirection::from_index(d).into_hex();
    if k < 6 {
        MoveAction::MoveRelative(h)
    } else if k == 6 {
        MoveAction::Turn(1)
    } else if k == 7 {
        MoveAction::Turn(-1)
    } else {
        MoveAction::MoveAbsolute(h)
    }
}

/// A due turn by `d` sixths turns the facing `d` sixths clockwise (to
/// the right for positive `d`, to the left for negative `d`), and leaves
/// the position: facing `f` becomes `(f + d) mod 6`. A turn that is not
/// due changes nothing.
pub proof fn lemma_turn_turns_by_its_amount(d: i8, coords: (int, int), f: int, movement_ready: bool)
    requires
        0 <= f < 6,
    ensures
        apply_spec(MoveAction::Turn(d), coords, f, movement_ready, true) == Some((coords, (f + d) % 6)),
        apply_spec(MoveAction::Turn(d), coords, f, movement_ready, false) is None,
{
    let t = turn_steps_spec(d as int);
    assert(t % 6 == (d as int) % 6) by {
        if d < 0 {
            vstd::arithmetic::div_mod::lemma_mod_bound(d as int, 6);
            vstd::arithmetic::div_mod::lemma_small_mod(((d as int) % 6) as nat, 6);
        }
    }
    vstd::arithmetic::div_mod::lemma_add_mod_noop(f, t, 6);
    vstd::arithmetic::div_mod::lemma_add_mod_noop(f, d as int, 6);
    vstd::arithmetic::div_mod::lemma_small_mod(f as nat, 6);
}

/// The step that a movement command queues, if it is a step.
pub open spec fn command_step(name: Seq<char>) -> Option<(bool, (int, int))> {
    match player_action_spec(name) {
        Some(MoveAction::MoveRelative(h)) => Some((true, h@)),
        Some(MoveAction::MoveAbsolute(h)) => Some((false, h@)),
        _ => None,
    }
}

/// A command whose name differs from `name` is passed over.
proof fn lemma_first_match_skip(name: Seq<char>, j: int)
    requires
        0 <= j < 20,
        command_name(j) != name,
    ensures
        first_match(name, j) == first_match(name, j + 1),
{
}

/// The command names differ, so each name finds its own command.
proof fn lemma_name_found(k: int)
    requires
        0 <= k < 20,
    ensures
        player_action_spec(command_name(k)) == Some(command_action(k)),
{
    if k == 0 {

    } else if k == 1 {
        assert(command_name(0) != command_name(1)) by {
            reveal_strlit("forward");
            reveal_strlit("forwardright");
            assert(command_name(0).len() != command_name(1).len());
        }
        lemma_first_match_skip(command_name(1), 0);
    } else if k == 2 {
        assert(command_name(0) != command_name(2)) by {
            reveal_strlit("forward");
            reveal_strlit("forwardleft");
            assert(command_name(0).len() != command_name(2).len());
        }
        lemma_first_match_skip(command_name(2), 0);
        assert(command_name(1) != command_name(2)) by {
            reveal_strlit("forwardright");
            reveal_strlit("forwardleft");
            assert(command_name(1).len() != command_name(2).len());
        }
        lemma_first_match_skip(command_name(2), 1);
    } else if k == 3 {
        assert(command_name(0) != command_name(3)) by {
            reveal_strlit("forward");
            reveal_strlit("backward");
            assert(command_name(0).len() != command_name(3).len());
        }
        lemma_first_match_skip(command_name(3), 0);
        assert(command_name(1) != command_name(3)) by {
            reveal_strlit("forwardright");
            reveal_strlit("backward");
            assert(command_name(1).len() != command_name(3).len());
        }
        lemma_first_match_skip(command_name(3), 1);
        assert(command_name(2) != command_name(3)) by {
            reveal_strlit("forwardleft");
            reveal_strlit("backward");
            assert(command_name(2).len() != command_name(3).len());
        }
        lemma_first_match_skip(command_name(3), 2);
    } else if k == 4 {
        assert(command_name(0) != command_name(4)) by {
            reveal_strlit("forward");
            reveal_strlit("backwardright");
            assert(command_name(0).len() != command_name(4).len());
        }
        lemma_first_match_skip(command_name(4), 0);
        assert(command_name(1) != command_name(4)) by {
            reveal_strlit("forwardright");
            reveal_strlit("backwardright");
            assert(command_name(1).len() != command_name(4).len());
        }
        lemma_first_match_skip(command_name(4), 1);
        assert(command_name(2) != command_name(4)) by {
            reveal_strlit("forwardleft");
            reveal_strlit("backwardright");
            assert(command_name(2).len() != command_name(4).len());
        }
        lemma_first_match_skip(command_name(4), 2);
        assert(command_name(3) != command_name(4)) by {
            reveal_strlit("backward");
            reveal_strlit("backwardright");
            assert(command_name(3).len() != command_name(4).len());
        }
        lemma_first_match_skip(command_name(4), 3);
    } else if k == 5 {
        assert(command_name(0) != command_name(5)) by {
            reveal_strlit("forward");
            reveal_strlit("backwardleft");
            assert(command_name(0).len() != command_name(5).len());
        }
        lemma_first_match_skip(command_name(5), 0);
        assert(command_name(1) != command_name(5)) by {
            reveal_strlit("forwardright");
            reveal_strlit("backwardleft");
            assert(command_name(1)[0] != command_name(5)[0]);
        }
        lemma_first_match_skip(command_name(5), 1);
        assert(command_name(2) != command_name(5)) by {
            reveal_strlit("forwardleft");
            reveal_strlit("backwardleft");
            assert(command_name(2).len() != command_name(5).len());
        }
        lemma_first_match_skip(command_name(5), 2);
        assert(command_name(3) != command_name(5)) by {
            reveal_strlit("backward");
            reveal_strlit("backwardleft");
            assert(command_name(3).len() != command_name(5).len());
        }
        lemma_first_match_skip(command_name(5), 3);
        assert(command_name(4) != command_name(5)) by {
            reveal_strlit("backwardright");
            reveal_strlit("backwardleft");
            assert(command_name(4).len() != command_name(5).len());
        }
        lemma_first_match_skip(command_name(5), 4);
    } else if k == 6 {
        assert(command_name(0) != command_name(6)) by {
            reveal_strlit("forward");
            reveal_strlit("right");
            assert(command_name(0).len() != command_name(6).len());
        }
        lemma_first_match_skip(command_name(6), 0);
        assert(command_name(1) != command_name(6)) by {
            reveal_strlit("forwardright");
            reveal_strlit("right");
            assert(command_name(1).len() != command_name(6).len());
        }
        lemma_first_match_skip(command_name(6), 1);
        assert(command_name(2) != command_name(6)) by {
            reveal_strlit("forwardleft");
            reveal_strlit("right");
            assert(command_name(2).len() != command_name(6).len());
        }
        lemma_first_match_skip(command_name(6), 2);
        assert(command_name(3) != command_name(6)) by {
            reveal_strlit("backward");
            reveal_strlit("right");
            assert(command_name(3).len() != command_name(6).len());
        }
        lemma_first_match_skip(command_name(6), 3);
        assert(command_name(4) != command_name(6)) by {
            reveal_strlit("backwardright");
            reveal_strlit("right");
            assert(command_name(4).len() != command_name(6).len());
        }
        lemma_first_match_skip(command_name(6), 4);
        assert(command_name(5) != command_name(6)) by {
            reveal_strlit("backwardleft");
            reveal_strlit("right");
            assert(command_name(5).len() != command_name(6).len());
        }
        lemma_first_match_skip(command_name(6), 5);
    } else if k == 7 {
        assert(command_name(0) != command_name(7)) by {
            reveal_strlit("forward");
            reveal_strlit("left");
            assert(command_name(0).len() != command_name(7).len());
        }
        lemma_first_match_skip(command_name(7), 0);
        assert(command_name(1) != command_name(7)) by {
            reveal_strlit("forwardright");
            reveal_strlit("left");
            assert(command_name(1).len() != command_name(7).len());
        }
        lemma_first_match_skip(command_name(7), 1);
        assert(command_name(2) != command_name(7)) by {
            reveal_strlit("forwardleft");
            reveal_strlit("left");
            assert(command_name(2).len() != command_name(7).len());
        }
        lemma_first_match_skip(command_name(7), 2);
        assert(command_name(3) != command_name(7)) by {
            reveal_strlit("backward");
            reveal_strlit("left");
            assert(command_name(3).len() != command_name(7).len());
        }
        lemma_first_match_skip(command_name(7), 3);
        assert(command_name(4) != command_name(7)) by {
            reveal_strlit("backwardright");
            reveal_strlit("left");
            assert(command_name(4).len() != command_name(7).len());
        }
        lemma_first_match_skip(command_name(7), 4);
        assert(command_name(5) != command_name(7)) by {
            reveal_strlit("backwardleft");
            reveal_strlit("left");
            assert(command_name(5).len() != command_name(7).len());
        }
        lemma_first_match_skip(command_name(7), 5);
        assert(command_name(6) != command_name(7)) by {
            reveal_strlit("right");
            reveal_strlit("left");
            assert(command_name(6).len() != command_name(7).len());
        }
        lemma_first_match_skip(command_name(7), 6);
    } else if k == 8 {
        assert(command_name(0) != command_name(8)) by {
            reveal_strlit("forward");
            reveal_strlit("north");
            assert(command_name(0).len() != command_name(8).len());
        }
        lemma_first_match_skip(command_name(8), 0);
        assert(command_name(1) != command_name(8)) by {
            reveal_strlit("forwardright");
            reveal_strlit("north");
            assert(command_name(1).len() != command_name(8).len());
        }
        lemma_first_match_skip(command_name(8), 1);
        assert(command_name(2) != command_name(8)) by {
            reveal_strlit("forwardleft");
            reveal_strlit("north");
            assert(command_name(2).len() != command_name(8).len());
        }
        lemma_first_match_skip(command_name(8), 2);
        assert(command_name(3) != command_name(8)) by {
            reveal_strlit("backward");
            reveal_strlit("north");
            assert(command_name(3).len() != command_name(8).len());
        }
        lemma_first_match_skip(command_name(8), 3);
        assert(command_name(4) != command_name(8)) by {
            reveal_strlit("backwardright");
            reveal_strlit("north");
            assert(command_name(4).len() != command_name(8).len());
        }
        lemma_first_match_skip(command_name(8), 4);
        assert(command_name(5) != command_name(8)) by {
            reveal_strlit("backwardleft");
            reveal_strlit("north");
            assert(command_name(5).len() != command_name(8).len());
        }
        lemma_first_match_skip(command_name(8), 5);
        assert(command_name(6) != command_name(8)) by {
            reveal_strlit("right");
            reveal_strlit("north");
            assert(command_name(6)[0] != command_name(8)[0]);
        }
        lemma_first_match_skip(command_name(8), 6);
        assert(command_name(7) != command_name(8)) by {
            reveal_strlit("left");
            reveal_strlit("north");
            assert(command_name(7).len() != command_name(8).len());
        }
        lemma_first_match_skip(command_name(8), 7);
    } else if k == 9 {
        assert(command_name(0) != command_name(9)) by {
            reveal_strlit("forward");
            reveal_strlit("northeast");
            assert(command_name(0).len() != command_name(9).len());
        }
        lemma_first_match_skip(command_name(9), 0);
        assert(command_name(1) != command_name(9)) by {
            reveal_strlit("forwardright");
            reveal_strlit("northeast");
            assert(command_name(1).len() != command_name(9).len());
        }
        lemma_first_match_skip(command_name(9), 1);
        assert(command_name(2) != command_name(9)) by {
            reveal_strlit("forwardleft");
            reveal_strlit("northeast");
            assert(command_name(2).len() != command_name(9).len());
        }
        lemma_first_match_skip(command_name(9), 2);
        assert(command_name(3) != command_name(9)) by {
            reveal_strlit("backward");
            reveal_strlit("northeast");
            assert(command_name(3).len() != command_name(9).len());
        }
        lemma_first_match_skip(command_name(9), 3);
        assert(command_name(4) != command_name(9)) by {
            reveal_strlit("backwardright");
            reveal_strlit("northeast");
            assert(command_name(4).len() != command_name(9).len());
        }
        lemma_first_match_skip(command_name(9), 4);
        assert(command_name(5) != command_name(9)) by {
            reveal_strlit("backwardleft");
            reveal_strlit("northeast");
            assert(command_name(5).len() != command_name(9).len());
        }
        lemma_first_match_skip(command_name(9), 5);
        assert(command_name(6) != command_name(9)) by {
            reveal_strlit("right");
            reveal_strlit("northeast");
            assert(command_name(6).len() != command_name(9).len());
        }
        lemma_first_match_skip(command_name(9), 6);
        assert(command_name(7) != command_name(9)) by {
            reveal_strlit("left");
            reveal_strlit("northeast");
            assert(command_name(7).len() != command_name(9).len());
        }
        lemma_first_match_skip(command_name(9), 7);
        assert(command_name(8) != command_name(9)) by {
            reveal_strlit("north");
            reveal_strlit("northeast");
            assert(command_name(8).len() != command_name(9).len());
        }
        lemma_first_match_skip(command_name(9), 8);
    } else if k == 10 {
        assert(command_name(0) != command_name(10)) by {
            reveal_strlit("forward");
            reveal_strlit("southeast");
            assert(command_name(0).len() != command_name(10).len());
        }
        lemma_first_match_skip(command_name(10), 0);
        assert(command_name(1) != command_name(10)) by {
            reveal_strlit("forwardright");
            reveal_strlit("southeast");
            assert(command_name(1).len() != command_name(10).len());
        }
        lemma_first_match_skip(command_name(10), 1);
        assert(command_name(2) != command_name(10)) by {
            reveal_strlit("forwardleft");
            reveal_strlit("southeast");
            assert(command_name(2).len() != command_name(10).len());
        }
        lemma_first_match_skip(command_name(10), 2);
        assert(command_name(3) != command_name(10)) by {
            reveal_strlit("backward");
            reveal_strlit("southeast");
            assert(command_name(3).len() != command_name(10).len());
        }
        lemma_first_match_skip(command_name(10), 3);
        assert(command_name(4) != command_name(10)) by {
            reveal_strlit("backwardright");
            reveal_strlit("southeast");
            assert(command_name(4).len() != command_name(10).len());
        }
        lemma_first_match_skip(command_name(10), 4);
        assert(command_name(5) != command_name(10)) by {
            reveal_strlit("backwardleft");
            reveal_strlit("southeast");
            assert(command_name(5).len() != command_name(10).len());
        }
        lemma_first_match_skip(command_name(10), 5);
        assert(command_name(6) != command_name(10)) by {
            reveal_strlit("right");
            reveal_strlit("southeast");
            assert(command_name(6).len() != command_name(10).len());
        }
        lemma_first_match_skip(command_name(10), 6);
        assert(command_name(7) != command_name(10)) by {
            reveal_strlit("left");
            reveal_strlit("southeast");
            assert(command_name(7).len() != command_name(10).len());
        }
        lemma_first_match_skip(command_name(10), 7);
        assert(command_name(8) != command_name(10)) by {
            reveal_strlit("north");
            reveal_strlit("southeast");
            assert(command_name(8).len() != command_name(10).len());
        }
        lemma_first_match_skip(command_name(10), 8);
        assert(command_name(9) != command_name(10)) by {
            reveal_strlit("northeast");
            reveal_strlit("southeast");
            assert(command_name(9)[0] != command_name(10)[0]);
        }
        lemma_first_match_skip(command_name(10), 9);
    } else if k == 11 {
        assert(command_name(0) != command_name(11)) by {
            reveal_strlit("forward");
            reveal_strlit("south");
            assert(command_name(0).len() != command_name(11).len());
        }
        lemma_first_match_skip(command_name(11), 0);
        assert(command_name(1) != command_name(11)) by {
            reveal_strlit("forwardright");
            reveal_strlit("south");
            assert(command_name(1).len() != command_name(11).len());
        }
        lemma_first_match_skip(command_name(11), 1);
        assert(command_name(2) != command_name(11)) by {
            reveal_strlit("forwardleft");
            reveal_strlit("south");
            assert(command_name(2).len() != command_name(11).len());
        }
        lemma_first_match_skip(command_name(11), 2);
        assert(command_name(3) != command_name(11)) by {
            reveal_strlit("backward");
            reveal_strlit("south");
            assert(command_name(3).len() != command_name(11).len());
        }
        lemma_first_match_skip(command_name(11), 3);
        assert(command_name(4) != command_name(11)) by {
            reveal_strlit("backwardright");
            reveal_strlit("south");
            assert(command_name(4).len() != command_name(11).len());
        }
        lemma_first_match_skip(command_name(11), 4);
        assert(command_name(5) != command_name(11)) by {
            reveal_strlit("backwardleft");
            reveal_strlit("south");
            assert(command_name(5).len() != command_name(11).len());
        }
        lemma_first_match_skip(command_name(11), 5);
        assert(command_name(6) != command_name(11)) by {
            reveal_strlit("right");
            reveal_strlit("south");
            assert(command_name(6)[0] != command_name(11)[0]);
        }
        lemma_first_match_skip(command_name(11), 6);
        assert(command_name(7) != command_name(11)) by {
            reveal_strlit("left");
            reveal_strlit("south");
            assert(command_name(7).len() != command_name(11).len());
        }
        lemma_first_match_skip(command_name(11), 7);
        assert(command_name(8) != command_name(11)) by {
            reveal_strlit("north");
            reveal_strlit("south");
            assert(command_name(8)[0] != command_name(11)[0]);
        }
        lemma_first_match_skip(command_name(11), 8);
        assert(command_name(9) != command_name(11)) by {
            reveal_strlit("northeast");
            reveal_strlit("south");
            assert(command_name(9).len() != command_name(11).len());
        }
        lemma_first_match_skip(command_name(11), 9);
        assert(command_name(10) != command_name(11)) by {
            reveal_strlit("southeast");
            reveal_strlit("south");
            assert(command_name(10).len() != command_name(11).len());
        }
        lemma_first_match_skip(command_name(11), 10);
    } else if k == 12 {
        assert(command_name(0) != command_name(12)) by {
            reveal_strlit("forward");
            reveal_strlit("southwest");
            assert(command_name(0).len() != command_name(12).len());
        }
        lemma_first_match_skip(command_name(12), 0);
        assert(command_name(1) != command_name(12)) by {
            reveal_strlit("forwardright");
            reveal_strlit("southwest");
            assert(command_name(1).len() != command_name(12).len());
        }
        lemma_first_match_skip(command_name(12), 1);
        assert(command_name(2) != command_name(12)) by {
            reveal_strlit("forwardleft");
            reveal_strlit("southwest");
            assert(command_name(2).len() != command_name(12).len());
        }
        lemma_first_match_skip(command_name(12), 2);
        assert(command_name(3) != command_name(12)) by {
            reveal_strlit("backward");
            reveal_strlit("southwest");
            assert(command_name(3).len() != command_name(12).len());
        }
        lemma_first_match_skip(command_name(12), 3);
        assert(command_name(4) != command_name(12)) by {
            reveal_strlit("backwardright");
            reveal_strlit("southwest");
            assert(command_name(4).len() != command_name(12).len());
        }
        lemma_first_match_skip(command_name(12), 4);
        assert(command_name(5) != command_name(12)) by {
            reveal_strlit("backwardleft");
            reveal_strlit("southwest");
            assert(command_name(5).len() != command_name(12).len());
        }
        lemma_first_match_skip(command_name(12), 5);
        assert(command_name(6) != command_name(12)) by {
            reveal_strlit("right");
            reveal_strlit("southwest");
            assert(command_name(6).len() != command_name(12).len());
        }
        lemma_first_match_skip(command_name(12), 6);
        assert(command_name(7) != command_name(12)) by {
            reveal_strlit("left");
            reveal_strlit("southwest");
            assert(command_name(7).len() != command_name(12).len());
        }
        lemma_first_match_skip(command_name(12), 7);
        assert(command_name(8) != command_name(12)) by {
            reveal_strlit("north");
            reveal_strlit("southwest");
            assert(command_name(8).len() != command_name(12).len());
        }
        lemma_first_match_skip(command_name(12), 8);
        assert(command_name(9) != command_name(12)) by {
            reveal_strlit("northeast");
            reveal_strlit("southwest");
            assert(command_name(9)[0] != command_name(12)[0]);
        }
        lemma_first_match_skip(command_name(12), 9);
        assert(command_name(10) != command_name(12)) by {
            reveal_strlit("southeast");
            reveal_strlit("southwest");
            assert(command_name(10)[5] != command_name(12)[5]);
        }
        lemma_first_match_skip(command_name(12), 10);
        assert(command_name(11) != command_name(12)) by {
            reveal_strlit("south");
            reveal_strlit("southwest");
            assert(command_name(11).len() != command_name(12).len());
        }
        lemma_first_match_skip(command_name(12), 11);
    } else if k == 13 {
        assert(command_name(0) != command_name(13)) by {
            reveal_strlit("forward");
            reveal_strlit("northwest");
            assert(command_name(0).len() != command_name(13).len());
        }
        lemma_first_match_skip(command_name(13), 0);
        assert(command_name(1) != command_name(13)) by {
            reveal_strlit("forwardright");
            reveal_strlit("northwest");
            assert(command_name(1).len() != command_name(13).len());
        }
        lemma_first_match_skip(command_name(13), 1);
        assert(command_name(2) != command_name(13)) by {
            reveal_strlit("forwardleft");
            reveal_strlit("northwest");
            assert(command_name(2).len() != command_name(13).len());
        }
        lemma_first_match_skip(command_name(13), 2);
        assert(command_name(3) != command_name(13)) by {
            reveal_strlit("backward");
            reveal_strlit("northwest");
            assert(command_name(3).len() != command_name(13).len());
        }
        lemma_first_match_skip(command_name(13), 3);
        assert(command_name(4) != command_name(13)) by {
            reveal_strlit("backwardright");
            reveal_strlit("northwest");
            assert(command_name(4).len() != command_name(13).len());
        }
        lemma_first_match_skip(command_name(13), 4);
        assert(command_name(5) != command_name(13)) by {
            reveal_strlit("backwardleft");
            reveal_strlit("northwest");
            assert(command_name(5).len() != command_name(13).len());
        }
        lemma_first_match_skip(command_name(13), 5);
        assert(command_name(6) != command_name(13)) by {
            reveal_strlit("right");
            reveal_strlit("northwest");
            assert(command_name(6).len() != command_name(13).len());
        }
        lemma_first_match_skip(command_name(13), 6);
        assert(command_name(7) != command_name(13)) by {
            reveal_strlit("left");
            reveal_strlit("northwest");
            assert(command_name(7).len() != command_name(13).len());
        }
        lemma_first_match_skip(command_name(13), 7);
        assert(command_name(8) != command_name(13)) by {
            reveal_strlit("north");
            reveal_strlit("northwest");
            assert(command_name(8).len() != command_name(13).len());
        }
        lemma_first_match_skip(command_name(13), 8);
        assert(command_name(9) != command_name(13)) by {
            reveal_strlit("northeast");
            reveal_strlit("northwest");
            assert(command_name(9)[5] != command_name(13)[5]);
        }
        lemma_first_match_skip(command_name(13), 9);
        assert(command_name(10) != command_name(13)) by {
            reveal_strlit("southeast");
            reveal_strlit("northwest");
            assert(command_name(10)[0] != command_name(13)[0]);
        }
        lemma_first_match_skip(command_name(13), 10);
        assert(command_name(11) != command_name(13)) by {
            reveal_strlit("south");
            reveal_strlit("northwest");
            assert(command_name(11).len() != command_name(13).len());
        }
        lemma_first_match_skip(command_name(13), 11);
        assert(command_name(12) != command_name(13)) by {
            reveal_strlit("southwest");
            reveal_strlit("northwest");
            assert(command_name(12)[0] != command_name(13)[0]);
        }
        lemma_first_match_skip(command_name(13), 12);
    } else if k == 14 {
        assert(command_name(0) != command_name(14)) by {
            reveal_strlit("forward");
            reveal_strlit("n");
            assert(command_name(0).len() != command_name(14).len());
        }
        lemma_first_match_skip(command_name(14), 0);
        assert(command_name(1) != command_name(14)) by {
            reveal_strlit("forwardright");
            reveal_strlit("n");
            assert(command_name(1).len() != command_name(14).len());
        }
        lemma_first_match_skip(command_name(14), 1);
        assert(command_name(2) != command_name(14)) by {
            reveal_strlit("forwardleft");
            reveal_strlit("n");
            assert(command_name(2).len() != command_name(14).len());
        }
        lemma_first_match_skip(command_name(14), 2);
        assert(command_name(3) != command_name(14)) by {
            reveal_strlit("backward");
            reveal_strlit("n");
            assert(command_name(3).len() != command_name(14).len());
        }
        lemma_first_match_skip(command_name(14), 3);
        assert(command_name(4) != command_name(14)) by {
            reveal_strlit("backwardright");
            reveal_strlit("n");
            assert(command_name(4).len() != command_name(14).len());
        }
        lemma_first_match_skip(command_name(14), 4);
        assert(command_name(5) != command_name(14)) by {
            reveal_strlit("backwardleft");
            reveal_strlit("n");
            assert(command_name(5).len() != command_name(14).len());
        }
        lemma_first_match_skip(command_name(14), 5);
        assert(command_name(6) != command_name(14)) by {
            reveal_strlit("right");
            reveal_strlit("n");
            assert(command_name(6).len() != command_name(14).len());
        }
        lemma_first_match_skip(command_name(14), 6);
        assert(command_name(7) != command_name(14)) by {
            reveal_strlit("left");
            reveal_strlit("n");
            assert(command_name(7).len() != command_name(14).len());
        }
        lemma_first_match_skip(command_name(14), 7);
        assert(command_name(8) != command_name(14)) by {
            reveal_strlit("north");
            reveal_strlit("n");
            assert(command_name(8).len() != command_name(14).len());
        }
        lemma_first_match_skip(command_name(14), 8);
        assert(command_name(9) != command_name(14)) by {
            reveal_strlit("northeast");
            reveal_strlit("n");
            assert(command_name(9).len() != command_name(14).len());
        }
        lemma_first_match_skip(command_name(14), 9);
        assert(command_name(10) != command_name(14)) by {
            reveal_strlit("southeast");
            reveal_strlit("n");
            assert(command_name(10).len() != command_name(14).len());
        }
        lemma_first_match_skip(command_name(14), 10);
        assert(command_name(11) != command_name(14)) by {
            reveal_strlit("south");
            reveal_strlit("n");
            assert(command_name(11).len() != command_name(14).len());
        }
        lemma_first_match_skip(command_name(14), 11);
        assert(command_name(12) != command_name(14)) by {
            reveal_strlit("southwest");
            reveal_strlit("n");
            assert(command_name(12).len() != command_name(14).len());
        }
        lemma_first_match_skip(command_name(14), 12);
        assert(command_name(13) != command_name(14)) by {
            reveal_strlit("northwest");
            reveal_strlit("n");
            assert(command_name(13).len() != command_name(14).len());
        }
        lemma_first_match_skip(command_name(14), 13);
    } else if k == 15 {
        assert(command_name(0) != command_name(15)) by {
            reveal_strlit("forward");
            reveal_strlit("ne");
            assert(command_name(0).len() != command_name(15).len());
        }
        lemma_first_match_skip(command_name(15), 0);
        assert(command_name(1) != command_name(15)) by {
            reveal_strlit("forwardright");
            reveal_strlit("ne");
            assert(command_name(1).len() != command_name(15).len());
        }
        lemma_first_match_skip(command_name(15), 1);
        assert(command_name(2) != command_name(15)) by {
            reveal_strlit("forwardleft");
            reveal_strlit("ne");
            assert(command_name(2).len() != command_name(15).len());
        }
        lemma_first_match_skip(command_name(15), 2);
        assert(command_name(3) != command_name(15)) by {
            reveal_strlit("backward");
            reveal_strlit("ne");
            assert(command_name(3).len() != command_name(15).len());
        }
        lemma_first_match_skip(command_name(15), 3);
        assert(command_name(4) != command_name(15)) by {
            reveal_strlit("backwardright");
            reveal_strlit("ne");
            assert(command_name(4).len() != command_name(15).len());
        }
        lemma_first_match_skip(command_name(15), 4);
        assert(command_name(5) != command_name(15)) by {
            reveal_strlit("backwardleft");
            reveal_strlit("ne");
            assert(command_name(5).len() != command_name(15).len());
        }
        lemma_first_match_skip(command_name(15), 5);
        assert(command_name(6) != command_name(15)) by {
            reveal_strlit("right");
            reveal_strlit("ne");
            assert(command_name(6).len() != command_name(15).len());
        }
        lemma_first_match_skip(command_name(15), 6);
        assert(command_name(7) != command_name(15)) by {
            reveal_strlit("left");
            reveal_strlit("ne");
            assert(command_name(7).len() != command_name(15).len());
        }
        lemma_first_match_skip(command_name(15), 7);
        assert(command_name(8) != command_name(15)) by {
            reveal_strlit("north");
            reveal_strlit("ne");
            assert(command_name(8).len() != command_name(15).len());
        }
        lemma_first_match_skip(command_name(15), 8);
        assert(command_name(9) != command_name(15)) by {
            reveal_strlit("northeast");
            reveal_strlit("ne");
            assert(command_name(9).len() != command_name(15).len());
        }
        lemma_first_match_skip(command_name(15), 9);
        assert(command_name(10) != command_name(15)) by {
            reveal_strlit("southeast");
            reveal_strlit("ne");
            assert(command_name(10).len() != command_name(15).len());
        }
        lemma_first_match_skip(command_name(15), 10);
        assert(command_name(11) != command_name(15)) by {
            reveal_strlit("south");
            reveal_strlit("ne");
            assert(command_name(11).len() != command_name(15).len());
        }
        lemma_first_match_skip(command_name(15), 11);
        assert(command_name(12) != command_name(15)) by {
            reveal_strlit("southwest");
            reveal_strlit("ne");
            assert(command_name(12).len() != command_name(15).len());
        }
        lemma_first_match_skip(command_name(15), 12);
        assert(command_name(13) != command_name(15)) by {
            reveal_strlit("northwest");
            reveal_strlit("ne");
            assert(command_name(13).len() != command_name(15).len());
        }
        lemma_first_match_skip(command_name(15), 13);
        assert(command_name(14) != command_name(15)) by {
            reveal_strlit("n");
            reveal_strlit("ne");
            assert(command_name(14).len() != command_name(15).len());
        }
        lemma_first_match_skip(command_name(15), 14);
    } else if k == 16 {
        assert(command_name(0) != command_name(16)) by {
            reveal_strlit("forward");
            reveal_strlit("se");
            assert(command_name(0).len() != command_name(16).len());
        }
        lemma_first_match_skip(command_name(16), 0);
        assert(command_name(1) != command_name(16)) by {
            reveal_strlit("forwardright");
            reveal_strlit("se");
            assert(command_name(1).len() != command_name(16).len());
        }
        lemma_first_match_skip(command_name(16), 1);
        assert(command_name(2) != command_name(16)) by {
            reveal_strlit("forwardleft");
            reveal_strlit("se");
            assert(command_name(2).len() != command_name(16).len());
        }
        lemma_first_match_skip(command_name(16), 2);
        assert(command_name(3) != command_name(16)) by {
            reveal_strlit("backward");
            reveal_strlit("se");
            assert(command_name(3).len() != command_name(16).len());
        }
        lemma_first_match_skip(command_name(16), 3);
        assert(command_name(4) != command_name(16)) by {
            reveal_strlit("backwardright");
            reveal_strlit("se");
            assert(command_name(4).len() != command_name(16).len());
        }
        lemma_first_match_skip(command_name(16), 4);
        assert(command_name(5) != command_name(16)) by {
            reveal_strlit("backwardleft");
            reveal_strlit("se");
            assert(command_name(5).len() != command_name(16).len());
        }
        lemma_first_match_skip(command_name(16), 5);
        assert(command_name(6) != command_name(16)) by {
            reveal_strlit("right");
            reveal_strlit("se");
            assert(command_name(6).len() != command_name(16).len());
        }
        lemma_first_match_skip(command_name(16), 6);
        assert(command_name(7) != command_name(16)) by {
            reveal_strlit("left");
            reveal_strlit("se");
            assert(command_name(7).len() != command_name(16).len());
        }
        lemma_first_match_skip(command_name(16), 7);
        assert(command_name(8) != command_name(16)) by {
            reveal_strlit("north");
            reveal_strlit("se");
            assert(command_name(8).len() != command_name(16).len());
        }
        lemma_first_match_skip(command_name(16), 8);
        assert(command_name(9) != command_name(16)) by {
            reveal_strlit("northeast");
            reveal_strlit("se");
            assert(command_name(9).len() != command_name(16).len());
        }
        lemma_first_match_skip(command_name(16), 9);
        assert(command_name(10) != command_name(16)) by {
            reveal_strlit("southeast");
            reveal_strlit("se");
            assert(command_name(10).len() != command_name(16).len());
        }
        lemma_first_match_skip(command_name(16), 10);
        assert(command_name(11) != command_name(16)) by {
            reveal_strlit("south");
            reveal_strlit("se");
            assert(command_name(11).len() != command_name(16).len());
        }
        lemma_first_match_skip(command_name(16), 11);
        assert(command_name(12) != command_name(16)) by {
            reveal_strlit("southwest");
            reveal_strlit("se");
            assert(command_name(12).len() != command_name(16).len());
        }
        lemma_first_match_skip(command_name(16), 12);
        assert(command_name(13) != command_name(16)) by {
            reveal_strlit("northwest");
            reveal_strlit("se");
            assert(command_name(13).len() != command_name(16).len());
        }
        lemma_first_match_skip(command_name(16), 13);
        assert(command_name(14) != command_name(16)) by {
            reveal_strlit("n");
            reveal_strlit("se");
            assert(command_name(14).len() != command_name(16).len());
        }
        lemma_first_match_skip(command_name(16), 14);
        assert(command_name(15) != command_name(16)) by {
            reveal_strlit("ne");
            reveal_strlit("se");
            assert(command_name(15)[0] != command_name(16)[0]);
        }
        lemma_first_match_skip(command_name(16), 15);
    } else if k == 17 {
        assert(command_name(0) != command_name(17)) by {
            reveal_strlit("forward");
            reveal_strlit("s");
            assert(command_name(0).len() != command_name(17).len());
        }
        lemma_first_match_skip(command_name(17), 0);
        assert(command_name(1) != command_name(17)) by {
            reveal_strlit("forwardright");
            reveal_strlit("s");
            assert(command_name(1).len() != command_name(17).len());
        }
        lemma_first_match_skip(command_name(17), 1);
        assert(command_name(2) != command_name(17)) by {
            reveal_strlit("forwardleft");
            reveal_strlit("s");
            assert(command_name(2).len() != command_name(17).len());
        }
        lemma_first_match_skip(command_name(17), 2);
        assert(command_name(3) != command_name(17)) by {
            reveal_strlit("backward");
            reveal_strlit("s");
            assert(command_name(3).len() != command_name(17).len());
        }
        lemma_first_match_skip(command_name(17), 3);
        assert(command_name(4) != command_name(17)) by {
            reveal_strlit("backwardright");
            reveal_strlit("s");
            assert(command_name(4).len() != command_name(17).len());
        }
        lemma_first_match_skip(command_name(17), 4);
        assert(command_name(5) != command_name(17)) by {
            reveal_strlit("backwardleft");
            reveal_strlit("s");
            assert(command_name(5).len() != command_name(17).len());
        }
        lemma_first_match_skip(command_name(17), 5);
        assert(command_name(6) != command_name(17)) by {
            reveal_strlit("right");
            reveal_strlit("s");
            assert(command_name(6).len() != command_name(17).len());
        }
        lemma_first_match_skip(command_name(17), 6);
        assert(command_name(7) != command_name(17)) by {
            reveal_strlit("left");
            reveal_strlit("s");
            assert(command_name(7).len() != command_name(17).len());
        }
        lemma_first_match_skip(command_name(17), 7);
        assert(command_name(8) != command_name(17)) by {
            reveal_strlit("north");
            reveal_strlit("s");
            assert(command_name(8).len() != command_name(17).len());
        }
        lemma_first_match_skip(command_name(17), 8);
        assert(command_name(9) != command_name(17)) by {
            reveal_strlit("northeast");
            reveal_strlit("s");
            assert(command_name(9).len() != command_name(17).len());
        }
        lemma_first_match_skip(command_name(17), 9);
        assert(command_name(10) != command_name(17)) by {
            reveal_strlit("southeast");
            reveal_strlit("s");
            assert(command_name(10).len() != command_name(17).len());
        }
        lemma_first_match_skip(command_name(17), 10);
        assert(command_name(11) != command_name(17)) by {
            reveal_strlit("south");
            reveal_strlit("s");
            assert(command_name(11).len() != command_name(17).len());
        }
        lemma_first_match_skip(command_name(17), 11);
        assert(command_name(12) != command_name(17)) by {
            reveal_strlit("southwest");
            reveal_strlit("s");
            assert(command_name(12).len() != command_name(17).len());
        }
        lemma_first_match_skip(command_name(17), 12);
        assert(command_name(13) != command_name(17)) by {
            reveal_strlit("northwest");
            reveal_strlit("s");
            assert(command_name(13).len() != command_name(17).len());
        }
        lemma_first_match_skip(command_name(17), 13);
        assert(command_name(14) != command_name(17)) by {
            reveal_strlit("n");
            reveal_strlit("s");
            assert(command_name(14)[0] != command_name(17)[0]);
        }
        lemma_first_match_skip(command_name(17), 14);
        assert(command_name(15) != command_name(17)) by {
            reveal_strlit("ne");
            reveal_strlit("s");
            assert(command_name(15).len() != command_name(17).len());
        }
        lemma_first_match_skip(command_name(17), 15);
        assert(command_name(16) != command_name(17)) by {
            reveal_strlit("se");
            reveal_strlit("s");
            assert(command_name(16).len() != command_name(17).len());
        }
        lemma_first_match_skip(command_name(17), 16);
    } else if k == 18 {
        assert(command_name(0) != command_name(18)) by {
            reveal_strlit("forward");
            reveal_strlit("sw");
            assert(command_name(0).len() != command_name(18).len());
        }
        lemma_first_match_skip(command_name(18), 0);
        assert(command_name(1) != command_name(18)) by {
            reveal_strlit("forwardright");
            reveal_strlit("sw");
            assert(command_name(1).len() != command_name(18).len());
        }
        lemma_first_match_skip(command_name(18), 1);
        assert(command_name(2) != command_name(18)) by {
            reveal_strlit("forwardleft");
            reveal_strlit("sw");
            assert(command_name(2).len() != command_name(18).len());
        }
        lemma_first_match_skip(command_name(18), 2);
        assert(command_name(3) != command_name(18)) by {
            reveal_strlit("backward");
            reveal_strlit("sw");
            assert(command_name(3).len() != command_name(18).len());
        }
        lemma_first_match_skip(command_name(18), 3);
        assert(command_name(4) != command_name(18)) by {
            reveal_strlit("backwardright");
            reveal_strlit("sw");
            assert(command_name(4).len() != command_name(18).len());
        }
        lemma_first_match_skip(command_name(18), 4);
        assert(command_name(5) != command_name(18)) by {
            reveal_strlit("backwardleft");
            reveal_strlit("sw");
            assert(command_name(5).len() != command_name(18).len());
        }
        lemma_first_match_skip(command_name(18), 5);
        assert(command_name(6) != command_name(18)) by {
            reveal_strlit("right");
            reveal_strlit("sw");
            assert(command_name(6).len() != command_name(18).len());
        }
        lemma_first_match_skip(command_name(18), 6);
        assert(command_name(7) != command_name(18)) by {
            reveal_strlit("left");
            reveal_strlit("sw");
            assert(command_name(7).len() != command_name(18).len());
        }
        lemma_first_match_skip(command_name(18), 7);
        assert(command_name(8) != command_name(18)) by {
            reveal_strlit("north");
            reveal_strlit("sw");
            assert(command_name(8).len() != command_name(18).len());
        }
        lemma_first_match_skip(command_name(18), 8);
        assert(command_name(9) != command_name(18)) by {
            reveal_strlit("northeast");
            reveal_strlit("sw");
            assert(command_name(9).len() != command_name(18).len());
        }
        lemma_first_match_skip(command_name(18), 9);
        assert(command_name(10) != command_name(18)) by {
            reveal_strlit("southeast");
            reveal_strlit("sw");
            assert(command_name(10).len() != command_name(18).len());
        }
        lemma_first_match_skip(command_name(18), 10);
        assert(command_name(11) != command_name(18)) by {
            reveal_strlit("south");
            reveal_strlit("sw");
            assert(command_name(11).len() != command_name(18).len());
        }
        lemma_first_match_skip(command_name(18), 11);
        assert(command_name(12) != command_name(18)) by {
            reveal_strlit("southwest");
            reveal_strlit("sw");
            assert(command_name(12).len() != command_name(18).len());
        }
        lemma_first_match_skip(command_name(18), 12);
        assert(command_name(13) != command_name(18)) by {
            reveal_strlit("northwest");
            reveal_strlit("sw");
            assert(command_name(13).len() != command_name(18).len());
        }
        lemma_first_match_skip(command_name(18), 13);
        assert(command_name(14) != command_name(18)) by {
            reveal_strlit("n");
            reveal_strlit("sw");
            assert(command_name(14).len() != command_name(18).len());
        }
        lemma_first_match_skip(command_name(18), 14);
        assert(command_name(15) != command_name(18)) by {
            reveal_strlit("ne");
            reveal_strlit("sw");
            assert(command_name(15)[0] != command_name(18)[0]);
        }
        lemma_first_match_skip(command_name(18), 15);
        assert(command_name(16) != command_name(18)) by {
            reveal_strlit("se");
            reveal_strlit("sw");
            assert(command_name(16)[1] != command_name(18)[1]);
        }
        lemma_first_match_skip(command_name(18), 16);
        assert(command_name(17) != command_name(18)) by {
            reveal_strlit("s");
            reveal_strlit("sw");
            assert(command_name(17).len() != command_name(18).len());
        }
        lemma_first_match_skip(command_name(18), 17);
    } else if k == 19 {
        assert(command_name(0) != command_name(19)) by {
            reveal_strlit("forward");
            reveal_strlit("nw");
            assert(command_name(0).len() != command_name(19).len());
        }
        lemma_first_match_skip(command_name(19), 0);
        assert(command_name(1) != command_name(19)) by {
            reveal_strlit("forwardright");
            reveal_strlit("nw");
            assert(command_name(1).len() != command_name(19).len());
        }
        lemma_first_match_skip(command_name(19), 1);
        assert(command_name(2) != command_name(19)) by {
            reveal_strlit("forwardleft");
            reveal_strlit("nw");
            assert(command_name(2).len() != command_name(19).len());
        }
        lemma_first_match_skip(command_name(19), 2);
        assert(command_name(3) != command_name(19)) by {
            reveal_strlit("backward");
            reveal_strlit("nw");
            assert(command_name(3).len() != command_name(19).len());
        }
        lemma_first_match_skip(command_name(19), 3);
        assert(command_name(4) != command_name(19)) by {
            reveal_strlit("backwardright");
            reveal_strlit("nw");
            assert(command_name(4).len() != command_name(19).len());
        }
        lemma_first_match_skip(command_name(19), 4);
        assert(command_name(5) != command_name(19)) by {
            reveal_strlit("backwardleft");
            reveal_strlit("nw");
            assert(command_name(5).len() != command_name(19).len());
        }
        lemma_first_match_skip(command_name(19), 5);
        assert(command_name(6) != command_name(19)) by {
            reveal_strlit("right");
            reveal_strlit("nw");
            assert(command_name(6).len() != command_name(19).len());
        }
        lemma_first_match_skip(command_name(19), 6);
        assert(command_name(7) != command_name(19)) by {
            reveal_strlit("left");
            reveal_strlit("nw");
            assert(command_name(7).len() != command_name(19).len());
        }
        lemma_first_match_skip(command_name(19), 7);
        assert(command_name(8) != command_name(19)) by {
            reveal_strlit("north");
            reveal_strlit("nw");
            assert(command_name(8).len() != command_name(19).len());
        }
        lemma_first_match_skip(command_name(19), 8);
        assert(command_name(9) != command_name(19)) by {
            reveal_strlit("northeast");
            reveal_strlit("nw");
            assert(command_name(9).len() != command_name(19).len());
        }
        lemma_first_match_skip(command_name(19), 9);
        assert(command_name(10) != command_name(19)) by {
            reveal_strlit("southeast");
            reveal_strlit("nw");
            assert(command_name(10).len() != command_name(19).len());
        }
        lemma_first_match_skip(command_name(19), 10);
        assert(command_name(11) != command_name(19)) by {
            reveal_strlit("south");
            reveal_strlit("nw");
            assert(command_name(11).len() != command_name(19).len());
        }
        lemma_first_match_skip(command_name(19), 11);
        assert(command_name(12) != command_name(19)) by {
            reveal_strlit("southwest");
            reveal_strlit("nw");
            assert(command_name(12).len() != command_name(19).len());
        }
        lemma_first_match_skip(command_name(19), 12);
        assert(command_name(13) != command_name(19)) by {
            reveal_strlit("northwest");
            reveal_strlit("nw");
            assert(command_name(13).len() != command_name(19).len());
        }
        lemma_first_match_skip(command_name(19), 13);
        assert(command_name(14) != command_name(19)) by {
            reveal_strlit("n");
            reveal_strlit("nw");
            assert(command_name(14).len() != command_name(19).len());
        }
        lemma_first_match_skip(command_name(19), 14);
        assert(command_name(15) != command_name(19)) by {
            reveal_strlit("ne");
            reveal_strlit("nw");
            assert(command_name(15)[1] != command_name(19)[1]);
        }
        lemma_first_match_skip(command_name(19), 15);
        assert(command_name(16) != command_name(19)) by {
            reveal_strlit("se");
            reveal_strlit("nw");
            assert(command_name(16)[0] != command_name(19)[0]);
        }
        lemma_first_match_skip(command_name(19), 16);
        assert(command_name(17) != command_name(19)) by {
            reveal_strlit("s");
            reveal_strlit("nw");
            assert(command_name(17).len() != command_name(19).len());
        }
        lemma_first_match_skip(command_name(19), 17);
        assert(command_name(18) != command_name(19)) by {
            reveal_strlit("sw");
            reveal_strlit("nw");
            assert(command_name(18)[0] != command_name(19)[0]);
        }
        lemma_first_match_skip(command_name(19), 18);
    }
}

/// Each movement command goes where its name says. Relative to the step
/// forward, turned clockwise by sixths: forward-right is one sixth to the
/// right, backward-right two, backward three, backward-left four and
/// forward-left five (one sixth to the left). The compass steps likewise
/// go round clockwise from north: north-east, south-east, south,
/// south-west, north-west, each short name stepping as its long one. The
/// turn `right` turns clockwise and `left` counter-clockwise.
pub proof fn lemma_commands_step_as_named()
    ensures
        command_step("forward"@) matches Some((true, f)) && {
            &&& command_step("forwardright"@) == Some((true, hex_rotate_cw(f, 1)))
            &&& command_step("backwardright"@) == Some((true, hex_rotate_cw(f, 2)))
            &&& command_step("backward"@) == Some((true, hex_rotate_cw(f, 3)))
            &&& command_step("backwardleft"@) == Some((true, hex_rotate_cw(f, 4)))
            &&& command_step("forwardleft"@) == Some((true, hex_rotate_cw(f, 5)))
        },
        command_step("north"@) matches Some((false, n)) && {
            &&& command_step("northeast"@) == Some((false, hex_rotate_cw(n, 1)))
            &&& command_step("southeast"@) == Some((false, hex_rotate_cw(n, 2)))
            &&& command_step("south"@) == Some((false, hex_rotate_cw(n, 3)))
            &&& command_step("southwest"@) == Some((false, hex_rotate_cw(n, 4)))
            &&& command_step("northwest"@) == Some((false, hex_rotate_cw(n, 5)))
        },
        command_step("n"@) == command_step("north"@),
        command_step("ne"@) == command_step("northeast"@),
        command_step("se"@) == command_step("southeast"@),
        command_step("s"@) == command_step("south"@),
        command_step("sw"@) == command_step("southwest"@),
        command_step("nw"@) == command_step("northwest"@),
        player_action_spec("right"@) matches Some(MoveAction::Turn(d)) && d > 0,
        player_action_spec("left"@) matches Some(MoveAction::Turn(d)) && d < 0,
{
    lemma_name_found(0);
    lemma_name_found(1);
    lemma_name_found(2);
    lemma_name_found(3);
    lemma_name_found(4);
    lemma_name_found(5);
    lemma_name_found(6);
    lemma_name_found(7);
    lemma_name_found(8);
    lemma_name_found(9);
    lemma_name_found(10);
    lemma_name_found(11);
    lemma_name_found(12);
    lemma_name_found(13);
    lemma_name_found(14);
    lemma_name_found(15);
    lemma_name_found(16);
    lemma_name_found(17);
    lemma_name_found(18);
    lemma_name_found(19);
}

/// Steps are taken relative to the facing: facing direction 0 a relative
/// step is the same absolute step, and after turning one sixth to the right
/// a relative step lands where, without the turn, that step turned one
/// sixth clockwise (`(x, y) -> (-y, x + y)`) lands.
pub proof fn lemma_relative_steps_follow_turns(off: Hex, turned: Hex, coords: (int, int), f: int, rotation_ready: bool)
    requires
        0 <= f < 6,
        turned@ == (-off@.1, off@.0 + off@.1),
    ensures
        apply_spec(MoveAction::MoveRelative(off), coords, 0, true, rotation_ready) == apply_spec(
            MoveAction::MoveAbsolute(off),
            coords,
            0,
            true,
            rotation_ready,
        ),
        apply_spec(MoveAction::MoveRelative(off), coords, (f + 1) % 6, true, rotation_ready) is Some,
        apply_spec(MoveAction::MoveRelative(turned), coords, f, true, rotation_ready) is Some,
        apply_spec(MoveAction::MoveRelative(off), coords, (f + 1) % 6, true, rotation_ready).unwrap().0
            == apply_spec(MoveAction::MoveRelative(turned), coords, f, true, rotation_ready).unwrap().0,
{
}

} // verus!
