//! The integer geometry of the ASCII map widget: the screen cell at the
//! centre of an area, which screen positions lie inside it, which map cells
//! are kept around the centre, and the glyphs drawn on tile edges.

use base64::Engine;
use crate::map::{EdgeDirection, Hex, hex_add, hex_fits, hex_length, hex_rotate_cw, neighbor_offset};
use vstd::prelude::*;
use vstd::string::*;

verus! {

/// A rectangle of screen cells.
#[derive(Clone, Copy, Debug, PartialEq, Eq, Structural)]
pub struct Rect {
    pub x: u16,
    pub y: u16,
    pub width: u16,
    pub height: u16,
}

/// The screen cell at the centre of `rect`.
pub fn center_coords(rect: Rect) -> (c: (u16, u16))
    requires
        rect.x + rect.width / 2 <= u16::MAX,
        rect.y + rect.height / 2 <= u16::MAX,
    ensures
        c == ((rect.x + rect.width / 2) as u16, (rect.y + rect.height / 2) as u16),
{
    let off_h = rect.height / 2;
    let off_w = rect.width / 2;
    (rect.x + off_w, rect.y + off_h)
}

/// The screen position `(x, y)`, if it is not negative and lies before the
/// right and bottom edges of `rect`.
pub open spec fn visible_spec(rect: Rect, x: int, y: int) -> Option<(u16, u16)> {
    if x < 0 || y < 0 || x >= rect.x + rect.width || y >= rect.y + rect.height {
        None
    } else {
        Some((x as u16, y as u16))
    }
}

/// Whether the screen position `(x, y)` can be drawn in `rect`, and where.
pub fn visible(rect: Rect, x: i32, y: i32) -> (r: Option<(u16, u16)>)
    ensures
        r == visible_spec(rect, x as int, y as int),
{
    if x < 0 || y < 0 || x >= rect.x as i32 + rect.width as i32 || y >= rect.y as i32 + rect.height as i32 {
        None
    } else {
        Some((x as u16, y as u16))
    }
}

/// Whether a tile at `coords` is kept by a map centred at `center` with
/// radius `radius`: it lies within twice the radius.
pub open spec fn kept(center: (int, int), radius: int, coords: (int, int)) -> bool {
    hex_length((center.0 - coords.0, center.1 - coords.1)) <= 2 * radius
}

/// Whether the map centred at `center` keeps a tile at `coords`.
pub fn keeps(center: Hex, radius: u8, coords: Hex) -> (b: bool)
    requires
        hex_fits((center@.0 - coords@.0, center@.1 - coords@.1)),
    ensures
        b == kept(center@, radius as int, coords@),
{
    let d = center.distance_to(coords);
    d <= 2 * (radius as u32)
}

/// The glyph of edge `i` of a tile (of the eight around it, left to right
/// and top to bottom), and the glyph used instead when a neighbouring tile
/// closes it.
pub open spec fn edge_glyphs(i: int) -> (Seq<char>, Option<Seq<char>>) {
    if i == 0 {
        ("."@, Some(")"@))
    } else if i == 1 {
        ("-"@, None)
    } else if i == 2 {
        ("."@, Some("("@))
    } else if i == 3 {
        ("("@, None)
    } else if i == 4 {
        (")"@, None)
    } else if i == 5 {
        ("'"@, Some(")"@))
    } else if i == 6 {
        ("-"@, None)
    } else {
        ("'"@, Some("("@))
    }
}

/// The screen offset of edge `i` from its tile's centre.
pub open spec fn edge_offset(i: int) -> (int, int) {
    if i == 0 {
        (-1int, -1int)
    } else if i == 1 {
        (0int, -1int)
    } else if i == 2 {
        (1int, -1int)
    } else if i == 3 {
        (-2int, 0int)
    } else if i == 4 {
        (2int, 0int)
    } else if i == 5 {
        (-1int, 1int)
    } else if i == 6 {
        (0int, 1int)
    } else {
        (1int, 1int)
    }
}

/// The glyph drawn on edge `i`: the closing glyph when a visible
/// neighbouring tile exists and the edge has one, the plain one otherwise.
pub fn edge_glyph(i: u8, has_neighbor: bool) -> (g: &'static str)
    requires
        i < 8,
    ensures
        g@ == (if has_neighbor && edge_glyphs(i as int).1 is Some {
            edge_glyphs(i as int).1->0
        } else {
            edge_glyphs(i as int).0
        }),
{
    let (plain, closed): (&'static str, Option<&'static str>) = if i == 0 {
        (".", Some(")"))
    } else if i == 1 {
        ("-", None)
    } else if i == 2 {
        (".", Some("("))
    } else if i == 3 {
        ("(", None)
    } else if i == 4 {
        (")", None)
    } else if i == 5 {
        ("'", Some(")"))
    } else if i == 6 {
        ("-", None)
    } else {
        ("'", Some("("))
    };
    if has_neighbor {
        match closed {
            Some(c) => c,
            None => plain,
        }
    } else {
        plain
    }
}

/// The screen offset of edge `i`.
pub fn edge_offset_of(i: u8) -> (o: (i32, i32))
    requires
        i < 8,
    ensures
        (o.0 as int, o.1 as int) == edge_offset(i as int),
{
    if i == 0 {
        (-1, -1)
    } else if i == 1 {
        (0, -1)
    } else if i == 2 {
        (1, -1)
    } else if i == 3 {
        (-2, 0)
    } else if i == 4 {
        (2, 0)
    } else if i == 5 {
        (-1, 1)
    } else if i == 6 {
        (0, 1)
    } else {
        (1, 1)
    }
}

/// The horizontal offsets, among -1, 0 and 1, at which a tile's background
/// is drawn: those whose bit is set in the pattern (all three).
pub fn background_offsets() -> (v: Vec<i32>)
    ensures
        v@ == seq![-1i32, 0i32, 1i32],
{
    let pattern: u8 = 7;
    let mut v: Vec<i32> = Vec::new();
    let mut off: i32 = -1;
    while off <= 1
        invariant
            -1 <= off <= 2,
            pattern == 7,
            v@ == seq![-1i32, 0i32, 1i32].take(off + 1),
        decreases 2 - off,
    {
        let shift = (off + 1) as u8;
        let bit = (pattern >> shift) & 1u8;
        assert((7u8 >> shift) & 1u8 == 1u8) by (bit_vector)
            requires
                shift <= 2,
        ;
        if bit == 1 {
            v.push(off);
        }
        proof {
            assert(v@ =~= seq![-1i32, 0i32, 1i32].take(off + 2));
        }
        off = off + 1;
    }
    v
}

/// The zstd frame that `zstd::encode_all` at level 0 (zstd's default
/// level) makes of `data`.
pub uninterp spec fn zstd_frame(data: Seq<u8>) -> Seq<u8>;

/// `zstd::encode_all(data, 0)`: `data` compressed into one frame, as a
/// streaming `zstd::Encoder` writes it; the frame is a function of the data
/// (named here, not stated). Its source reports an error only where zstd
/// cannot allocate its working memory (creating the context panics then);
/// level 0 is valid and writing into a `Vec` cannot fail, so like any
/// allocation failure that case is left out and the frame is always given.
#[verifier::external_body]
fn zstd_compress(data: &[u8]) -> (r: Option<Vec<u8>>)
    ensures
        r is Some,
        r matches Some(b) ==> b@ == zstd_frame(data@),
{
    zstd::encode_all(data, 0).ok()
}

/// The character of the standard base64 alphabet (RFC 4648) for the
/// six-bit value `v`.
pub open spec fn base64_digit(v: int) -> char {
    if v < 26 {
        (65 + v) as char
    } else if v < 52 {
        (97 + v - 26) as char
    } else if v < 62 {
        (48 + v - 52) as char
    } else if v == 62 {
        '+'
    } else {
        '/'
    }
}

/// The standard base64 text (RFC 4648 alphabet, with `=` padding) of
/// `data`: each group of three bytes gives four characters of six bits
/// each, and a last group of one or two bytes is padded with `=`.
pub open spec fn base64_standard(data: Seq<u8>) -> Seq<char>
    decreases data.len(),
{
    if data.len() == 0 {
        Seq::empty()
    } else if data.len() == 1 {
        let a = data[0] as int;
        seq![base64_digit(a / 4), base64_digit((a % 4) * 16), '=', '=']
    } else if data.len() == 2 {
        let (a, b) = (data[0] as int, data[1] as int);
        seq![base64_digit(a / 4), base64_digit((a % 4) * 16 + b / 16), base64_digit((b % 16) * 4), '=']
    } else {
        let (a, b, c) = (data[0] as int, data[1] as int, data[2] as int);
        seq![
            base64_digit(a / 4),
            base64_digit((a % 4) * 16 + b / 16),
            base64_digit((b % 16) * 4 + c / 64),
            base64_digit(c % 64),
        ] + base64_standard(data.subrange(3, data.len() as int))
    }
}

/// `base64::prelude::BASE64_STANDARD.encode`: the standard, padded base64
/// text of `data` (RFC 4648, as the engine's configuration documents): four
/// characters for every started group of three bytes, each from the
/// standard alphabet or the pad. Inputs whose encoded length would not
/// fit in `usize` (where the call panics) are left out.
#[verifier::external_body]
fn base64_encode(data: &[u8]) -> (s: String)
    requires
        4 * ((data@.len() + 2) / 3) <= usize::MAX,
    ensures
        s@ == base64_standard(data@),
{
    base64::prelude::BASE64_STANDARD.encode(data)
}

/// The GMCP message that carries a compressed map: `map ` followed by the
/// base64 text of the compressed bytes, in double quotes (the form `{:?}`
/// gives a string, which escapes none of the base64 characters).
pub open spec fn compressed_map_message(compressed: Seq<u8>) -> Seq<char> {
    "map \""@ + base64_standard(compressed) + "\""@
}

/// The GMCP message that carries the rendered map `rendered`.
pub open spec fn map_message(rendered: Seq<u8>) -> Seq<char> {
    compressed_map_message(zstd_frame(rendered))
}

/// The GMCP message for the compressed map `compressed`, or `None` when its
/// base64 text would be longer than `usize` can count.
pub fn encode_map_message(compressed: &[u8]) -> (r: Option<String>)
    ensures
        r is Some <==> 4 * ((compressed@.len() + 2) / 3) <= usize::MAX,
        r matches Some(m) ==> m@ == compressed_map_message(compressed@),
{
    let n = compressed.len();
    let groups = n / 3 + if n % 3 == 0 { 0 } else { 1 };
    assert(groups == (n + 2) / 3);
    if groups > usize::MAX / 4 {
        return None;
    }
    let encoded = base64_encode(compressed);
    let mut out = String::from_str("map \"");
    out.append(encoded.as_str());
    out.append("\"");
    Some(out)
}

/// The GMCP map message for the rendered map `rendered`: its zstd frame
/// encoded as [`encode_map_message`] does. `None` when the frame is too
/// long for its base64 text to be counted in `usize`.
pub fn map_payload(rendered: &str) -> (r: Option<String>)
    ensures
        r is Some <==> 4 * ((zstd_frame(rendered.spec_bytes()).len() + 2) / 3) <= usize::MAX,
        r matches Some(m) ==> m@ == map_message(rendered.spec_bytes()),
{
    let compressed = match zstd_compress(rendered.as_bytes()) {
        Some(c) => c,
        None => return None,
    };
    encode_map_message(compressed.as_slice())
}

/// The tiles of `tiles` that a map centred at `center` with radius
/// `radius` keeps, in their order.
pub open spec fn kept_tiles<T>(tiles: Seq<(Hex, T)>, center: Hex, radius: u8) -> Seq<(Hex, T)>
    decreases tiles.len(),
{
    if tiles.len() == 0 {
        Seq::empty()
    } else {
        let rest = kept_tiles(tiles.drop_last(), center, radius);
        if kept(center@, radius as int, tiles.last().0@) {
            rest.push(tiles.last())
        } else {
            rest
        }
    }
}

/// Drops the tiles that lie further than twice the radius from the centre.
pub fn prune<T>(tiles: Vec<(Hex, T)>, center: Hex, radius: u8) -> (kept_out: Vec<(Hex, T)>)
    requires
        forall|i: int|
            0 <= i < tiles@.len() ==> hex_fits(
                (center@.0 - (#[trigger] tiles@[i]).0@.0, center@.1 - tiles@[i].0@.1),
            ),
    ensures
        kept_out@ == kept_tiles(tiles@, center, radius),
{
    let ghost all = tiles@;
    let mut out: Vec<(Hex, T)> = Vec::new();
    let mut rest = tiles;
    let mut taken: Vec<(Hex, T)> = Vec::new();
    let n = rest.len();
    let mut i: usize = 0;
    while i < n
        invariant
            i <= n == all.len(),
            rest@ == all.subrange(0, (n - i) as int),
            forall|k: int|
                0 <= k < all.len() ==> hex_fits(
                    (center@.0 - (#[trigger] all[k]).0@.0, center@.1 - all[k].0@.1),
                ),
            taken@ == all.subrange((n - i) as int, n as int).reverse(),
        decreases n - i,
    {
        let t = rest.pop().unwrap();
        taken.push(t);
        proof {
            assert(rest@ =~= all.subrange(0, (n - i - 1) as int));
            assert(taken@ =~= all.subrange((n - i - 1) as int, n as int).reverse());
        }
        i = i + 1;
    }
    let mut j: usize = 0;
    while j < n
        invariant
            j <= n == all.len(),
            taken@ == all.subrange(j as int, n as int).reverse(),
            forall|k: int|
                0 <= k < all.len() ==> hex_fits(
                    (center@.0 - (#[trigger] all[k]).0@.0, center@.1 - all[k].0@.1),
                ),
            out@ == kept_tiles(all.subrange(0, j as int), center, radius),
        decreases n - j,
    {
        let t = taken.pop().unwrap();
        proof {
            assert(t == all[j as int]);
            assert(taken@ =~= all.subrange(j + 1, n as int).reverse());
            assert(all.subrange(0, j + 1).drop_last() =~= all.subrange(0, j as int));
            assert(all.subrange(0, j + 1).last() == all[j as int]);
        }
        if keeps(center, radius, t.0) {
            out.push(t);
        }
        j = j + 1;
    }
    proof {
        assert(all.subrange(0, n as int) =~= all);
    }
    out
}

/// The colours a map tile can be drawn in.
#[derive(Clone, Copy, Debug, PartialEq, Eq, Structural)]
pub enum Color {
    Reset,
    Black,
    Red,
    Green,
    Yellow,
    Blue,
    Magenta,
    Cyan,
    Gray,
    DarkGray,
    LightRed,
    LightGreen,
    LightYellow,
    LightBlue,
    LightMagenta,
    LightCyan,
    White,
    Rgb(u8, u8, u8),
    Indexed(u8),
}

/// The colours of an ANSI terminal.
#[derive(Clone, Copy, Debug, PartialEq, Eq, Structural)]
pub enum AnsiColour {
    Black,
    Red,
    Green,
    Yellow,
    Blue,
    Purple,
    Cyan,
    White,
    Fixed(u8),
    RGB(u8, u8, u8),
}

/// The terminal colour that a map colour is written in: the eight basic
/// colours by name (magenta is the terminal's purple, gray its white), the
/// light ones and white by their indexed-colour numbers 8 to 15, and no
/// colour at all for `Reset`.
pub open spec fn ansi_colour_spec(c: Color) -> Option<AnsiColour> {
    match c {
        Color::Reset => None,
        Color::Black => Some(AnsiColour::Black),
        Color::Red => Some(AnsiColour::Red),
        Color::Green => Some(AnsiColour::Green),
        Color::Yellow => Some(AnsiColour::Yellow),
        Color::Blue => Some(AnsiColour::Blue),
        Color::Magenta => Some(AnsiColour::Purple),
        Color::Cyan => Some(AnsiColour::Cyan),
        Color::Gray => Some(AnsiColour::White),
        Color::DarkGray => Some(AnsiColour::Fixed(8)),
        Color::LightRed => Some(AnsiColour::Fixed(9)),
        Color::LightGreen => Some(AnsiColour::Fixed(10)),
        Color::LightYellow => Some(AnsiColour::Fixed(11)),
        Color::LightBlue => Some(AnsiColour::Fixed(12)),
        Color::LightMagenta => Some(AnsiColour::Fixed(13)),
        Color::LightCyan => Some(AnsiColour::Fixed(14)),
        Color::White => Some(AnsiColour::Fixed(15)),
        Color::Indexed(i) => Some(AnsiColour::Fixed(i)),
        Color::Rgb(r, g, b) => Some(AnsiColour::RGB(r, g, b)),
    }
}

/// The terminal colour of a map colour.
pub fn to_ansi_color(c: Color) -> (a: Option<AnsiColour>)
    ensures
        a == ansi_colour_spec(c),
{
    match c {
        Color::Reset => None,
        Color::Black => Some(AnsiColour::Black),
        Color::Red => Some(AnsiColour::Red),
        Color::Green => Some(AnsiColour::Green),
        Color::Yellow => Some(AnsiColour::Yellow),
        Color::Blue => Some(AnsiColour::Blue),
        Color::Magenta => Some(AnsiColour::Purple),
        Color::Cyan => Some(AnsiColour::Cyan),
        Color::Gray => Some(AnsiColour::White),
        Color::DarkGray => Some(AnsiColour::Fixed(8)),
        Color::LightRed => Some(AnsiColour::Fixed(9)),
        Color::LightGreen => Some(AnsiColour::Fixed(10)),
        Color::LightYellow => Some(AnsiColour::Fixed(11)),
        Color::LightBlue => Some(AnsiColour::Fixed(12)),
        Color::LightMagenta => Some(AnsiColour::Fixed(13)),
        Color::LightCyan => Some(AnsiColour::Fixed(14)),
        Color::White => Some(AnsiColour::Fixed(15)),
        Color::Indexed(i) => Some(AnsiColour::Fixed(i)),
        Color::Rgb(r, g, b) => Some(AnsiColour::RGB(r, g, b)),
    }
}

// ---------------------------------------------------------------------------
// The cells of the map widget

/// What one tile draws: its background symbol and its centre symbol, each
/// if it has one.
pub struct TileView {
    pub background: Option<String>,
    pub center: Option<String>,
}

/// A cell drawn: its screen position and its symbol.
pub open spec fn op_view(op: (u16, u16, String)) -> (u16, u16, Seq<char>) {
    (op.0, op.1, op.2@)
}

/// The glyph drawn on edge `i`, as [`edge_glyph`] gives it.
pub open spec fn edge_glyph_spec(i: int, has_neighbor: bool) -> Seq<char> {
    if has_neighbor && edge_glyphs(i).1 is Some {
        edge_glyphs(i).1->0
    } else {
        edge_glyphs(i).0
    }
}

/// The first (flat-topped) direction whose neighbouring hex shares edge
/// cell `i` of a tile: top-left 3, top 4, top-right 5, bottom-left 2,
/// bottom 1, bottom-right 0.
pub open spec fn edge_dir_a(i: int) -> int {
    if i == 0 {
        3
    } else if i == 1 {
        4
    } else if i == 2 {
        4
    } else if i == 3 {
        3
    } else if i == 4 {
        5
    } else if i == 5 {
        2
    } else if i == 6 {
        1
    } else {
        1
    }
}

/// Whether a second neighbouring hex shares edge cell `i`.
pub open spec fn edge_has_b(i: int) -> bool {
    i != 1 && i != 6
}

/// The second direction whose neighbouring hex shares edge cell `i`.
pub open spec fn edge_dir_b(i: int) -> int {
    if i == 0 {
        4
    } else if i == 2 {
        5
    } else if i == 3 {
        2
    } else if i == 4 {
        0
    } else if i == 5 {
        1
    } else {
        0
    }
}

/// The hex next to `t` in direction `d`, seen with `up` at the top.
pub open spec fn neighbor_seen(t: (int, int), d: int, up: int) -> (int, int) {
    hex_add(t, hex_rotate_cw(neighbor_offset(d), 2 + up))
}

/// Whether one of the first `n` tiles is at `h` with a visible position.
pub open spec fn tile_shown_at(
    tiles: Seq<(Hex, TileView)>,
    pos: Seq<(i32, i32)>,
    area: Rect,
    h: (int, int),
    n: int,
) -> bool
    decreases n,
{
    if n <= 0 {
        false
    } else {
        tile_shown_at(tiles, pos, area, h, n - 1) || (tiles[n - 1].0@ == h && visible_spec(
            area,
            pos[n - 1].0 as int,
            pos[n - 1].1 as int,
        ) is Some)
    }
}

/// Whether edge cell `i` of the tile at `t` is shared with a shown tile.
pub open spec fn edge_has_neighbor(
    tiles: Seq<(Hex, TileView)>,
    pos: Seq<(i32, i32)>,
    area: Rect,
    up: int,
    t: (int, int),
    i: int,
) -> bool {
    ||| tile_shown_at(tiles, pos, area, neighbor_seen(t, edge_dir_a(i), up), tiles.len() as int)
    ||| (edge_has_b(i) && tile_shown_at(tiles, pos, area, neighbor_seen(t, edge_dir_b(i), up), tiles.len() as int))
}

/// The drawing so far and the edge cells already drawn, after edge `i` of
/// the tile at `t`, shown at `(x, y)`, is drawn: an edge cell is drawn once,
/// by the first tile that reaches it.
pub open spec fn edge_step(
    st: (Seq<(u16, u16, Seq<char>)>, Seq<(u16, u16)>),
    area: Rect,
    x: int,
    y: int,
    nb: bool,
    i: int,
) -> (Seq<(u16, u16, Seq<char>)>, Seq<(u16, u16)>) {
    match visible_spec(area, x + edge_offset(i).0, y + edge_offset(i).1) {
        None => st,
        Some(q) => if st.1.contains(q) {
            st
        } else {
            (st.0.push((q.0, q.1, edge_glyph_spec(i, nb))), st.1.push(q))
        },
    }
}

/// The state after the first `i` edges of tile `k`, shown at `(x, y)`.
pub open spec fn edges_upto(
    tiles: Seq<(Hex, TileView)>,
    pos: Seq<(i32, i32)>,
    area: Rect,
    up: int,
    k: int,
    x: int,
    y: int,
    st: (Seq<(u16, u16, Seq<char>)>, Seq<(u16, u16)>),
    i: int,
) -> (Seq<(u16, u16, Seq<char>)>, Seq<(u16, u16)>)
    decreases i,
{
    if i <= 0 {
        st
    } else {
        edge_step(
            edges_upto(tiles, pos, area, up, k, x, y, st, i - 1),
            area,
            x,
            y,
            edge_has_neighbor(tiles, pos, area, up, tiles[k].0@, i - 1),
            i - 1,
        )
    }
}

/// The cell `(x, y)` with symbol `b`, if it is visible.
pub open spec fn cell_if_visible(area: Rect, x: int, y: int, b: Seq<char>) -> Seq<(u16, u16, Seq<char>)> {
    match visible_spec(area, x, y) {
        Some(q) => seq![(q.0, q.1, b)],
        None => Seq::empty(),
    }
}

/// The background cells of a tile shown at `(x, y)`: its symbol on the
/// visible cells among the one to the left, its own and the one to the
/// right.
pub open spec fn background_ops(area: Rect, x: int, y: int, b: Seq<char>) -> Seq<(u16, u16, Seq<char>)> {
    cell_if_visible(area, x - 1, y, b) + cell_if_visible(area, x, y, b) + cell_if_visible(area, x + 1, y, b)
}

/// The drawing and the edge cells drawn once tile `k` is drawn after `st`:
/// nothing when its position is not visible; else its background, its
/// centre and its eight edge cells.
pub open spec fn tile_step(
    st: (Seq<(u16, u16, Seq<char>)>, Seq<(u16, u16)>),
    tiles: Seq<(Hex, TileView)>,
    pos: Seq<(i32, i32)>,
    area: Rect,
    up: int,
    k: int,
) -> (Seq<(u16, u16, Seq<char>)>, Seq<(u16, u16)>) {
    match visible_spec(area, pos[k].0 as int, pos[k].1 as int) {
        None => st,
        Some(p) => {
            let with_bg = match tiles[k].1.background {
                Some(b) => st.0 + background_ops(area, p.0 as int, p.1 as int, b@),
                None => st.0,
            };
            let with_center = match tiles[k].1.center {
                Some(c) => with_bg.push((p.0, p.1, c@)),
                None => with_bg,
            };
            edges_upto(tiles, pos, area, up, k, p.0 as int, p.1 as int, (with_center, st.1), 8)
        },
    }
}

/// The drawing and the edge cells drawn after the first `n` tiles.
pub open spec fn cells_upto(
    tiles: Seq<(Hex, TileView)>,
    pos: Seq<(i32, i32)>,
    area: Rect,
    up: int,
    n: int,
) -> (Seq<(u16, u16, Seq<char>)>, Seq<(u16, u16)>)
    decreases n,
{
    if n <= 0 {
        (Seq::empty(), Seq::empty())
    } else {
        tile_step(cells_upto(tiles, pos, area, up, n - 1), tiles, pos, area, up, n - 1)
    }
}

/// Whether one of the tiles is at `(hx, hy)` with a visible position.
fn tile_shown(tiles: &Vec<(Hex, TileView)>, positions: &Vec<(i32, i32)>, area: Rect, hx: i64, hy: i64) -> (b: bool)
    requires
        positions@.len() == tiles@.len(),
    ensures
        b == tile_shown_at(tiles@, positions@, area, (hx as int, hy as int), tiles@.len() as int),
{
    let mut j: usize = 0;
    let mut found = false;
    while j < tiles.len()
        invariant
            j <= tiles@.len() == positions@.len(),
            found == tile_shown_at(tiles@, positions@, area, (hx as int, hy as int), j as int),
        decreases tiles@.len() - j,
    {
        let h = tiles[j].0;
        let (px, py) = positions[j];
        if h.x as i64 == hx && h.y as i64 == hy && visible(area, px, py).is_some() {
            found = true;
        }
        j = j + 1;
    }
    found
}

/// The neighbouring hex of `t` in direction `d`, seen with `up` at the top,
/// in wide coordinates.
fn neighbor_of(t: Hex, d: u8, up: EdgeDirection) -> (h: (i64, i64))
    requires
        d < 6,
    ensures
        (h.0 as int, h.1 as int) == neighbor_seen(t@, d as int, up.spec_index()),
{
    let o = EdgeDirection::from_index(d).into_hex();
    let r = o.rotate_cw(2 + up.index() as u32);
    (t.x as i64 + r.x as i64, t.y as i64 + r.y as i64)
}

/// Whether edge cell `i` of the tile at `t` is shared with a shown tile.
fn has_neighbor(
    tiles: &Vec<(Hex, TileView)>,
    positions: &Vec<(i32, i32)>,
    area: Rect,
    up: EdgeDirection,
    t: Hex,
    i: u8,
) -> (b: bool)
    requires
        positions@.len() == tiles@.len(),
        i < 8,
    ensures
        b == edge_has_neighbor(tiles@, positions@, area, up.spec_index(), t@, i as int),
{
    let a: u8 = if i == 0 {
        3
    } else if i == 1 {
        4
    } else if i == 2 {
        4
    } else if i == 3 {
        3
    } else if i == 4 {
        5
    } else if i == 5 {
        2
    } else {
        1
    };
    let na = neighbor_of(t, a, up);
    if tile_shown(tiles, positions, area, na.0, na.1) {
        return true;
    }
    if i == 1 || i == 6 {
        return false;
    }
    let b: u8 = if i == 0 {
        4
    } else if i == 2 {
        5
    } else if i == 3 {
        2
    } else if i == 4 {
        0
    } else if i == 5 {
        1
    } else {
        0
    };
    let nb = neighbor_of(t, b, up);
    tile_shown(tiles, positions, area, nb.0, nb.1)
}

/// Draws symbol `b` at `(x, y)` if that cell is visible.
fn push_if_visible(cells: &mut Vec<(u16, u16, String)>, area: Rect, x: i32, y: i32, b: &String)
    ensures
        final(cells)@.map_values(|o: (u16, u16, String)| op_view(o)) == old(cells)@.map_values(
            |o: (u16, u16, String)| op_view(o),
        ) + cell_if_visible(area, x as int, y as int, b@),
{
    let ghost before = cells@.map_values(|o: (u16, u16, String)| op_view(o));
    match visible(area, x, y) {
        Some((qx, qy)) => {
            cells.push((qx, qy, b.clone()));
            assert(cells@.map_values(|o: (u16, u16, String)| op_view(o)) =~= before + cell_if_visible(
                area,
                x as int,
                y as int,
                b@,
            ));
        },
        None => {
            assert(cells@.map_values(|o: (u16, u16, String)| op_view(o)) =~= before + cell_if_visible(
                area,
                x as int,
                y as int,
                b@,
            ));
        },
    }
}

/// Whether `q` is among the cells of `v`.
fn contains_cell(v: &Vec<(u16, u16)>, q: (u16, u16)) -> (b: bool)
    ensures
        b == v@.contains(q),
{
    let mut j: usize = 0;
    while j < v.len()
        invariant
            j <= v@.len(),
            forall|k: int| 0 <= k < j ==> v@[k] != q,
        decreases v@.len() - j,
    {
        if v[j].0 == q.0 && v[j].1 == q.1 {
            assert(v@[j as int] == q);
            return true;
        }
        j = j + 1;
    }
    false
}

/// Draws edge cell `i` of a tile shown at `(x, y)`, unless a tile drawn
/// earlier drew that cell; `nb` says whether a shown tile shares the edge.
fn push_edge(
    cells: &mut Vec<(u16, u16, String)>,
    visited: &mut Vec<(u16, u16)>,
    area: Rect,
    x: u16,
    y: u16,
    nb: bool,
    i: u8,
)
    requires
        i < 8,
    ensures
        (final(cells)@.map_values(|o: (u16, u16, String)| op_view(o)), final(visited)@) == edge_step(
            (old(cells)@.map_values(|o: (u16, u16, String)| op_view(o)), old(visited)@),
            area,
            x as int,
            y as int,
            nb,
            i as int,
        ),
{
    let ghost before = cells@.map_values(|o: (u16, u16, String)| op_view(o));
    let (ox, oy) = edge_offset_of(i);
    match visible(area, x as i32 + ox, y as i32 + oy) {
        None => {},
        Some(q) => {
            if !contains_cell(visited, q) {
                visited.push(q);
                let g = edge_glyph(i, nb);
                cells.push((q.0, q.1, String::from_str(g)));
                assert(cells@.map_values(|o: (u16, u16, String)| op_view(o)) =~= before.push(
                    (q.0, q.1, edge_glyph_spec(i as int, nb)),
                ));
            }
        },
    }
}

/// The cells that the map widget draws for `tiles`, the tiles around its
/// centre in the order they are drawn (ring by ring from the centre), where
/// `positions[k]` is the screen position that tile `k` projects to and `up`
/// the direction drawn at the top. A tile whose position is not visible in
/// `area` draws nothing; a shown tile draws its background on the visible
/// cells beside and under it, its centre symbol, and each of its eight edge
/// cells that is visible and not drawn yet, with the glyph that a shown
/// tile sharing that edge calls for. Later cells are drawn over earlier
/// ones.
pub fn render_cells(
    tiles: &Vec<(Hex, TileView)>,
    positions: &Vec<(i32, i32)>,
    area: Rect,
    up: EdgeDirection,
) -> (cells: Vec<(u16, u16, String)>)
    requires
        positions@.len() == tiles@.len(),
    ensures
        cells@.map_values(|o: (u16, u16, String)| op_view(o)) == cells_upto(
            tiles@,
            positions@,
            area,
            up.spec_index(),
            tiles@.len() as int,
        ).0,
{
    let mut cells: Vec<(u16, u16, String)> = Vec::new();
    let mut visited: Vec<(u16, u16)> = Vec::new();
    let mut k: usize = 0;
    proof {
        assert(cells@.map_values(|o: (u16, u16, String)| op_view(o)) =~= Seq::<(u16, u16, Seq<char>)>::empty());
        assert(visited@ =~= Seq::<(u16, u16)>::empty());
    }
    while k < tiles.len()
        invariant
            k <= tiles@.len() == positions@.len(),
            (cells@.map_values(|o: (u16, u16, String)| op_view(o)), visited@) == cells_upto(
                tiles@,
                positions@,
                area,
                up.spec_index(),
                k as int,
            ),
        decreases tiles@.len() - k,
    {
        let ghost st = cells_upto(tiles@, positions@, area, up.spec_index(), k as int);
        let (px, py) = positions[k];
        match visible(area, px, py) {
            None => {},
            Some((x, y)) => {
                let ghost c0 = cells@.map_values(|o: (u16, u16, String)| op_view(o));
                match &tiles[k].1.background {
                    Some(b) => {
                        push_if_visible(&mut cells, area, x as i32 - 1, y as i32, b);
                        push_if_visible(&mut cells, area, x as i32, y as i32, b);
                        push_if_visible(&mut cells, area, x as i32 + 1, y as i32, b);
                        assert(cells@.map_values(|o: (u16, u16, String)| op_view(o)) =~= c0 + background_ops(
                            area,
                            x as int,
                            y as int,
                            b@,
                        ));
                    },
                    None => {},
                }
                let ghost c1 = cells@.map_values(|o: (u16, u16, String)| op_view(o));
                match &tiles[k].1.center {
                    Some(c) => {
                        cells.push((x, y, c.clone()));
                        assert(cells@.map_values(|o: (u16, u16, String)| op_view(o)) =~= c1.push((x, y, c@)));
                    },
                    None => {},
                }
                let ghost st0 = (cells@.map_values(|o: (u16, u16, String)| op_view(o)), visited@);
                let t = tiles[k].0;
                let mut i: u8 = 0;
                while i < 8
                    invariant
                        i <= 8,
                        k < tiles@.len() == positions@.len(),
                        t == tiles@[k as int].0,
                        (cells@.map_values(|o: (u16, u16, String)| op_view(o)), visited@) == edges_upto(
                            tiles@,
                            positions@,
                            area,
                            up.spec_index(),
                            k as int,
                            x as int,
                            y as int,
                            st0,
                            i as int,
                        ),
                    decreases 8 - i,
                {
                    let nb = has_neighbor(tiles, positions, area, up, t, i);
                    push_edge(&mut cells, &mut visited, area, x, y, nb, i);
                    i = i + 1;
                }
            },
        }
        k = k + 1;
    }
    cells
}

/// The edge cell straight above or below edge `i`: top-left with
/// bottom-left, top with bottom, top-right with bottom-right; the side
/// cells are their own.
pub open spec fn vertical_mirror(i: int) -> int {
    if 0 <= i < 3 {
        i + 5
    } else if 5 <= i < 8 {
        i - 5
    } else {
        i
    }
}

/// A closed edge looks the same on either side of the tile: the glyph that
/// closes an edge shared with a neighbour is the glyph that closes the edge
/// straight above or below it, so the left corners close with one glyph,
/// the right corners with the other, and a shared edge cell is drawn alike
/// by whichever of its tiles draws it. Only the corners and the top and
/// bottom have a closing glyph, and the left and right corners close
/// differently.
pub proof fn lemma_closed_edges_match_vertically()
    ensures
        forall|i: int| 0 <= i < 8 ==> #[trigger] edge_glyph_spec(i, true) == edge_glyph_spec(vertical_mirror(i), true),
        forall|i: int| 0 <= i < 8 ==> #[trigger] edge_glyphs(i).1 == edge_glyphs(vertical_mirror(i)).1,
        edge_glyphs(0).1 is Some && edge_glyphs(2).1 is Some && edge_glyphs(0).1 != edge_glyphs(2).1,
        edge_glyphs(3).1 is None && edge_glyphs(4).1 is None,
{
    reveal_strlit("(");
    reveal_strlit(")");
    assert(")"@ != "("@) by {
        assert(")"@[0] != "("@[0]);
    }
}

} // verus!
