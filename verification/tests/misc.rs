use canton::ascii_map::{render_cells, TileView};
use canton::text::is_whitespace;
use canton::ascii_map::encode_map_message;
use canton::ascii_map::prune;
use canton::ascii_map::{to_ansi_color, AnsiColour, Color};
use canton::map::{placement_change, PlacementChange, Transform};
use base64::Engine as _;
use std::io::Read as _;
use canton::action::{actions_to_run, ActionFlags};
use canton::ascii_map::{background_offsets, center_coords, edge_glyph, keeps, visible, Rect};
use canton::asset::{extensions, finish_load, ArcInterner, ArcString, LoadError};
use canton::help::{help_topic, HelpFiles};
use canton::lua_string::{byte, char as lua_char, len, LenArg};
use canton::map::{EdgeDirection, Hex};
use canton::movement::{apply, finished_message, move_fits, player_action, turn_steps, MoveAction};
use canton::names::NameMap;
use canton::text::{parse_int, trim, u64_to_string, ParseIntFailure};
use canton::thread_local::{next_id, IdSource, LocalValues, ThreadLocal};

#[test]
fn thread_locals_hold_one_value_per_variable() {
    let mut ids = IdSource::new();
    let a: ThreadLocal<u32> = ThreadLocal::new(&mut ids);
    let b: ThreadLocal<u32> = ThreadLocal::new(&mut ids);
    let mut values = LocalValues::new();
    assert_eq!(a.get(&values), None);
    assert_eq!(a.set(&mut values, 1), None);
    assert_eq!(a.set(&mut values, 2), Some(1));
    assert_eq!(a.get(&values), Some(&2));
    assert_eq!(b.get(&values), None);
    b.set(&mut values, 9);
    *a.get_mut(&mut values).unwrap() += 5;
    assert_eq!(a.get_cloned(&values), Some(7));
    assert_eq!(b.get_cloned(&values), Some(9));
    assert_eq!(a.remove(&mut values), Some(7));
    assert_eq!(a.get(&values), None);
    assert_eq!(b.get(&values), Some(&9));
    assert_eq!(next_id(&mut ids), 2);
}

#[test]
fn entries_fill_empty_slots() {
    let mut ids = IdSource::new();
    let a: ThreadLocal<Vec<u8>> = ThreadLocal::new(&mut ids);
    let mut values = LocalValues::new();
    a.entry(&mut values).or_default().push(3);
    a.entry(&mut values).or_insert(vec![9]).push(4);
    assert_eq!(a.get(&values), Some(&vec![3, 4]));
}

#[test]
fn interning_shares_texts() {
    let mut interner = ArcInterner::new();
    let a = interner.intern(b"scripts/hello.lua");
    let b = interner.intern(b"scripts/hello.lua");
    assert_eq!(a.as_str(), "scripts/hello.lua");
    assert_eq!(a, b);
    let bad = interner.intern(b"x\xff");
    assert_eq!(bad.as_str(), "x\u{fffd}");
    let c = a.clone();
    assert_eq!(c.as_bytes(), b"scripts/hello.lua");
    assert_eq!(ArcString::new("y".to_string()).as_str(), "y");
}

#[test]
fn loading_reports_the_first_failure() {
    let mut interner = ArcInterner::new();
    let r = finish_load::<u8, ()>(&mut interner, b"a.lua", Err("no file".to_string()), Ok(()), Ok(1), 5);
    assert!(matches!(&r, Err(LoadError::Io(_))));
    assert_eq!(r.unwrap_err().message(), "io error");
    let r = finish_load::<u8, ()>(&mut interner, b"a.lua", Ok(()), Err("bad".to_string()), Ok(1), 5);
    assert_eq!(r.unwrap_err().message(), "parse error");
    let r = finish_load::<u8, ()>(&mut interner, b"a.lua", Ok(()), Ok(()), Err("x".to_string()), 5);
    assert_eq!(r.unwrap_err().message(), "compile error");
    let p = finish_load::<u8, ()>(&mut interner, b"a.lua", Ok(()), Ok(()), Ok(1), 5).unwrap();
    assert_eq!((p.path.as_str(), p.compiled, p.compile_time), ("a.lua", 1, 5));
    assert_eq!(extensions(), vec!["lua"]);
}

#[test]
fn lua_string_functions() {
    assert_eq!(len(&LenArg::Integer(-501)), Ok(4));
    assert_eq!(len(&LenArg::Integer(0)), Ok(1));
    assert_eq!(len(&LenArg::NumberText("1.5".to_string())), Ok(3));
    assert_eq!(len(&LenArg::Bytes(b"eggs".to_vec())), Ok(4));
    assert_eq!(len(&LenArg::Integer(12345)), Ok(5));
    assert_eq!(len(&LenArg::Bytes(b"hello".to_vec())), Ok(5));
    assert_eq!(len(&LenArg::Other), Err("Bad argument to len"));
    assert_eq!(byte(b"asdf", 1, None), vec![b'a']);
    assert_eq!(byte(b"asdf", 2, Some(3)), vec![b's', b'd']);
    assert_eq!(byte(b"asdf", 0, Some(9)), b"asdf".to_vec());
    assert_eq!(byte(b"asdf", 3, Some(1)), Vec::<u8>::new());
    assert_eq!(byte(b"asdf", u32::MAX, None), Vec::<u8>::new());
    assert_eq!(lua_char(&[104, 105]), b"hi".to_vec());
    assert_eq!(lua_char(&[72, 105]), b"Hi".to_vec());
}

#[test]
fn actions_run_until_a_waiting_one_follows_a_busy_one() {
    let free = ActionFlags { waits: false, busies: false };
    let busy = ActionFlags { waits: true, busies: true };
    assert_eq!(actions_to_run(&[]), (0, false));
    assert_eq!(actions_to_run(&[free, free]), (2, false));
    assert_eq!(actions_to_run(&[busy, free, busy, free]), (2, true));
    assert_eq!(actions_to_run(&[free, busy]), (2, true));
}

#[test]
fn help_prefers_private_files() {
    let mut files = HelpFiles::new();
    files.public.insert("map".to_string(), "public map".to_string());
    files.private.insert("map".to_string(), "secret map".to_string());
    let mut access = NameMap::new();
    assert_eq!(files.reply(&access, &"map".to_string()), "public map");
    access.insert("map".to_string(), ());
    assert_eq!(files.reply(&access, &"map".to_string()), "secret map");
    assert_eq!(files.reply(&access, &"x y".to_string()), "No help found for \"x y\".");
    assert_eq!(help_topic(&vec!["help".to_string(), "x".to_string(), "y".to_string()]), "x y");
}

#[test]
fn map_widget_geometry() {
    let r = Rect { x: 0, y: 0, width: 55, height: 23 };
    assert_eq!(center_coords(r), (27, 11));
    assert_eq!(visible(r, 54, 22), Some((54, 22)));
    assert_eq!(visible(r, 55, 0), None);
    assert_eq!(visible(r, -1, 0), None);
    assert!(keeps(Hex::new(0, 0), 2, Hex::new(4, 0)));
    assert!(!keeps(Hex::new(0, 0), 2, Hex::new(5, 0)));
    assert_eq!(edge_glyph(0, true), ")");
    assert_eq!(edge_glyph(0, false), ".");
    assert_eq!(edge_glyph(1, true), "-");
    assert_eq!(background_offsets(), vec![-1, 0, 1]);
}

#[test]
fn movement_commands_and_moves() {
    assert_eq!(player_action("left"), Some(MoveAction::Turn(-1)));
    assert_eq!(player_action("n"), Some(MoveAction::MoveAbsolute(Hex::new(0, -1))));
    assert_eq!(player_action("forward"), Some(MoveAction::MoveRelative(Hex::new(1, 0))));
    assert_eq!(player_action("stop"), None);
    assert_eq!(turn_steps(-1), 5);
    assert_eq!(turn_steps(-128), 4);
    assert_eq!(turn_steps(7), 7);
    let f = EdgeDirection::from_index(1);
    let moved = apply(MoveAction::MoveRelative(Hex::new(1, 0)), Hex::new(5, 5), f, true, false).unwrap();
    assert_eq!(moved.0, Hex::new(5, 6));
    assert!(apply(MoveAction::MoveRelative(Hex::new(1, 0)), Hex::new(5, 5), f, false, true).is_none());
    let turned = apply(MoveAction::Turn(-1), Hex::new(5, 5), f, false, true).unwrap();
    assert_eq!((turned.0, turned.1.index()), (Hex::new(5, 5), 0));
    assert_eq!(finished_message(MoveAction::Turn(1), f), "You turn to your right.");
    assert_eq!(finished_message(MoveAction::Turn(0), f), "You turn ... nowhere? That seems wrong.");
    assert_eq!(finished_message(MoveAction::MoveRelative(Hex::new(1, 0)), f), "You move forward.");
    assert_eq!(
        finished_message(MoveAction::MoveRelative(Hex::new(-1, 0)), f),
        "You move backward."
    );
}

#[test]
fn integers_parse_like_rust() {
    assert_eq!(parse_int("42", false, 0, u64::MAX as i128), Ok(42));
    assert_eq!(parse_int("-42", true, i64::MIN as i128, i64::MAX as i128), Ok(-42));
    assert_eq!(parse_int("", true, -128, 127), Err(ParseIntFailure::Empty));
    assert_eq!(parse_int("-", true, -128, 127), Err(ParseIntFailure::InvalidDigit));
    assert_eq!(parse_int("128", true, -128, 127), Err(ParseIntFailure::PosOverflow));
    assert_eq!(parse_int("-129", true, -128, 127), Err(ParseIntFailure::NegOverflow));
    assert_eq!(ParseIntFailure::Empty.message(), "cannot parse integer from empty string");
    assert_eq!(trim("\t a b \n"), "a b");
    assert_eq!(u64_to_string(1234), "1234");
}

#[test]
fn map_payload_is_quoted_base64_of_compressed_text() {
    let rendered = "  .-.  \n (@) \n  '-'  \n";
    let payload = canton::ascii_map::map_payload(rendered).unwrap();
    let mut encoder = zstd::Encoder::new(Vec::new(), 0).unwrap();
    std::io::Write::write_all(&mut encoder, rendered.as_bytes()).unwrap();
    let expected = base64::prelude::BASE64_STANDARD.encode(encoder.finish().unwrap());
    assert_eq!(payload, format!("map {:?}", expected));
    let inner = payload.strip_prefix("map \"").unwrap().strip_suffix('"').unwrap();
    let compressed = base64::prelude::BASE64_STANDARD.decode(inner).unwrap();
    let mut text = String::new();
    zstd::Decoder::new(&compressed[..]).unwrap().read_to_string(&mut text).unwrap();
    assert_eq!(text, rendered);
}

#[test]
fn compressed_map_is_sent_as_quoted_base64() {
    assert_eq!(encode_map_message(&[1, 2, 3]).unwrap(), "map \"AQID\"");
    assert_eq!(encode_map_message(&[0xff, 0xfe]).unwrap(), "map \"//4=\"");
    assert_eq!(encode_map_message(&[]).unwrap(), "map \"\"");
}

#[test]
fn readers_live_through_two_updates() {
    let mut ages = canton::events::ReaderAges::new();
    ages.read(5);
    ages.read(6);
    assert!(ages.update().is_empty());
    ages.read(6);
    assert!(ages.update().is_empty());
    assert!(ages.has_reader(5));
    assert_eq!(ages.update(), vec![5]);
    assert!(!ages.has_reader(5));
    assert!(ages.has_reader(6));
    assert_eq!(ages.update(), vec![6]);
    assert!(!ages.has_reader(6));
}

#[test]
fn pruning_keeps_tiles_near_the_centre() {
    let tiles = vec![(Hex::new(0, 0), 'a'), (Hex::new(9, 0), 'b'), (Hex::new(4, -4), 'c')];
    let kept = prune(tiles, Hex::new(0, 0), 2);
    assert_eq!(kept, vec![(Hex::new(0, 0), 'a'), (Hex::new(4, -4), 'c')]);
}

#[test]
fn colours_map_to_terminal_colours() {
    assert_eq!(to_ansi_color(Color::Reset), None);
    assert_eq!(to_ansi_color(Color::Magenta), Some(AnsiColour::Purple));
    assert_eq!(to_ansi_color(Color::Gray), Some(AnsiColour::White));
    assert_eq!(to_ansi_color(Color::DarkGray), Some(AnsiColour::Fixed(8)));
    assert_eq!(to_ansi_color(Color::White), Some(AnsiColour::Fixed(15)));
    assert_eq!(to_ansi_color(Color::Rgb(1, 2, 3)), Some(AnsiColour::RGB(1, 2, 3)));
}

#[test]
fn placement_changes() {
    let a = Transform { map: "m".to_string(), coords: Hex::new(1, 1), facing: EdgeDirection::from_index(0) };
    let b = Transform { map: "m".to_string(), coords: Hex::new(1, 2), facing: EdgeDirection::from_index(0) };
    assert_eq!(placement_change(&a, &b, false), PlacementChange::Move);
    assert_eq!(placement_change(&a, &a, true), PlacementChange::Add);
    assert_eq!(placement_change(&a, &a, false), PlacementChange::Keep);
}

#[test]
fn white_space_matches_std_on_every_char() {
    for c in (0u32..=0x10ffff).filter_map(char::from_u32) {
        assert_eq!(is_whitespace(c), c.is_whitespace(), "{:?}", c);
    }
}

fn tile(bg: Option<&str>, center: Option<&str>) -> TileView {
    TileView { background: bg.map(|s| s.to_string()), center: center.map(|s| s.to_string()) }
}

fn drawn(cells: &[(u16, u16, String)]) -> Vec<(u16, u16, &str)> {
    cells.iter().map(|(x, y, s)| (*x, *y, s.as_str())).collect()
}

#[test]
fn widget_cells_of_one_tile() {
    let area = Rect { x: 0, y: 0, width: 11, height: 11 };
    let tiles = vec![(Hex::new(0, 0), tile(Some("."), Some("@")))];
    let cells = render_cells(&tiles, &vec![(5, 5)], area, EdgeDirection::from_index(0));
    assert_eq!(
        drawn(&cells),
        vec![
            (4, 5, "."), (5, 5, "."), (6, 5, "."), (5, 5, "@"),
            (4, 4, "."), (5, 4, "-"), (6, 4, "."), (3, 5, "("), (7, 5, ")"),
            (4, 6, "'"), (5, 6, "-"), (6, 6, "'"),
        ]
    );
    let hidden = render_cells(&tiles, &vec![(20, 5)], area, EdgeDirection::from_index(0));
    assert!(hidden.is_empty());
}

#[test]
fn widget_edges_close_towards_a_shown_neighbour() {
    let area = Rect { x: 0, y: 0, width: 11, height: 11 };
    // Seen with direction 0 at the top, the hex (1, 0) lies above (0, 0).
    let tiles = vec![
        (Hex::new(0, 0), tile(None, Some("@"))),
        (Hex::new(1, 0), tile(None, Some("#"))),
    ];
    let cells = render_cells(&tiles, &vec![(5, 5), (5, 2)], area, EdgeDirection::from_index(0));
    let d = drawn(&cells);
    assert_eq!(d[0], (5, 5, "@"));
    assert_eq!(&d[1..4], &[(4, 4, ")"), (5, 4, "-"), (6, 4, "(")]);
    // The shared cells are drawn once, by the first tile.
    assert_eq!(d.iter().filter(|c| (c.0, c.1) == (4, 4)).count(), 1);
    // With the neighbour off screen, the edges stay open.
    let cells = render_cells(&tiles, &vec![(5, 5), (50, 2)], area, EdgeDirection::from_index(0));
    assert_eq!(&drawn(&cells)[1..4], &[(4, 4, "."), (5, 4, "-"), (6, 4, ".")]);
}

#[test]
fn moves_fit_within_the_grid() {
    let f = EdgeDirection::from_index(0);
    assert!(move_fits(MoveAction::MoveAbsolute(Hex::new(1, 0)), Hex::new(0, 0), f));
    assert!(!move_fits(MoveAction::MoveAbsolute(Hex::new(1, 0)), Hex::new(i32::MAX, 0), f));
    assert!(!move_fits(MoveAction::MoveAbsolute(Hex::new(0, 1)), Hex::new(i32::MIN, i32::MAX), f));
    assert!(move_fits(MoveAction::MoveRelative(Hex::new(0, -1)), Hex::new(5, 5), EdgeDirection::from_index(3)));
    assert!(move_fits(MoveAction::Turn(1), Hex::new(i32::MAX, 0), f));
}

#[test]
fn move_messages_follow_hexx_main_direction() {
    let names = [
        "forward",
        "forward and to your right",
        "backward and to your right",
        "backward",
        "backward and to your left",
        "forward and to your left",
    ];
    for x in -12..=12 {
        for y in -12..=12 {
            if (x, y) == (0, 0) {
                continue;
            }
            let d = hexx::Hex::ZERO.main_direction_to(hexx::Hex::new(x, y)).index() as usize;
            let line = finished_message(MoveAction::MoveRelative(Hex::new(x, y)), EdgeDirection::from_index(0));
            assert_eq!(line, format!("You move {}.", names[d]), "({}, {})", x, y);
        }
    }
}
