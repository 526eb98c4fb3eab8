use canton::render::{render_requests, Moved};
use canton::map::{
    global_transform, EdgeDirection, Entities, Hex, MapConfig, MapSet, Maps, Transform,
};

fn xf(map: &str, x: i32, y: i32, facing: u8) -> Transform {
    Transform { map: map.to_string(), coords: Hex::new(x, y), facing: EdgeDirection::from_index(facing) }
}

#[test]
fn hex_rotation_matches_hexx() {
    let h = Hex::new(1, 2);
    for m in 0..13u32 {
        let r = h.rotate_cw(m);
        let e = hexx::Hex::new(1, 2).rotate_cw(m);
        assert_eq!((r.x, r.y), (e.x, e.y));
    }
    assert_eq!(Hex::new(1, 2).rotate_cw(1), Hex::new(-2, 3));
}

#[test]
fn distance_matches_hexx() {
    let a = Hex::new(3, -7);
    let b = Hex::new(-2, 4);
    assert_eq!(a.distance_to(b) as i32, hexx::Hex::new(3, -7).distance_to(hexx::Hex::new(-2, 4)));
    assert_eq!(a.distance_to(a), 0);
}

#[test]
fn directions_step_to_neighbours() {
    for i in 0..6u8 {
        let d = EdgeDirection::from_index(i);
        let h = d.into_hex();
        let e = hexx::EdgeDirection::ALL_DIRECTIONS[i as usize].into_hex();
        assert_eq!((h.x, h.y), (e.x, e.y));
        assert_eq!(d.rotate_cw(7).index(), (i + 1) % 6);
    }
    assert_eq!(EdgeDirection::from_index(9).index(), 3);
}

#[test]
fn child_transforms_follow_the_parent() {
    let parent = xf("town", 10, 5, 1);
    let child = xf("ignored", 1, 0, 2);
    let g = global_transform(Some(&parent), &child);
    assert_eq!(g.map, "town");
    assert_eq!(g.coords, Hex::new(10, 6));
    assert_eq!(g.facing.index(), 3);
    let root = global_transform(None, &child);
    assert_eq!(root.map, "ignored");
    assert_eq!(root.coords, child.coords);
}

#[test]
fn composition_is_associative() {
    let a = xf("m", 3, -1, 4);
    let b = xf("m", -2, 5, 5);
    let c = xf("m", 1, 1, 3);
    let left = global_transform(Some(&global_transform(Some(&a), &b)), &c);
    let right = global_transform(Some(&a), &global_transform(Some(&b), &c));
    assert_eq!(left.coords, right.coords);
    assert_eq!(left.facing.index(), right.facing.index());
}

#[test]
fn radii_double_after_the_first() {
    let cfg = MapConfig::default();
    assert_eq!(cfg.radii(), vec![(0, 0), (1, 4), (2, 8), (3, 16), (4, 32)]);
    let cfg = MapConfig { init_res_power: 3, extra_resolutions: 2 };
    assert_eq!(cfg.radii(), vec![(0, 0), (1, 3), (2, 6)]);
}

#[test]
fn resolutions_use_hexx_chunks() {
    let cfg = MapConfig::default();
    let h = Hex::new(23, 45);
    assert!(cfg.supports(h));
    let res = cfg.hex_resolutions(h);
    assert_eq!(res.len(), 5);
    for (i, c) in res.iter() {
        let r = cfg.radius(*i);
        let e = hexx::Hex::new(23, 45).to_lower_res(r);
        assert_eq!((c.x, c.y), (e.x, e.y));
    }
    assert_ne!(res[1].1, h);
    assert!(!cfg.supports(Hex::new(i32::MAX, 0)));
}

#[test]
fn index_tracks_adds_moves_and_removes() {
    let cfg = MapConfig::default();
    let mut ents = Entities::new(cfg);
    let a = xf("m", 0, 0, 0);
    ents.add_entity(7, &a);
    ents.add_entity(8, &a);
    ents.add_entity(7, &a);
    assert_eq!(ents.iter_at(Hex::new(0, 0), 0), vec![7, 8]);
    for (i, c) in cfg.hex_resolutions(Hex::new(0, 0)) {
        assert!(ents.iter_at(c, i).contains(&7));
    }
    let b = xf("m", 3, 0, 2);
    ents.move_entity(7, &b);
    assert_eq!(ents.iter_at(Hex::new(0, 0), 0), vec![8]);
    assert_eq!(ents.iter_at(Hex::new(3, 0), 0), vec![7]);
    assert_eq!(ents.transform_of(7).unwrap().coords, Hex::new(3, 0));
    let removed = ents.remove_entity(7).unwrap();
    assert_eq!(removed.coords, Hex::new(3, 0));
    assert!(ents.iter_at(Hex::new(3, 0), 0).is_empty());
    assert!(ents.remove_entity(7).is_none());
    for (i, c) in cfg.hex_resolutions(Hex::new(3, 0)) {
        assert!(!ents.iter_at(c, i).contains(&7));
    }
}

#[test]
fn find_within_looks_around_the_chunk() {
    let cfg = MapConfig::default();
    let mut ents = Entities::new(cfg);
    ents.add_entity(1, &xf("m", 0, 0, 0));
    ents.add_entity(2, &xf("m", 2, 1, 0));
    ents.add_entity(3, &xf("m", 200, 0, 0));
    let found = ents.find_within(Hex::new(0, 0), 9);
    let ids: Vec<u64> = found.iter().map(|(e, _)| *e).collect();
    assert!(ids.contains(&1));
    assert!(ids.contains(&2));
    assert!(!ids.contains(&3));
    assert!(ents.find_within(Hex::new(0, 0), 1000).is_empty());
}

#[test]
fn maps_are_found_by_name() {
    let mut maps = Maps::new();
    maps.add_map("town".to_string(), 5);
    assert_eq!(maps.lookup("town"), Some(5));
    assert_eq!(maps.lookup("forest"), None);
    maps.remove_map(5);
    assert_eq!(maps.lookup("town"), None);
}

#[test]
fn map_set_moves_entities_between_maps() {
    let mut set = MapSet::new();
    set.map_added(100, "town".to_string(), MapConfig::default());
    set.map_added(200, "forest".to_string(), MapConfig::default());
    let a = xf("town", 1, 1, 0);
    assert!(set.add_entity(9, &a));
    let b = xf("forest", 0, 0, 0);
    assert!(set.move_entity(9, &a, &b));
    assert!(!set.move_entity(9, &b, &b));
    let c = xf("nowhere", 0, 0, 0);
    assert!(!set.add_entity(9, &c));
    assert_eq!(set.maps().lookup("forest"), Some(200));
}

#[test]
fn moves_redraw_nearby_widgets() {
    let mut set = MapSet::new();
    set.map_added(100, "town".to_string(), MapConfig::default());
    set.add_entity(1, &xf("town", 0, 0, 0));
    set.add_entity(2, &xf("town", 5, 0, 0));
    set.add_entity(3, &xf("town", 20, 0, 0));
    set.add_entity(4, &xf("town", 1, 1, 0));
    let moved = vec![Moved { entity: 4, prev: xf("town", 1, 1, 0), new: Some(xf("town", 2, 1, 0)) }];
    let widgets = vec![1, 2, 3];
    let mut out = render_requests(&set, &moved, &widgets, &vec![4]);
    out.sort();
    assert_eq!(out, vec![1, 2]);
    let out = render_requests(&set, &moved, &widgets, &vec![]);
    assert!(out.is_empty());
    let moved = vec![Moved { entity: 1, prev: xf("town", 0, 0, 0), new: None }];
    assert_eq!(render_requests(&set, &moved, &widgets, &vec![]), vec![1]);
}
