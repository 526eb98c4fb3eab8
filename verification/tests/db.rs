use std::collections::HashMap;

use canton::db::{delete_query, DbEntity, DbEntityMap};
use canton::savestate::{initial_mapping, reload_result, stale_entities, PLACEHOLDER};

#[test]
fn database_ids_round_trip() {
    for id in [0i64, 1, 7, 4294967295, 4294967296, -1 - 4294967296 * 2, i64::MAX, i64::MIN] {
        let e = DbEntity::from_index(id);
        assert_eq!(e.to_index(), id);
        assert!(e.to_bits() >> 32 >= 1);
    }
    let e = DbEntity::from_index(5);
    assert_eq!(e.to_bits(), (1u64 << 32) | 5);
    let e = DbEntity::from_index((3i64 << 32) | 9);
    assert_eq!(e.to_bits(), (4u64 << 32) | 9);
}

#[test]
fn entities_round_trip_through_ids() {
    let e = DbEntity::from_bits((12u64 << 32) | 77);
    assert_eq!(DbEntity::from_index(e.to_index()), e);
}

#[test]
fn mappings_go_both_ways() {
    let mut m = DbEntityMap::new();
    assert_eq!(m.add_db_mapping(10, 20), None);
    assert_eq!(m.db_entity(20), Some(10));
    assert_eq!(m.world_entity(10), Some(20));
    assert_eq!(m.remove_db_mapping(20), Some(10));
    assert_eq!(m.db_entity(20), None);
    assert_eq!(m.world_entity(10), None);
    assert_eq!(m.remove_db_mapping(20), None);
}

#[test]
fn remapping_clears_the_old_world_entity() {
    let mut m = DbEntityMap::new();
    m.add_db_mapping(10, 20);
    assert_eq!(m.add_db_mapping(10, 30), Some(20));
    assert_eq!(m.db_entity(20), None);
    assert_eq!(m.db_entity(30), Some(10));
    assert_eq!(m.remove_db_mapping(20), None);
    assert_eq!(m.world_entity(10), Some(30));
    assert_eq!(m.add_db_mapping(10, 30), Some(30));
    assert_eq!(m.db_entity(30), None);
}

#[test]
fn loaded_entities_get_reverse_mappings() {
    let mut m = DbEntityMap::new();
    m.add_db_mapping(1, 100);
    m.add_db_mapping(2, 200);
    m.remove_db_mapping(200);
    m.add_db_mapping(3, 300);
    m.remove_db_mapping(300);
    m.add_db_mapping(3, 300);
    let fresh = m.new_mapped_entities();
    assert!(fresh.is_empty());
    m.record_loaded(7, 700);
    m.record_loaded(8, 800);
    let mut fresh = m.new_mapped_entities();
    fresh.sort();
    assert_eq!(fresh, vec![(7, 700), (8, 800)]);
    assert_eq!(m.db_entity(700), Some(7));
    assert!(m.new_mapped_entities().is_empty());
    assert_eq!(m.db_entity(100), Some(1));
    assert_eq!(m.db_entity(300), Some(3));
    assert_eq!(m.world_entity(2), None);
}

#[test]
fn delete_statement_lists_the_ids() {
    assert_eq!(delete_query(&vec![]), None);
    assert_eq!(delete_query(&vec![4]).unwrap(), "DELETE FROM entity WHERE id IN (4)");
    assert_eq!(delete_query(&vec![4, -2, 17]).unwrap(), "DELETE FROM entity WHERE id IN (4,-2,17)");
}

#[test]
fn reload_keeps_mapped_scene_entities() {
    let mut current = HashMap::new();
    current.insert(PLACEHOLDER, 50u64);
    current.insert(1u64, 51u64);
    current.insert(2u64, 52u64);
    let scene = vec![PLACEHOLDER, 1, 3];
    let m = initial_mapping(&current, &scene, 50);
    assert_eq!(m.len(), 2);
    assert_eq!(m.get(&PLACEHOLDER), Some(&50));
    assert_eq!(m.get(&1), Some(&51));
    assert_eq!(m.get(&3), None);

    let mut next = m.clone();
    next.insert(3, 53);
    let stale = stale_entities(&current, &next);
    assert_eq!(stale, vec![52]);
}

#[test]
fn first_load_maps_the_placeholder_to_the_holder() {
    let current = HashMap::new();
    let m = initial_mapping(&current, &vec![PLACEHOLDER, 4], 9);
    assert_eq!(m.len(), 1);
    assert_eq!(m.get(&PLACEHOLDER), Some(&9));
    assert!(stale_entities(&current, &m).is_empty());
}

#[test]
fn failed_scene_write_keeps_the_old_mapping() {
    let mut current = std::collections::HashMap::new();
    current.insert(1u64, 10u64);
    current.insert(2u64, 20u64);
    let (kept, stale) = reload_result(current.clone(), None);
    assert_eq!(kept, current);
    assert!(stale.is_empty());
    let mut next = std::collections::HashMap::new();
    next.insert(1u64, 10u64);
    let (kept, stale) = reload_result(current, Some(next.clone()));
    assert_eq!(kept, next);
    assert_eq!(stale, vec![20]);
}
