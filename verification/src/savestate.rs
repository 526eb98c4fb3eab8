//! Reconciling the entities of a saved-entity asset with the world when the
//! asset is (re)loaded.
//!
//! A saved entity is written into the world through a mapping from the
//! entities of the saved scene to world entities. The root of the saved
//! scene is the placeholder entity, mapped to the entity that carries the
//! asset. Scene entities that were mapped on the previous load keep their
//! world entity; those that are gone from the scene leave stale world
//! entities behind, which are then despawned.

use std::collections::HashMap;
use crate::db::keys_of;
use vstd::prelude::*;
use vstd::std_specs::hash::*;

verus! {

broadcast use vstd::std_specs::hash::group_hash_axioms;

/// The bits of the placeholder entity that stands for the root of a saved
/// scene: index `u32::MAX`, generation 1.
pub const PLACEHOLDER: u64 = 0x1_ffff_ffff;

/// The mapping to write a scene with entities `scene` under: the
/// placeholder leads to `target`, and every scene entity that `current`
/// maps keeps its world entity.
pub open spec fn initial_mapping_spec(current: Map<u64, u64>, scene: Seq<u64>, target: u64) -> Map<u64, u64> {
    Map::new(
        |k: u64| k == PLACEHOLDER || (scene.contains(k) && current.contains_key(k)),
        |k: u64|
            if scene.contains(k) && current.contains_key(k) {
                current[k]
            } else {
                target
            },
    )
}

/// The mapping that a scene with entities `scene` is written under, for
/// the entity `target` that holds the asset, given the mapping `current`
/// of the previous load.
pub fn initial_mapping(current: &HashMap<u64, u64>, scene: &Vec<u64>, target: u64) -> (m: HashMap<u64, u64>)
    ensures
        m@ == initial_mapping_spec(current@, scene@, target),
{
    let mut m: HashMap<u64, u64> = HashMap::new();
    m.insert(PLACEHOLDER, target);
    let mut i: usize = 0;
    while i < scene.len()
        invariant
            i <= scene@.len(),
            m@ == initial_mapping_spec(current@, scene@.take(i as int), target),
        decreases scene@.len() - i,
    {
        let e = scene[i];
        let ghost before = m@;
        match current.get(&e) {
            Some(t) => {
                m.insert(e, *t);
            },
            None => {},
        }
        proof {
            let s0 = scene@.take(i as int);
            let s1 = scene@.take(i + 1);
            assert(s1 =~= s0.push(e));
            assert forall|k: u64| #[trigger] s1.contains(k) == (s0.contains(k) || k == e) by {
                if s1.contains(k) {
                    let j = choose|j: int| 0 <= j < s1.len() && s1[j] == k;
                    if j < i {
                        assert(s0[j] == k);
                    }
                }
                if s0.contains(k) {
                    let j = choose|j: int| 0 <= j < s0.len() && s0[j] == k;
                    assert(s1[j] == k);
                }
                if k == e {
                    assert(s1[i as int] == k);
                }
            }
            assert(m@ =~= initial_mapping_spec(current@, s1, target));
        }
        i = i + 1;
    }
    proof {
        assert(scene@.take(scene@.len() as int) =~= scene@);
    }
    m
}

/// The world entities of `current` whose scene entity `next` no longer
/// maps: the entities a reload leaves behind.
pub open spec fn is_stale(current: Map<u64, u64>, next: Map<u64, u64>, w: u64) -> bool {
    exists|k: u64| #[trigger] current.contains_key(k) && !next.contains_key(k) && current[k] == w
}

/// The world entities left behind when the mapping `current` of the last
/// load is replaced by `next`, each once per scene entity that led to it.
pub fn stale_entities(current: &HashMap<u64, u64>, next: &HashMap<u64, u64>) -> (stale: Vec<u64>)
    ensures
        forall|w: u64| #[trigger] stale@.contains(w) == is_stale(current@, next@, w),
{
    let keys = keys_of(current);
    let mut stale: Vec<u64> = Vec::new();
    let mut i: usize = 0;
    while i < keys.len()
        invariant
            i <= keys@.len(),
            keys@.to_set() == current@.dom(),
            forall|w: u64| #[trigger] stale@.contains(w) == (exists|j: int|
                0 <= j < i && !next@.contains_key(keys@[j]) && current@[keys@[j]] == w),
        decreases keys@.len() - i,
    {
        let k = keys[i];
        proof {
            assert(keys@.contains(k));
            assert(keys@.to_set().contains(k));
        }
        let ghost before = stale@;
        if !next.contains_key(&k) {
            match current.get(&k) {
                Some(w) => stale.push(*w),
                None => {},
            }
        }
        proof {
            assert forall|w: u64| #[trigger] stale@.contains(w) == (exists|j: int|
                0 <= j < i + 1 && !next@.contains_key(keys@[j]) && current@[keys@[j]] == w) by {
                if stale@.contains(w) {
                    let j = choose|j: int| 0 <= j < stale@.len() && stale@[j] == w;
                    if j < before.len() {
                        assert(before[j] == w);
                        assert(before.contains(w));
                    } else {
                        assert(keys@[i as int] == k);
                    }
                }
                if exists|j: int| 0 <= j < i + 1 && !next@.contains_key(keys@[j]) && current@[keys@[j]] == w {
                    let j = choose|j: int| 0 <= j < i + 1 && !next@.contains_key(keys@[j]) && current@[keys@[j]] == w;
                    if j < i {
                        assert(before.contains(w));
                        let jj = choose|jj: int| 0 <= jj < before.len() && before[jj] == w;
                        assert(stale@[jj] == w);
                    } else {
                        assert(stale@[before.len() as int] == w);
                    }
                }
            }
        }
        i = i + 1;
    }
    proof {
        assert forall|w: u64| #[trigger] stale@.contains(w) == is_stale(current@, next@, w) by {
            if stale@.contains(w) {
                let j = choose|j: int| 0 <= j < keys@.len() && !next@.contains_key(keys@[j]) && current@[keys@[j]] == w;
                assert(keys@.to_set().contains(keys@[j]));
                assert(current@.contains_key(keys@[j]));
            }
            if is_stale(current@, next@, w) {
                let k = choose|k: u64| #[trigger] current@.contains_key(k) && !next@.contains_key(k) && current@[k] == w;
                assert(current@.dom().contains(k));
                assert(keys@.to_set().contains(k));
                let j = choose|j: int| 0 <= j < keys@.len() && keys@[j] == k;
                assert(!next@.contains_key(keys@[j]) && current@[keys@[j]] == w);
            }
        }
    }
    stale
}

/// What a reload ends with: the mapping kept for the next load and the
/// world entities left behind. When the scene was written, `written` holds
/// the mapping the write ended with; that mapping is kept and the entities
/// it no longer reaches are left behind. When the write failed (`None`),
/// the previous mapping is kept and nothing is left behind.
pub fn reload_result(current: HashMap<u64, u64>, written: Option<HashMap<u64, u64>>) -> (r: (
    HashMap<u64, u64>,
    Vec<u64>,
))
    ensures
        match written {
            Some(next) => r.0@ == next@ && forall|w: u64| #[trigger] r.1@.contains(w) == is_stale(current@, next@, w),
            None => r.0@ == current@ && r.1@.len() == 0,
        },
{
    match written {
        Some(next) => {
            let stale = stale_entities(&current, &next);
            (next, stale)
        },
        None => (current, Vec::new()),
    }
}

/// A reload never leaves behind an entity that a scene entity still in the
/// scene was mapped to: the world entity of every scene entity that
/// `current` maps and that remains in the scene is carried over, so it is
/// not stale unless another, removed scene entity also led to it.
pub proof fn lemma_kept_not_stale(current: Map<u64, u64>, scene: Seq<u64>, target: u64, next: Map<u64, u64>, k: u64)
    requires
        forall|x: u64| #[trigger] initial_mapping_spec(current, scene, target).contains_key(x) ==> next.contains_key(x),
        scene.contains(k),
        current.contains_key(k),
    ensures
        initial_mapping_spec(current, scene, target).contains_key(k),
        initial_mapping_spec(current, scene, target)[k] == current[k],
        next.contains_key(k),
{
    assert(initial_mapping_spec(current, scene, target).contains_key(k));
}

} // verus!
