//! The bookkeeping of entities stored in the database: the database id of
//! an entity, the two-way mapping between database entities and world
//! entities, and the statement that deletes stored entities.

use std::collections::HashMap;
use crate::text::{i64_to_string, signed_decimal_string};
use vstd::prelude::*;
use vstd::std_specs::hash::*;

verus! {

broadcast use vstd::std_specs::hash::group_hash_axioms;

/// `2^32`, the factor between the generation and the index of an entity.
pub open spec fn shift() -> int {
    0x1_0000_0000
}

/// The unsigned 64 bits of a database id.
pub open spec fn id_bits(id: int) -> int {
    if id < 0 {
        id + 0x1_0000_0000_0000_0000
    } else {
        id
    }
}

/// Whether a database id names an entity: its upper 32 bits are not all
/// ones, so that the generation (one more than them) fits in 32 bits.
pub open spec fn valid_index(id: int) -> bool {
    id_bits(id) / shift() < 0xffff_ffff
}

/// An entity of the database's world: the bits of an entity whose
/// generation, in the upper 32 bits, is at least 1.
#[derive(Clone, Copy, Debug, PartialEq, Eq, Structural, Hash)]
pub struct DbEntity {
    bits: u64,
}

impl DbEntity {
    /// The bits of the entity.
    pub closed spec fn spec_bits(self) -> int {
        self.bits as int
    }

    /// The generation of the entity.
    pub open spec fn generation(self) -> int {
        self.spec_bits() / shift()
    }

    /// The index of the entity.
    pub open spec fn index(self) -> int {
        self.spec_bits() % shift()
    }

    /// Whether the entity has a generation, as every entity has.
    pub open spec fn valid(self) -> bool {
        self.generation() >= 1
    }

    /// The entity with these bits.
    pub fn from_bits(bits: u64) -> (e: DbEntity)
        requires
            bits as int / shift() >= 1,
        ensures
            e.spec_bits() == bits,
            e.valid(),
    {
        DbEntity { bits }
    }

    /// The bits of the entity.
    pub fn to_bits(self) -> (b: u64)
        ensures
            b == self.spec_bits(),
    {
        self.bits
    }

    /// The entity stored under database id `id`: the id's lower 32 bits
    /// are the index, its upper 32 bits one less than the generation.
    pub fn from_index(id: i64) -> (e: DbEntity)
        requires
            valid_index(id as int),
        ensures
            e.valid(),
            e.index() == id_bits(id as int) % shift(),
            e.generation() == id_bits(id as int) / shift() + 1,
    {
        let bits: u64 = if id < 0 {
            ((id - i64::MIN) as u64) + 9223372036854775808u64
        } else {
            id as u64
        };
        let index = bits % 4294967296u64;
        let generation = bits / 4294967296u64 + 1;
        assert(generation * 4294967296u64 + index <= u64::MAX) by (nonlinear_arith)
            requires
                generation <= 0xffff_ffff,
                index < 4294967296u64,
        ;
        let e = DbEntity { bits: generation * 4294967296u64 + index };
        proof {
            lemma_split(generation as int, index as int);
        }
        e
    }

    /// The database id of the entity.
    pub fn to_index(self) -> (id: i64)
        requires
            self.valid(),
        ensures
            id_bits(id as int) == (self.generation() - 1) * shift() + self.index(),
    {
        let g = self.bits / 4294967296u64;
        let i = self.bits % 4294967296u64;
        assert((g - 1) * 4294967296u64 + i <= u64::MAX) by (nonlinear_arith)
            requires
                1 <= g <= 0xffff_ffff,
                i < 4294967296u64,
        ;
        let bits = (g - 1) * 4294967296u64 + i;
        if bits > 9223372036854775807u64 {
            ((bits - 9223372036854775808u64) as i64) + i64::MIN
        } else {
            bits as i64
        }
    }
}

proof fn lemma_split(g: int, i: int)
    requires
        0 <= i < shift(),
        0 <= g,
    ensures
        (g * shift() + i) / shift() == g,
        (g * shift() + i) % shift() == i,
{
    assert((g * shift() + i) / shift() == g) by (nonlinear_arith)
        requires
            0 <= i < shift(),
            0 <= g,
    ;
    assert((g * shift() + i) % shift() == i) by (nonlinear_arith)
        requires
            0 <= i < shift(),
            0 <= g,
    ;
}

/// Storing and loading give back the same id: the entity made from a
/// database id has that id.
pub proof fn lemma_index_roundtrip(id: int, e: DbEntity)
    requires
        i64::MIN <= id <= i64::MAX,
        valid_index(id),
        e.index() == id_bits(id) % shift(),
        e.generation() == id_bits(id) / shift() + 1,
    ensures
        (e.generation() - 1) * shift() + e.index() == id_bits(id),
{
    let b = id_bits(id);
    assert(b == (b / shift()) * shift() + b % shift()) by (nonlinear_arith)
        requires
            0 <= b,
    ;
}

/// The other way round: the entity stored under the id of an entity is
/// that entity.
pub proof fn lemma_entity_roundtrip(e: DbEntity, id: int, f: DbEntity)
    requires
        e.valid(),
        id_bits(id) == (e.generation() - 1) * shift() + e.index(),
        0 <= e.spec_bits() <= u64::MAX,
        f.index() == id_bits(id) % shift(),
        f.generation() == id_bits(id) / shift() + 1,
    ensures
        f.generation() == e.generation(),
        f.index() == e.index(),
{
    let g = e.generation() - 1;
    let i = e.index();
    assert(0 <= i < shift()) by (nonlinear_arith)
        requires
            i == e.spec_bits() % shift(),
    ;
    lemma_split(g, i);
}

/// Whether one of the first `n` keys maps to `w` in `m`.
pub open spec fn reached(keys: Seq<u64>, m: Map<u64, u64>, n: int, w: u64) -> bool {
    exists|j: int| 0 <= j < n && m[keys[j]] == w
}

/// The two-way mapping between world entities and database entities,
/// both written as entity bits.
pub struct DbEntityMap {
    world_to_db: HashMap<u64, u64>,
    db_to_world: HashMap<u64, u64>,
}

impl DbEntityMap {
    /// The database entity of each world entity.
    pub closed spec fn to_db(&self) -> Map<u64, u64> {
        self.world_to_db@
    }

    /// The world entity of each database entity.
    pub closed spec fn to_world(&self) -> Map<u64, u64> {
        self.db_to_world@
    }

    /// An empty mapping.
    pub fn new() -> (m: DbEntityMap)
        ensures
            m.to_db() == Map::<u64, u64>::empty(),
            m.to_world() == Map::<u64, u64>::empty(),
    {
        DbEntityMap { world_to_db: HashMap::new(), db_to_world: HashMap::new() }
    }

    /// The database entity that `world_entity` is stored as.
    pub fn db_entity(&self, world_entity: u64) -> (r: Option<u64>)
        ensures
            r == (if self.to_db().contains_key(world_entity) {
                Some(self.to_db()[world_entity])
            } else {
                None::<u64>
            }),
    {
        match self.world_to_db.get(&world_entity) {
            Some(d) => Some(*d),
            None => None,
        }
    }

    /// The world entity that `db_entity` is loaded as.
    pub fn world_entity(&self, db_entity: u64) -> (r: Option<u64>)
        ensures
            r == (if self.to_world().contains_key(db_entity) {
                Some(self.to_world()[db_entity])
            } else {
                None::<u64>
            }),
    {
        match self.db_to_world.get(&db_entity) {
            Some(w) => Some(*w),
            None => None,
        }
    }

    /// Maps `db_entity` and `world_entity` to each other. The world entity
    /// that `db_entity` was mapped to before, if any, is returned, and its
    /// own mapping to a database entity is cleared, so that removing it
    /// later does not remove the new mapping.
    pub fn add_db_mapping(&mut self, db_entity: u64, world_entity: u64) -> (prev: Option<u64>)
        ensures
            final(self).to_world() == old(self).to_world().insert(db_entity, world_entity),
            prev == (if old(self).to_world().contains_key(db_entity) {
                Some(old(self).to_world()[db_entity])
            } else {
                None::<u64>
            }),
            final(self).to_db() == match prev {
                Some(p) => old(self).to_db().insert(world_entity, db_entity).remove(p),
                None => old(self).to_db().insert(world_entity, db_entity),
            },
    {
        let prev = self.db_to_world.insert(db_entity, world_entity);
        self.world_to_db.insert(world_entity, db_entity);
        match prev {
            Some(p) => {
                self.world_to_db.remove(&p);
            },
            None => {},
        }
        prev
    }

    /// Forgets the mapping of `world_entity`, both ways, and gives back the
    /// database entity it was mapped to.
    pub fn remove_db_mapping(&mut self, world_entity: u64) -> (r: Option<u64>)
        ensures
            final(self).to_db() == old(self).to_db().remove(world_entity),
            r == (if old(self).to_db().contains_key(world_entity) {
                Some(old(self).to_db()[world_entity])
            } else {
                None::<u64>
            }),
            match r {
                Some(d) => final(self).to_world() == old(self).to_world().remove(d),
                None => final(self).to_world() == old(self).to_world(),
            },
    {
        let ghost before = self.to_db();
        match self.world_to_db.remove(&world_entity) {
            Some(d) => {
                self.db_to_world.remove(&d);
                Some(d)
            },
            None => {
                assert(self.to_db() =~= before.remove(world_entity));
                None
            },
        }
    }

    /// Records that loading database entity `db_entity` put it into the
    /// world as `world_entity`: the database side of the mapping only, as
    /// writing a scene to the world fills it.
    pub fn record_loaded(&mut self, db_entity: u64, world_entity: u64)
        ensures
            final(self).to_world() == old(self).to_world().insert(db_entity, world_entity),
            final(self).to_db() == old(self).to_db(),
    {
        self.db_to_world.insert(db_entity, world_entity);
    }

    /// After entities were loaded into the world (which fills the database
    /// side of the mapping), maps each world entity that the database side
    /// leads to back to a database entity that leads to it. Gives back the
    /// pairs whose world entity had no mapping before, one per such world
    /// entity.
    pub fn new_mapped_entities(&mut self) -> (out: Vec<(u64, u64)>)
        ensures
            final(self).to_world() == old(self).to_world(),
            forall|w: u64| #[trigger]
                final(self).to_db().contains_key(w) <==> (old(self).to_db().contains_key(w)
                    || old(self).to_world().values().contains(w)),
            forall|w: u64|
                old(self).to_world().values().contains(w) ==> #[trigger] old(self).to_world().contains_key(
                    final(self).to_db()[w],
                ) && old(self).to_world()[final(self).to_db()[w]] == w,
            forall|w: u64|
                old(self).to_db().contains_key(w) && !old(self).to_world().values().contains(w)
                    ==> #[trigger] final(self).to_db()[w] == old(self).to_db()[w],
            forall|k: int|
                0 <= k < out@.len() ==> old(self).to_world().contains_key(#[trigger] out@[k].0)
                    && old(self).to_world()[out@[k].0] == out@[k].1 && !old(self).to_db().contains_key(out@[k].1),
            forall|w: u64|
                old(self).to_world().values().contains(w) && !old(self).to_db().contains_key(w)
                    ==> exists|k: int| 0 <= k < out@.len() && #[trigger] out@[k].1 == w,
            forall|k1: int, k2: int| 0 <= k1 < k2 < out@.len() ==> #[trigger] out@[k1].1 != #[trigger] out@[k2].1,
    {
        let ghost w2d = self.world_to_db@;
        let ghost d2w = self.db_to_world@;
        let keys = keys_of(&self.db_to_world);
        let mut out: Vec<(u64, u64)> = Vec::new();
        let mut i: usize = 0;
        while i < keys.len()
            invariant
                i <= keys@.len(),
                self.db_to_world@ == d2w,
                keys@.to_set() == d2w.dom(),
                forall|w: u64| #[trigger]
                    self.world_to_db@.contains_key(w) <==> (w2d.contains_key(w) || reached(keys@, d2w, i as int, w)),
                forall|w: u64| #[trigger]
                    reached(keys@, d2w, i as int, w) ==> d2w.contains_key(self.world_to_db@[w])
                        && d2w[self.world_to_db@[w]] == w,
                forall|w: u64|
                    w2d.contains_key(w) && !reached(keys@, d2w, i as int, w)
                        ==> #[trigger] self.world_to_db@[w] == w2d[w],
                forall|k: int|
                    0 <= k < out@.len() ==> d2w.contains_key(#[trigger] out@[k].0) && d2w[out@[k].0] == out@[k].1
                        && !w2d.contains_key(out@[k].1) && reached(keys@, d2w, i as int, out@[k].1),
                forall|w: u64|
                    reached(keys@, d2w, i as int, w) && !w2d.contains_key(w)
                        ==> exists|k: int| 0 <= k < out@.len() && #[trigger] out@[k].1 == w,
                forall|k1: int, k2: int| 0 <= k1 < k2 < out@.len() ==> #[trigger] out@[k1].1 != #[trigger] out@[k2].1,
            decreases keys@.len() - i,
        {
            let d = keys[i];
            proof {
                assert(keys@.contains(d));
                assert(keys@.to_set().contains(d));
            }
            let w = match self.db_to_world.get(&d) {
                Some(w) => *w,
                None => {
                    proof {
                        assert(false);
                    }
                    0
                },
            };
            let ghost out0 = out@;
            let had = self.world_to_db.insert(w, d);
            if had.is_none() {
                out.push((d, w));
            }
            proof {
                assert forall|x: u64| #[trigger] reached(keys@, d2w, i + 1, x) == (reached(keys@, d2w, i as int, x) || x == w) by {
                    if x == w {
                        assert(keys@[i as int] == d);
                    }
                    if reached(keys@, d2w, i + 1, x) {
                        let j = choose|j: int| 0 <= j < i + 1 && d2w[keys@[j]] == x;
                        if j == i {
                            assert(x == w);
                        }
                    }
                }
                assert forall|k: int|
                    0 <= k < out@.len() implies d2w.contains_key(#[trigger] out@[k].0) && d2w[out@[k].0] == out@[k].1
                        && !w2d.contains_key(out@[k].1) && reached(keys@, d2w, i + 1, out@[k].1) by {
                    if k < out0.len() {
                        assert(out@[k] == out0[k]);
                    }
                }
                assert forall|x: u64|
                    reached(keys@, d2w, i + 1, x) && !w2d.contains_key(x)
                        implies exists|k: int| 0 <= k < out@.len() && #[trigger] out@[k].1 == x by {
                    if reached(keys@, d2w, i as int, x) {
                        let k = choose|k: int| 0 <= k < out0.len() && #[trigger] out0[k].1 == x;
                        assert(out@[k] == out0[k]);
                    } else {
                        assert(x == w);
                        assert(out@[out@.len() - 1].1 == x);
                    }
                }
                assert forall|k1: int, k2: int| 0 <= k1 < k2 < out@.len() implies #[trigger] out@[k1].1 != #[trigger] out@[k2].1 by {
                    if k2 < out0.len() {
                        assert(out@[k1] == out0[k1] && out@[k2] == out0[k2]);
                    } else {
                        assert(out@[k1] == out0[k1]);
                        assert(d2w.contains_key(out0[k1].0));
                        assert(reached(keys@, d2w, i as int, out0[k1].1));
                    }
                }
            }
            i = i + 1;
        }
        proof {
            assert forall|w: u64| #[trigger] d2w.values().contains(w) == reached(keys@, d2w, keys@.len() as int, w) by {
                if d2w.values().contains(w) {
                    let d = choose|d: u64| #[trigger] d2w.contains_key(d) && d2w[d] == w;
                    assert(keys@.to_set().contains(d));
                    let j = choose|j: int| 0 <= j < keys@.len() && keys@[j] == d;
                    assert(d2w[keys@[j]] == w);
                }
                if reached(keys@, d2w, keys@.len() as int, w) {
                    let j = choose|j: int| 0 <= j < keys@.len() && d2w[keys@[j]] == w;
                    assert(keys@.to_set().contains(keys@[j]));
                    assert(d2w.contains_key(keys@[j]));
                }
            }
        }
        out
    }
}

/// A new mapping works both ways: after `add_db_mapping(d, w)` the
/// database entity `d` leads to `w` and `w` leads back to `d`, unless `d`
/// was already mapped to `w` (re-adding the same pair clears it).
pub proof fn lemma_add_mapping_both_ways(
    before_world: Map<u64, u64>,
    before_db: Map<u64, u64>,
    d: u64,
    w: u64,
    prev: Option<u64>,
    after_world: Map<u64, u64>,
    after_db: Map<u64, u64>,
)
    requires
        after_world == before_world.insert(d, w),
        prev == (if before_world.contains_key(d) {
            Some(before_world[d])
        } else {
            None::<u64>
        }),
        after_db == match prev {
            Some(p) => before_db.insert(w, d).remove(p),
            None => before_db.insert(w, d),
        },
        !(before_world.contains_key(d) && before_world[d] == w),
    ensures
        after_world.contains_key(d) && after_world[d] == w,
        after_db.contains_key(w) && after_db[w] == d,
{
}

/// The keys of `m`, in some order.
pub fn keys_of<V>(m: &HashMap<u64, V>) -> (keys: Vec<u64>)
    ensures
        keys@.to_set() == m@.dom(),
        keys@.no_duplicates(),
{
    let mut keys: Vec<u64> = Vec::new();
    for k in it: m.keys()
        invariant
            keys@ == it.seq().take(it.index() as int).unref(),
            it.seq().unref().to_set() == m@.dom(),
            it.seq().unref().no_duplicates(),
            it.seq().take(it.seq().len() as int).unref() == it.seq().unref(),
    {
        keys.push(*k);
    }
    keys
}

/// The statement that deletes the database entities with ids `ids`:
/// `DELETE FROM entity WHERE id IN (` the ids, separated by commas, `)`.
pub open spec fn delete_statement(ids: Seq<i64>) -> Seq<char> {
    "DELETE FROM entity WHERE id IN ("@ + id_list(ids) + ")"@
}

/// The decimal ids separated by commas.
pub open spec fn id_list(ids: Seq<i64>) -> Seq<char>
    decreases ids.len(),
{
    if ids.len() == 0 {
        Seq::empty()
    } else if ids.len() == 1 {
        signed_decimal_string(ids[0] as int)
    } else {
        id_list(ids.drop_last()) + ","@ + signed_decimal_string(ids.last() as int)
    }
}

/// The statement that deletes the entities with ids `ids`; none when there
/// is nothing to delete.
pub fn delete_query(ids: &Vec<i64>) -> (q: Option<String>)
    ensures
        match q {
            Some(s) => ids@.len() > 0 && s@ == delete_statement(ids@),
            None => ids@.len() == 0,
        },
{
    if ids.len() == 0 {
        return None;
    }
    let mut query = String::from_str("DELETE FROM entity WHERE id IN (");
    let ghost head = query@;
    let first = i64_to_string(ids[0]);
    query.append(first.as_str());
    let mut i: usize = 1;
    proof {
        assert(ids@.take(1).len() == 1);
        assert(id_list(ids@.take(1)) == signed_decimal_string(ids@[0] as int));
    }
    while i < ids.len()
        invariant
            1 <= i <= ids@.len(),
            query@ == head + id_list(ids@.take(i as int)),
        decreases ids@.len() - i,
    {
        query.append(",");
        let s = i64_to_string(ids[i]);
        query.append(s.as_str());
        proof {
            let t = ids@.take(i + 1);
            assert(t.drop_last() =~= ids@.take(i as int));
            assert(t.last() == ids@[i as int]);
            reveal_strlit(",");
            assert(query@ =~= head + id_list(t));
        }
        i = i + 1;
    }
    query.append(")");
    proof {
        assert(ids@.take(ids@.len() as int) =~= ids@);
        reveal_strlit("DELETE FROM entity WHERE id IN (");
        reveal_strlit(")");
        assert(query@ =~= delete_statement(ids@));
    }
    Some(query)
}

} // verus!
