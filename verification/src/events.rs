//! The bookkeeping of per-entity event readers: a reader is kept while its
//! entity's events are read, and dropped once they have gone unread through
//! two updates.

use std::collections::HashMap;
use crate::db::keys_of;
use vstd::prelude::*;
use vstd::std_specs::hash::*;

verus! {

broadcast use vstd::std_specs::hash::group_hash_axioms;

/// The remaining lifetime of each entity's reader, in updates.
pub struct ReaderAges {
    ages: HashMap<u64, u8>,
}

/// The lifetimes after one update: each reader at zero is dropped, the
/// others lose one.
pub open spec fn aged(ages: Map<u64, u8>) -> Map<u64, u8> {
    Map::new(
        |e: u64| ages.contains_key(e) && ages[e] > 0,
        |e: u64| (ages[e] - 1) as u8,
    )
}

impl ReaderAges {
    /// The lifetime of each entity's reader.
    pub closed spec fn ages(&self) -> Map<u64, u8> {
        self.ages@
    }

    /// No readers.
    pub fn new() -> (r: ReaderAges)
        ensures
            r.ages() == Map::<u64, u8>::empty(),
    {
        ReaderAges { ages: HashMap::new() }
    }

    /// Whether `entity` has a reader.
    pub fn has_reader(&self, entity: u64) -> (b: bool)
        ensures
            b == self.ages().contains_key(entity),
    {
        self.ages.contains_key(&entity)
    }

    /// Records that `entity`'s events were read: its reader (made now if
    /// it had none) lives through the next two updates.
    pub fn read(&mut self, entity: u64)
        ensures
            final(self).ages() == old(self).ages().insert(entity, 2),
    {
        self.ages.insert(entity, 2);
    }

    /// One update: drops the readers whose lifetime ran out and shortens
    /// the others. Gives back the entities whose readers were dropped.
    pub fn update(&mut self) -> (removed: Vec<u64>)
        ensures
            final(self).ages() == aged(old(self).ages()),
            forall|e: u64| #[trigger] removed@.contains(e) == (old(self).ages().contains_key(e)
                && old(self).ages()[e] == 0),
    {
        let ghost before = self.ages@;
        let keys = keys_of(&self.ages);
        let mut removed: Vec<u64> = Vec::new();
        let mut next: HashMap<u64, u8> = HashMap::new();
        let mut i: usize = 0;
        while i < keys.len()
            invariant
                i <= keys@.len(),
                self.ages@ == before,
                keys@.to_set() == before.dom(),
                keys@.no_duplicates(),
                forall|e: u64| #[trigger] next@.contains_key(e) == (exists|j: int|
                    0 <= j < i && keys@[j] == e && before[e] > 0),
                forall|e: u64| #[trigger] next@.contains_key(e) ==> next@[e] == (before[e] - 1) as u8,
                forall|e: u64| #[trigger] removed@.contains(e) == (exists|j: int|
                    0 <= j < i && keys@[j] == e && before[e] == 0),
            decreases keys@.len() - i,
        {
            let e = keys[i];
            proof {
                assert(keys@.contains(e));
                assert(keys@.to_set().contains(e));
            }
            let age = match self.ages.get(&e) {
                Some(a) => *a,
                None => {
                    proof {
                        assert(false);
                    }
                    0
                },
            };
            let ghost rem0 = removed@;
            if age == 0 {
                removed.push(e);
            } else {
                next.insert(e, age - 1);
            }
            proof {
                assert forall|x: u64| #[trigger] removed@.contains(x) == (exists|j: int|
                    0 <= j < i + 1 && keys@[j] == x && before[x] == 0) by {
                    if removed@.contains(x) {
                        let k = choose|k: int| 0 <= k < removed@.len() && removed@[k] == x;
                        if k < rem0.len() {
                            assert(rem0[k] == x);
                            assert(rem0.contains(x));
                        }
                    }
                    if exists|j: int| 0 <= j < i + 1 && keys@[j] == x && before[x] == 0 {
                        let j = choose|j: int| 0 <= j < i + 1 && keys@[j] == x && before[x] == 0;
                        if j < i {
                            assert(rem0.contains(x));
                            let k = choose|k: int| 0 <= k < rem0.len() && rem0[k] == x;
                            assert(removed@[k] == x);
                        } else {
                            assert(removed@[removed@.len() - 1] == x);
                        }
                    }
                }
                assert forall|x: u64| #[trigger] next@.contains_key(x) == (exists|j: int|
                    0 <= j < i + 1 && keys@[j] == x && before[x] > 0) by {
                    if exists|j: int| 0 <= j < i + 1 && keys@[j] == x && before[x] > 0 {
                        let j = choose|j: int| 0 <= j < i + 1 && keys@[j] == x && before[x] > 0;
                        if j == i {
                            assert(x == e);
                        }
                    }
                }
            }
            i = i + 1;
        }
        self.ages = next;
        proof {
            assert forall|e: u64| #[trigger] self.ages@.contains_key(e) == aged(before).contains_key(e) by {
                if aged(before).contains_key(e) {
                    assert(before.dom().contains(e));
                    assert(keys@.to_set().contains(e));
                    let j = choose|j: int| 0 <= j < keys@.len() && keys@[j] == e;
                    assert(keys@[j] == e);
                }
                if self.ages@.contains_key(e) {
                    let j = choose|j: int| 0 <= j < keys@.len() && keys@[j] == e && before[e] > 0;
                    assert(keys@.to_set().contains(keys@[j]));
                }
            }
            assert(self.ages@ =~= aged(before));
            assert forall|e: u64| #[trigger] removed@.contains(e) == (before.contains_key(e)
                && before[e] == 0) by {
                if before.contains_key(e) && before[e] == 0 {
                    assert(keys@.to_set().contains(e));
                    let j = choose|j: int| 0 <= j < keys@.len() && keys@[j] == e;
                    assert(keys@[j] == e);
                }
                if removed@.contains(e) {
                    let j = choose|j: int| 0 <= j < keys@.len() && keys@[j] == e && before[e] == 0;
                    assert(keys@.to_set().contains(keys@[j]));
                }
            }
        }
        removed
    }
}

/// A reader that is read at least once between every two updates is never
/// dropped: after a read it survives two updates, and is gone after a
/// third.
pub proof fn lemma_reader_lifetime(ages: Map<u64, u8>, e: u64)
    ensures
        aged(ages.insert(e, 2)).contains_key(e),
        aged(aged(ages.insert(e, 2))).contains_key(e),
        !aged(aged(aged(ages.insert(e, 2)))).contains_key(e),
{
}

} // verus!
