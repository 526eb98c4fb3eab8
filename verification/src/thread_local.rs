//! Per-object thread-local values.
//!
//! A [`ThreadLocal`] is a key into the values that one thread holds: each
//! thread keeps its own [`LocalValues`] table, and every `ThreadLocal` owns
//! one slot in it, named by an id that an [`IdSource`] hands out once. The
//! table of the running thread is passed explicitly; reading, writing and
//! the entry API act on that thread's slot only.

use std::collections::hash_map;
use std::collections::HashMap;
use std::marker::PhantomData;
use vstd::prelude::*;
use vstd::std_specs::hash::*;

verus! {

broadcast use vstd::std_specs::hash::group_hash_axioms;

/// The values that one thread holds, by the id of their [`ThreadLocal`].
pub struct LocalValues<T> {
    values: HashMap<u64, T>,
}

impl<T> View for LocalValues<T> {
    type V = Map<u64, T>;

    closed spec fn view(&self) -> Map<u64, T> {
        self.values@
    }
}

impl<T> LocalValues<T> {
    /// A table with no values for any `ThreadLocal`.
    pub fn new() -> (v: LocalValues<T>)
        ensures
            v@ == Map::<u64, T>::empty(),
    {
        LocalValues { values: HashMap::new() }
    }
}

/// Hands out the ids of [`ThreadLocal`] objects, each at most once.
pub struct IdSource {
    next: u64,
}

impl IdSource {
    /// The next id this source will hand out.
    pub closed spec fn next(&self) -> u64 {
        self.next
    }

    /// A source whose first id is 0.
    pub fn new() -> (s: IdSource)
        ensures
            s.next() == 0,
    {
        IdSource { next: 0 }
    }

    /// Whether another id can be handed out.
    pub fn has_next(&self) -> (b: bool)
        ensures
            b == (self.next() < u64::MAX),
    {
        self.next < u64::MAX
    }
}

/// Takes the next id from `ids`. Ids increase strictly, so no id is handed
/// out twice.
pub fn next_id(ids: &mut IdSource) -> (id: u64)
    requires
        old(ids).next() < u64::MAX,
    ensures
        id == old(ids).next(),
        final(ids).next() == id + 1,
{
    let id = ids.next;
    ids.next = ids.next + 1;
    id
}

/// A thread-local variable: one slot in the [`LocalValues`] of every thread.
pub struct ThreadLocal<T> {
    id: u64,
    _p: PhantomData<T>,
}

impl<T> ThreadLocal<T> {
    /// The id naming this variable's slot.
    pub closed spec fn key(&self) -> u64 {
        self.id
    }

    /// The value this thread holds, if any.
    pub open spec fn value_in(&self, values: Map<u64, T>) -> Option<T> {
        values.get(self.key())
    }

    /// Creates a variable with no value in any thread, taking a fresh id.
    pub fn new(ids: &mut IdSource) -> (tl: ThreadLocal<T>)
        requires
            old(ids).next() < u64::MAX,
        ensures
            tl.key() == old(ids).next(),
            final(ids).next() == old(ids).next() + 1,
    {
        ThreadLocal { id: next_id(ids), _p: PhantomData }
    }

    /// Sets this thread's value, returning the previous value if present.
    pub fn set(&self, values: &mut LocalValues<T>, value: T) -> (prev: Option<T>)
        ensures
            final(values)@ == old(values)@.insert(self.key(), value),
            prev == self.value_in(old(values)@),
    {
        match self.entry(values) {
            Entry::Occupied(mut e) => Some(e.insert(value)),
            Entry::Vacant(e) => {
                e.insert(value);
                None
            },
        }
    }

    /// Removes this thread's value, returning it if it existed.
    pub fn remove(&self, values: &mut LocalValues<T>) -> (prev: Option<T>)
        ensures
            final(values)@ == old(values)@.remove(self.key()),
            prev == self.value_in(old(values)@),
    {
        values.values.remove(&self.id)
    }

    /// A handle to this thread's slot, for in-place manipulation.
    pub fn entry<'a>(&self, values: &'a mut LocalValues<T>) -> (e: Entry<'a, T>)
        ensures
            e.value() == self.value_in(old(values)@),
            final(values)@ == (match (match e {
                Entry::Occupied(o) => o.0.final_value(),
                Entry::Vacant(v) => v.0.final_value(),
            }) {
                Some(v) => old(values)@.insert(self.key(), v),
                None => old(values)@.remove(self.key()),
            }),
    {
        match values.values.entry(self.id) {
            hash_map::Entry::Occupied(e) => Entry::Occupied(OccupiedEntry(e)),
            hash_map::Entry::Vacant(e) => Entry::Vacant(VacantEntry(e)),
        }
    }

    /// A reference to this thread's value, if any.
    pub fn get<'a>(&self, values: &'a LocalValues<T>) -> (v: Option<&'a T>)
        ensures
            match v {
                Some(r) => self.value_in(values@) == Some(*r),
                None => self.value_in(values@) is None,
            },
    {
        values.values.get(&self.id)
    }

    /// A mutable reference to this thread's value, if any.
    pub fn get_mut<'a>(&self, values: &'a mut LocalValues<T>) -> (v: Option<&'a mut T>)
        ensures
            match v {
                Some(r) => self.value_in(old(values)@) == Some(*r) && final(values)@ == old(
                    values,
                )@.insert(self.key(), *final(r)),
                None => self.value_in(old(values)@) is None && final(values)@ == old(values)@,
            },
    {
        match self.entry(values) {
            Entry::Occupied(e) => Some(e.into_mut()),
            Entry::Vacant(e) => None,
        }
    }
}

impl<T: Clone> ThreadLocal<T> {
    /// A copy of this thread's value, if any.
    pub fn get_cloned(&self, values: &LocalValues<T>) -> (v: Option<T>)
        ensures
            match v {
                Some(c) => self.value_in(values@) is Some && cloned::<T>(
                    self.value_in(values@).unwrap(),
                    c,
                ),
                None => self.value_in(values@) is None,
            },
    {
        match values.values.get(&self.id) {
            Some(v) => Some(v.clone()),
            None => None,
        }
    }
}

/// A view into this thread's slot of a `ThreadLocal`, which may be empty.
pub enum Entry<'a, T> {
    /// An occupied slot.
    Occupied(OccupiedEntry<'a, T>),
    /// An empty slot.
    Vacant(VacantEntry<'a, T>),
}

/// A view into this thread's slot of a `ThreadLocal`, which is occupied.
pub struct OccupiedEntry<'a, T>(pub hash_map::OccupiedEntry<'a, u64, T>);

/// A view into this thread's slot of a `ThreadLocal`, which is empty.
pub struct VacantEntry<'a, T>(pub hash_map::VacantEntry<'a, u64, T>);

impl<'a, T> Entry<'a, T> {
    /// The value in the slot when the entry was made, if any.
    pub open spec fn value(self) -> Option<T> {
        match self {
            Entry::Occupied(e) => Some(e.value()),
            Entry::Vacant(_) => None,
        }
    }
}

impl<'a, T> Entry<'a, T> {
    /// A mutable reference to the value, if the slot is occupied.
    pub fn get_mut(&'a mut self) -> (v: Option<&'a mut T>)
        ensures
            match v {
                Some(r) => {
                    &&& *old(self) is Occupied
                    &&& *final(self) is Occupied
                    &&& old(self).value() == Some(*r)
                    &&& final(self).value() == Some(*final(r))
                    &&& (*final(self))->Occupied_0.0.final_value() == (*old(self))->Occupied_0.0.final_value()
                },
                None => old(self).value() is None && *final(self) == *old(self),
            },
    {
        match self {
            Entry::Occupied(v) => Some(v.get_mut()),
            _ => None,
        }
    }

    /// A reference to the value, if the slot is occupied.
    pub fn get(&'a self) -> (v: Option<&'a T>)
        ensures
            match v {
                Some(r) => self.value() == Some(*r),
                None => self.value() is None,
            },
    {
        match self {
            Entry::Occupied(v) => Some(v.get()),
            _ => None,
        }
    }

    /// Puts `v` in the slot, returning a reference to it and the value it
    /// replaced.
    pub fn insert(self, v: T) -> (res: (&'a mut T, Option<T>))
        ensures
            *res.0 == v,
            res.1 == self.value(),
            (match self { Entry::Occupied(e) => e.0.final_value(), Entry::Vacant(e) => e.0.final_value() }) == Some(*final(res.0)),
    {
        match self {
            Entry::Occupied(mut e) => {
                let prev = e.insert(v);
                (e.into_mut(), Some(prev))
            },
            Entry::Vacant(e) => {
                let curr = e.insert(v);
                (curr, None)
            },
        }
    }

    /// Ensures the slot holds a value, putting `T::default()` in an empty
    /// slot, and returns a mutable reference to the value.
    pub fn or_default(self) -> (r: &'a mut T) where T: Default
        ensures
            self.value() is Some ==> *r == self.value().unwrap(),
            self.value() is None ==> call_ensures(T::default, (), *r),
            (match self { Entry::Occupied(e) => e.0.final_value(), Entry::Vacant(e) => e.0.final_value() }) == Some(*final(r)),
    {
        self.or_insert_with(T::default)
    }

    /// Ensures the slot holds a value, putting `default` in an empty slot,
    /// and returns a mutable reference to the value.
    pub fn or_insert(self, default: T) -> (r: &'a mut T)
        ensures
            *r == (match self.value() {
                Some(v) => v,
                None => default,
            }),
            (match self { Entry::Occupied(e) => e.0.final_value(), Entry::Vacant(e) => e.0.final_value() }) == Some(*final(r)),
    {
        match self {
            Entry::Occupied(e) => e.into_mut(),
            Entry::Vacant(e) => e.insert(default),
        }
    }

    /// Ensures the slot holds a value, putting the result of `default` in an
    /// empty slot, and returns a mutable reference to the value.
    pub fn or_insert_with<F: FnOnce() -> T>(self, default: F) -> (r: &'a mut T)
        requires
            self.value() is None ==> default.requires(()),
        ensures
            self.value() is Some ==> *r == self.value().unwrap(),
            self.value() is None ==> default.ensures((), *r),
            (match self { Entry::Occupied(e) => e.0.final_value(), Entry::Vacant(e) => e.0.final_value() }) == Some(*final(r)),
    {
        match self {
            Entry::Occupied(e) => e.into_mut(),
            Entry::Vacant(e) => e.insert(default()),
        }
    }
}

impl<'a, T> OccupiedEntry<'a, T> {
    /// The value in the slot.
    pub open spec fn value(self) -> T {
        self.0.value()
    }

    /// A reference to the value in the slot.
    pub fn get(&self) -> (v: &T)
        ensures
            *v == self.value(),
    {
        self.0.get()
    }

    /// A mutable reference to the value in the slot.
    pub fn get_mut(&mut self) -> (v: &mut T)
        ensures
            *v == old(self).value(),
            final(self).value() == *final(v),
            final(self).0.final_value() == old(self).0.final_value(),
    {
        self.0.get_mut()
    }

    /// Turns the entry into a mutable reference to the value, living as long
    /// as the slot's table is borrowed.
    pub fn into_mut(self) -> (v: &'a mut T)
        ensures
            *v == self.value(),
            self.0.final_value() == Some(*final(v)),
    {
        self.0.into_mut()
    }

    /// Replaces the value in the slot, returning the old one.
    pub fn insert(&mut self, value: T) -> (prev: T)
        ensures
            prev == old(self).value(),
            final(self).value() == value,
            final(self).0.final_value() == old(self).0.final_value(),
    {
        self.0.insert(value)
    }

    /// Takes the value out of the slot, leaving it empty.
    pub fn remove(self) -> (v: T)
        ensures
            v == self.value(),
            self.0.final_value() is None,
    {
        self.0.remove()
    }
}

impl<'a, T> VacantEntry<'a, T> {
    /// Puts `value` in the slot and returns a mutable reference to it.
    pub fn insert(self, value: T) -> (r: &'a mut T)
        ensures
            *r == value,
            self.0.final_value() == Some(*final(r)),
    {
        self.0.insert(value)
    }
}

/// Reading gives back what was written: after `set(v)` this thread's
/// value is `v`, and `remove` then hands `v` back and leaves the slot empty.
pub proof fn lemma_set_then_get<T>(tl: ThreadLocal<T>, values: Map<u64, T>, v: T)
    ensures
        tl.value_in(values.insert(tl.key(), v)) == Some(v),
        tl.value_in(values.insert(tl.key(), v).remove(tl.key())) is None,
{
    assert(values.insert(tl.key(), v).remove(tl.key()).dom().contains(tl.key()) == false);
}

/// Variables with different ids do not see each other's writes: setting
/// or removing `a`'s value leaves `b`'s value as it was.
pub proof fn lemma_independent<T, U>(a: ThreadLocal<T>, b: ThreadLocal<U>, values: Map<u64, U>, v: U)
    requires
        a.key() != b.key(),
    ensures
        b.value_in(values.insert(a.key(), v)) == b.value_in(values),
        b.value_in(values.remove(a.key())) == b.value_in(values),
{
}

/// A variable made after `earlier` (from the same id source, which has
/// moved past `earlier`'s id) has another id.
pub proof fn lemma_fresh_id<T, U>(earlier: ThreadLocal<T>, ids: IdSource, later: ThreadLocal<U>)
    requires
        earlier.key() < ids.next(),
        later.key() == ids.next(),
    ensures
        earlier.key() != later.key(),
{
}

/// Every slot of `values` belongs to a variable that `ids` handed out.
pub open spec fn slots_issued<T>(values: Map<u64, T>, ids: IdSource) -> bool {
    forall|k: u64| #[trigger] values.dom().contains(k) ==> k < ids.next()
}

/// A new variable holds no value in any thread: in a table whose slots all
/// belong to variables made earlier from the same source, the slot of the
/// variable made next is empty, and the table's slots still all belong to
/// variables that the source has handed out once it has moved on.
pub proof fn lemma_new_variable_is_empty<T>(values: Map<u64, T>, before: IdSource, tl: ThreadLocal<T>, after: IdSource)
    requires
        slots_issued(values, before),
        tl.key() == before.next(),
        after.next() == before.next() + 1,
    ensures
        tl.value_in(values) is None,
        slots_issued(values, after),
{
}

/// Setting or removing the value of a variable made from `ids` keeps every
/// slot of the table owned by a variable that `ids` handed out.
pub proof fn lemma_writes_keep_slots_issued<T>(values: Map<u64, T>, ids: IdSource, tl: ThreadLocal<T>, v: T)
    requires
        slots_issued(values, ids),
        tl.key() < ids.next(),
    ensures
        slots_issued(values.insert(tl.key(), v), ids),
        slots_issued(values.remove(tl.key()), ids),
{
}

} // verus!
