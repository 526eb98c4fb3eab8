//! Queued actions and which of them run in one update.
//!
//! An entity's queue runs from the front: each action runs in turn, until
//! an action that waits for the entity to be free comes after one that
//! made it busy.

use vstd::prelude::*;

verus! {

/// What the queue needs to know of an action.
#[derive(Clone, Copy, Debug, PartialEq, Eq, Structural)]
pub struct ActionFlags {
    /// The action waits until the entity is not busy.
    pub waits: bool,
    /// Running the action makes the entity busy.
    pub busies: bool,
}

/// Whether one of the first `n` actions makes the entity busy.
pub open spec fn busy_before(q: Seq<ActionFlags>, n: int) -> bool {
    exists|j: int| 0 <= j < n && #[trigger] q[j].busies
}

/// The number of actions from the front of `q` that run now: all of them
/// up to the first one that waits while an earlier one has made the
/// entity busy.
pub open spec fn runnable(q: Seq<ActionFlags>, n: int) -> bool {
    forall|k: int| 0 <= k < n ==> !(busy_before(q, k) && #[trigger] q[k].waits)
}

/// How many actions at the front of `queue` run in this update, and
/// whether the entity is busy afterwards.
pub fn actions_to_run(queue: &[ActionFlags]) -> (r: (usize, bool))
    ensures
        r.0 <= queue@.len(),
        runnable(queue@, r.0 as int),
        r.0 < queue@.len() ==> busy_before(queue@, r.0 as int) && queue@[r.0 as int].waits,
        r.1 == busy_before(queue@, r.0 as int),
{
    let mut busy = false;
    let mut i: usize = 0;
    while i < queue.len()
        invariant
            i <= queue@.len(),
            runnable(queue@, i as int),
            busy == busy_before(queue@, i as int),
        decreases queue@.len() - i,
    {
        let a = queue[i];
        if busy && a.waits {
            return (i, busy);
        }
        if a.busies {
            busy = true;
        }
        proof {
            assert forall|k: int| 0 <= k < i + 1 implies !(busy_before(queue@, k) && #[trigger] queue@[k].waits) by {
                if k < i {
                    assert(runnable(queue@, i as int));
                }
            }
            if queue@[i as int].busies {
                assert(busy_before(queue@, i + 1));
            } else {
                if busy_before(queue@, i + 1) {
                    let j = choose|j: int| 0 <= j < i + 1 && #[trigger] queue@[j].busies;
                    assert(j < i);
                }
            }
        }
        i = i + 1;
    }
    (i, busy)
}

} // verus!
