//! Bookkeeping of acquire-fence waits: which waits are armed, so that a
//! completion runs its callback exactly once, never after a cancel and never
//! for a wait set that was replaced. The waiting itself happens elsewhere.
use vstd::prelude::*;

use crate::table::{as_map, keep, lemma_keep_push, lemma_lookup_absent, lemma_lookup_at, lemma_lookup_keep, lemma_lookup_push, lemma_prefix_push, lookup};

verus! {

broadcast use vstd::seq_lib::group_seq_properties;

/// Names a scheduled wait for its whole life, across reschedules.
#[derive(Clone, Copy, Debug, PartialEq, Eq, Hash, Structural)]
pub struct FenceTaskHandle(pub u64);

/// Whether a wait completes on the first fence or on all of them.
#[derive(Clone, Copy, Debug, PartialEq, Eq, Structural)]
pub enum FenceWaitMode {
    Any,
    All,
}

/// One arming of a wait: the wait task reports it back when its fences
/// signal.
#[derive(Clone, Copy, Debug, PartialEq, Eq, Structural)]
pub struct FenceArm {
    pub handle: FenceTaskHandle,
    pub generation: u64,
}

/// Whether a reported arming runs its callback, given the armed waits.
pub open spec fn fires(armed: Map<u64, u64>, arm: FenceArm) -> bool {
    armed.contains_key(arm.handle.0) && armed[arm.handle.0] == arm.generation
}

/// A completion that fires ends its wait, so reporting it again does not
/// fire; after a cancel no arming of that handle fires.
pub proof fn lemma_callback_runs_at_most_once(armed: Map<u64, u64>, arm: FenceArm, other: FenceArm)
    requires
        other.handle == arm.handle,
    ensures
        fires(armed, arm) ==> !fires(armed.remove(arm.handle.0), other),
        !fires(armed.remove(arm.handle.0), other),
{
}

/// The armed waits: each live handle with the generation of its current
/// arming.
pub struct FenceWaits {
    next_id: u64,
    next_generation: u64,
    armed: Vec<(u64, u64)>,
}

pub open spec fn sat_inc(v: u64) -> u64 {
    if v == u64::MAX {
        v
    } else {
        (v + 1) as u64
    }
}

impl FenceWaits {
    /// Live handles and the generation each is armed with.
    pub closed spec fn armed_spec(&self) -> Map<u64, u64> {
        as_map(self.armed@)
    }

    pub closed spec fn next_id_spec(&self) -> u64 {
        self.next_id
    }

    pub closed spec fn next_generation_spec(&self) -> u64 {
        self.next_generation
    }

    pub fn new() -> (r: FenceWaits)
        ensures
            r.armed_spec() == Map::<u64, u64>::empty(),
            r.next_id_spec() == 1,
    {
        let r = FenceWaits { next_id: 1, next_generation: 0, armed: Vec::new() };
        assert(r.armed_spec() =~= Map::<u64, u64>::empty());
        r
    }

    fn arm(&mut self, handle: u64) -> (r: u64)
        ensures
            r == old(self).next_generation_spec(),
            final(self).armed_spec() == old(self).armed_spec().insert(handle, r),
            final(self).next_generation_spec() == sat_inc(old(self).next_generation_spec()),
            final(self).next_id_spec() == old(self).next_id_spec(),
    {
        let generation = self.next_generation;
        self.next_generation = if self.next_generation == u64::MAX {
            u64::MAX
        } else {
            self.next_generation + 1
        };
        let ghost before = self.armed@;
        self.armed.push((handle, generation));
        proof {
            assert forall|k| #[trigger] lookup(self.armed@, k) == if k == handle {
                Some(generation)
            } else {
                lookup(before, k)
            } by {
                lemma_lookup_push(before, handle, generation, k);
            }
            assert(self.armed_spec() =~= old(self).armed_spec().insert(handle, generation));
        }
        generation
    }

    fn generation_of(&self, handle: u64) -> (r: Option<u64>)
        ensures
            r == (if self.armed_spec().contains_key(handle) {
                Some(self.armed_spec()[handle])
            } else {
                None
            }),
    {
        let mut i: usize = self.armed.len();
        while i > 0
            invariant
                i <= self.armed@.len(),
                forall|j: int| i <= j < self.armed@.len() ==> self.armed@[j].0 != handle,
            decreases i,
        {
            i = i - 1;
            if self.armed[i].0 == handle {
                proof {
                    lemma_lookup_at(self.armed@, i as int, handle);
                }
                return Some(self.armed[i].1);
            }
        }
        proof {
            lemma_lookup_absent(self.armed@, handle);
        }
        None
    }

    fn disarm(&mut self, handle: u64)
        ensures
            final(self).armed_spec() == old(self).armed_spec().remove(handle),
            final(self).next_id_spec() == old(self).next_id_spec(),
            final(self).next_generation_spec() == old(self).next_generation_spec(),
    {
        let ghost src = self.armed@;
        let ghost p = |k: u64| k != handle;
        let mut out: Vec<(u64, u64)> = Vec::new();
        let mut i: usize = 0;
        while i < self.armed.len()
            invariant
                i <= src.len(),
                src == self.armed@,
                p == (|k: u64| k != handle),
                out@ == keep(src.subrange(0, i as int), p),
            decreases src.len() - i,
        {
            let e = self.armed[i];
            proof {
                lemma_prefix_push(src, i as int);
                lemma_keep_push(src.subrange(0, i as int), e, p);
            }
            if e.0 != handle {
                out.push(e);
            }
            i = i + 1;
        }
        assert(src.subrange(0, src.len() as int) == src);
        self.armed = out;
        proof {
            assert forall|k| #[trigger] lookup(self.armed@, k) == if p(k) { lookup(src, k) } else { None } by {
                lemma_lookup_keep(src, p, k);
            }
            assert(self.armed_spec() =~= old(self).armed_spec().remove(handle));
        }
    }

    /// Registers a new wait and arms it.
    pub fn schedule(&mut self) -> (r: FenceArm)
        ensures
            r.handle == FenceTaskHandle(old(self).next_id_spec()),
            r.generation == old(self).next_generation_spec(),
            final(self).armed_spec() == old(self).armed_spec().insert(r.handle.0, r.generation),
            final(self).next_id_spec() == sat_inc(old(self).next_id_spec()),
    {
        let handle = self.next_id;
        self.next_id = if self.next_id == u64::MAX {
            u64::MAX
        } else {
            self.next_id + 1
        };
        let generation = self.arm(handle);
        FenceArm { handle: FenceTaskHandle(handle), generation }
    }

    /// Replaces the wait set of a live wait: it is armed anew with the next
    /// generation, and only a completion of that arming fires from now on.
    /// `None` if the handle is unknown.
    pub fn reschedule(&mut self, handle: FenceTaskHandle) -> (r: Option<FenceArm>)
        ensures
            !old(self).armed_spec().contains_key(handle.0) ==> r is None && final(self).armed_spec() == old(
                self,
            ).armed_spec(),
            old(self).armed_spec().contains_key(handle.0) ==> {
                &&& r == Some(FenceArm { handle, generation: old(self).next_generation_spec() })
                &&& final(self).armed_spec() == old(self).armed_spec().insert(
                    handle.0,
                    old(self).next_generation_spec(),
                )
            },
            final(self).next_id_spec() == old(self).next_id_spec(),
    {
        if self.generation_of(handle.0).is_none() {
            return None;
        }
        let generation = self.arm(handle.0);
        Some(FenceArm { handle, generation })
    }

    /// Aborts a wait: its callback will not run. Returns whether it was live.
    pub fn cancel(&mut self, handle: FenceTaskHandle) -> (r: bool)
        ensures
            r == old(self).armed_spec().contains_key(handle.0),
            final(self).armed_spec() == old(self).armed_spec().remove(handle.0),
            final(self).next_id_spec() == old(self).next_id_spec(),
    {
        let live = self.generation_of(handle.0).is_some();
        self.disarm(handle.0);
        live
    }

    /// A wait task reports that its fences signalled. Returns whether the
    /// callback runs: only for the current arming of a live wait, which then
    /// ends, so a callback runs at most once.
    pub fn complete(&mut self, arm: FenceArm) -> (r: bool)
        ensures
            r == fires(old(self).armed_spec(), arm),
            r ==> final(self).armed_spec() == old(self).armed_spec().remove(arm.handle.0),
            !r ==> final(self).armed_spec() == old(self).armed_spec(),
            final(self).next_id_spec() == old(self).next_id_spec(),
    {
        match self.generation_of(arm.handle.0) {
            Some(g) => {
                if g == arm.generation {
                    self.disarm(arm.handle.0);
                    true
                } else {
                    false
                }
            },
            None => false,
        }
    }
}

} // verus!
