//! Which touch contact drives the pointer: the first contact down becomes
//! the primary touch and synthesizes pointer events; the others only
//! produce touch events.
use vstd::prelude::*;

use crate::table::{lemma_prefix_push, lemma_push_contains};

verus! {

broadcast use vstd::seq_lib::group_seq_properties;

/// The button reported for a primary touch (`BTN_LEFT`).
pub const BTN_LEFT: u32 = 272;

/// The contacts currently down and the primary one among them.
pub struct TouchTracker {
    contacts: Vec<i32>,
    primary: Option<i32>,
}

impl TouchTracker {
    pub closed spec fn contacts_spec(&self) -> Set<i32> {
        self.contacts@.to_set()
    }

    pub closed spec fn primary_spec(&self) -> Option<i32> {
        self.primary
    }

    /// A primary touch is always one of the contacts down.
    pub open spec fn wf(&self) -> bool {
        self.primary_spec() is Some ==> self.contacts_spec().contains(self.primary_spec()->Some_0)
    }

    pub fn new() -> (r: TouchTracker)
        ensures
            r.wf(),
            r.contacts_spec() == Set::<i32>::empty(),
            r.primary_spec() is None,
    {
        let r = TouchTracker { contacts: Vec::new(), primary: None };
        assert(r.contacts_spec() =~= Set::<i32>::empty());
        r
    }

    pub fn primary(&self) -> (r: Option<i32>)
        ensures
            r == self.primary_spec(),
    {
        self.primary
    }

    fn has_contact(&self, id: i32) -> (r: bool)
        ensures
            r == self.contacts_spec().contains(id),
    {
        let mut i: usize = 0;
        while i < self.contacts.len()
            invariant
                i <= self.contacts@.len(),
                forall|j: int| 0 <= j < i ==> self.contacts@[j] != id,
            decreases self.contacts@.len() - i,
        {
            if self.contacts[i] == id {
                assert(self.contacts@[i as int] == id);
                return true;
            }
            i = i + 1;
        }
        false
    }

    fn add_contact(&mut self, id: i32)
        ensures
            final(self).contacts_spec() == old(self).contacts_spec().insert(id),
            final(self).primary_spec() == old(self).primary_spec(),
    {
        if !self.has_contact(id) {
            let ghost before = self.contacts@;
            self.contacts.push(id);
            assert forall|x: i32| self.contacts@.contains(x) <==> (before.contains(x) || x == id) by {
                lemma_push_contains(before, id, x);
            }
        }
        assert(self.contacts_spec() =~= old(self).contacts_spec().insert(id));
    }

    /// A contact went down. Returns whether it became the primary touch,
    /// which then moves the pointer and presses `BTN_LEFT`.
    pub fn touch_down(&mut self, id: i32) -> (r: bool)
        requires
            old(self).wf(),
        ensures
            final(self).wf(),
            final(self).contacts_spec() == old(self).contacts_spec().insert(id),
            r == old(self).primary_spec() is None,
            final(self).primary_spec() == if r {
                Some(id)
            } else {
                old(self).primary_spec()
            },
    {
        self.add_contact(id);
        if self.primary.is_none() {
            self.primary = Some(id);
            true
        } else {
            false
        }
    }

    /// A contact moved. Returns whether it is the primary touch, whose
    /// motion moves the pointer.
    pub fn touch_motion(&mut self, id: i32) -> (r: bool)
        requires
            old(self).wf(),
        ensures
            final(self).wf(),
            final(self).contacts_spec() == old(self).contacts_spec().insert(id),
            final(self).primary_spec() == old(self).primary_spec(),
            r == (old(self).primary_spec() == Some(id)),
    {
        self.add_contact(id);
        match self.primary {
            Some(p) => p == id,
            None => false,
        }
    }

    /// A contact lifted. Returns whether it was the primary touch, which then
    /// releases `BTN_LEFT`; another contact still down, if any, takes over.
    pub fn touch_up(&mut self, id: i32) -> (r: bool)
        requires
            old(self).wf(),
        ensures
            final(self).wf(),
            final(self).contacts_spec() == old(self).contacts_spec().remove(id),
            r == (old(self).primary_spec() == Some(id)),
            !r ==> final(self).primary_spec() == old(self).primary_spec(),
            r ==> (final(self).primary_spec() is None <==> final(self).contacts_spec().is_empty()),
    {
        let ghost src = self.contacts@;
        let mut rest: Vec<i32> = Vec::new();
        let mut i: usize = 0;
        while i < self.contacts.len()
            invariant
                i <= src.len(),
                src == self.contacts@,
                forall|x: i32| rest@.contains(x) <==> (src.subrange(0, i as int).contains(x) && x != id),
            decreases src.len() - i,
        {
            let c = self.contacts[i];
            let ghost r0 = rest@;
            if c != id {
                rest.push(c);
            }
            proof {
                lemma_prefix_push(src, i as int);
                assert forall|x: i32| rest@.contains(x) <==> (src.subrange(0, i + 1).contains(x) && x != id) by {
                    lemma_push_contains(r0, c, x);
                    lemma_push_contains(src.subrange(0, i as int), c, x);
                }
            }
            i = i + 1;
        }
        assert(src.subrange(0, src.len() as int) == src);
        let was_primary = match self.primary {
            Some(p) => p == id,
            None => false,
        };
        if was_primary {
            self.primary = if rest.len() > 0 {
                assert(rest@.contains(rest@[0]));
                Some(rest[0])
            } else {
                None
            };
        }
        self.contacts = rest;
        proof {
            assert(self.contacts_spec() =~= old(self).contacts_spec().remove(id));
            if was_primary && self.contacts@.len() == 0 {
                assert(self.contacts_spec() =~= Set::<i32>::empty());
            }
            if self.contacts@.len() > 0 {
                assert(self.contacts_spec().contains(self.contacts@[0]));
            }
        }
        was_primary
    }

    /// The touch sequence was cancelled: all contacts go. Returns whether
    /// there was a primary touch, which then releases `BTN_LEFT`.
    pub fn touch_cancel(&mut self) -> (r: bool)
        ensures
            final(self).wf(),
            final(self).contacts_spec() == Set::<i32>::empty(),
            final(self).primary_spec() is None,
            r == old(self).primary_spec() is Some,
    {
        let had = self.primary.is_some();
        self.primary = None;
        self.contacts = Vec::new();
        assert(self.contacts_spec() =~= Set::<i32>::empty());
        had
    }
}

} // verus!
