//! A minimal driver collection: the external party that admits sounds
//! and assigns them stable, unique ids.
//!
//! Ids count up from zero and are never reused, so every id a driver
//! hands out identifies one registration.

use vstd::prelude::*;

verus! {

/// A driver: a caller-chosen tag that distinguishes driver instances,
/// the next id to assign, and the ids currently admitted.
pub struct Driver {
    /// Distinguishes this driver from others.
    pub tag: u64,
    /// The next id to assign; ids are never reused.
    pub next_id: usize,
    /// The ids of the currently admitted sounds.
    pub active: Vec<usize>,
}

/// The driver invariant: admitted ids are pairwise distinct and below
/// the assignment counter.
pub open spec fn driver_wf(d: Driver) -> bool {
    &&& d.active@.no_duplicates()
    &&& forall|j: int| 0 <= j < d.active@.len() ==> (#[trigger] d.active@[j]) < d.next_id
}

impl Driver {
    /// An empty driver collection with the given tag.
    pub fn new(tag: u64) -> (d: Driver)
        ensures
            d.tag == tag,
            d.next_id == 0,
            d.active@ == Seq::<usize>::empty(),
            driver_wf(d),
    {
        Driver { tag, next_id: 0, active: Vec::new() }
    }

    /// Admits a sound: assigns and returns a fresh id.
    pub fn add_sound(&mut self) -> (id: usize)
        requires
            driver_wf(*old(self)),
            old(self).next_id < usize::MAX,
        ensures
            driver_wf(*final(self)),
            id == old(self).next_id,
            !old(self).active@.contains(id),
            final(self).tag == old(self).tag,
            final(self).next_id == old(self).next_id + 1,
            final(self).active@ == old(self).active@.push(id),
    {
        let id: usize = self.next_id;
        proof {
            if old(self).active@.contains(id) {
                let j = choose|j: int|
                    0 <= j < old(self).active@.len() && old(self).active@[j] == id;
            }
        }
        self.next_id = self.next_id + 1;
        self.active.push(id);
        proof {
            assert forall|j: int, l: int|
                0 <= j < l < self.active@.len() implies (#[trigger] self.active@[j]) != (
            #[trigger] self.active@[l]) by {
                if l == self.active@.len() - 1 {
                    assert(old(self).active@[j] < id);
                }
            }
        }
        id
    }

    /// Releases an admitted id.  Reports an error if the id is
    /// unknown; the id is absent afterwards either way.
    #[verifier::loop_isolation(false)]
    pub fn remove_sound(&mut self, id: usize) -> (r: Result<(), ()>)
        requires
            driver_wf(*old(self)),
        ensures
            driver_wf(*final(self)),
            final(self).tag == old(self).tag,
            final(self).next_id == old(self).next_id,
            r is Ok <==> old(self).active@.contains(id),
            !final(self).active@.contains(id),
            forall|x: usize|
                x != id ==> (final(self).active@.contains(x) <==> old(self).active@.contains(x)),
    {
        let mut j: usize = 0;
        while j < self.active.len()
            invariant
                j <= self.active@.len(),
                *self == *old(self),
                forall|k: int| 0 <= k < j ==> (#[trigger] self.active@[k]) != id,
            decreases self.active@.len() - j,
        {
            if self.active[j] == id {
                self.active.remove(j);
                proof {
                    let a0 = old(self).active@;
                    let a1 = self.active@;
                    assert(a1 =~= a0.subrange(0, j as int) + a0.subrange(
                        j + 1,
                        a0.len() as int,
                    ));
                    assert forall|l: int| 0 <= l < a1.len() implies #[trigger] a1[l] == a0[
                        if l < j { l } else { l + 1 }] by {
                        if l < j {
                            assert(a1[l] == a0.subrange(0, j as int)[l]);
                        } else {
                            assert(a1[l] == a0.subrange(j + 1, a0.len() as int)[l - j]);
                        }
                    }
                    assert(a0[j as int] == id);
                    assert(a0.contains(id));
                    assert forall|x: usize| a1.contains(x) implies a0.contains(x) && (x == id
                        ==> false) by {
                        let l = choose|l: int| 0 <= l < a1.len() && a1[l] == x;
                        let ll: int = if l < j { l } else { l + 1 };
                        assert(a0[ll] == x);
                        if x == id {
                            assert(ll != j ==> a0[ll] != a0[j as int]);
                        }
                    }
                    assert forall|x: usize| a0.contains(x) && x != id implies a1.contains(x) by {
                        let l = choose|l: int| 0 <= l < a0.len() && a0[l] == x;
                        if l < j {
                            assert(a1[l] == x);
                        } else {
                            assert(l != j);
                            assert(a1[l - 1] == x);
                        }
                    }
                    assert forall|p: int, q: int| 0 <= p < q < a1.len() implies (
                    #[trigger] a1[p]) != (#[trigger] a1[q]) by {
                        let pp: int = if p < j { p } else { p + 1 };
                        let qq: int = if q < j { q } else { q + 1 };
                        assert(a1[p] == a0[pp] && a1[q] == a0[qq]);
                    }
                }
                return Ok(());
            }
            j = j + 1;
        }
        proof {
            if old(self).active@.contains(id) {
                let l = choose|l: int|
                    0 <= l < old(self).active@.len() && old(self).active@[l] == id;
            }
        }
        Err(())
    }
}

} // verus!
