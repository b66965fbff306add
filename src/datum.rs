//! A bounded value that resets to its maximum when pushed over it.

use vstd::prelude::*;

verus! {

/// Stores a value and ensures it does not exceed a maximum. An assignment
/// above the maximum resets the value to the maximum rather than saturating.
#[derive(Clone, Copy, Debug)]
pub struct Datum {
    /// Maximum value of the datum.
    pub max: u32,
    /// The stored value, or `None` when the datum reads as its maximum.
    pub cur: Option<u32>,
}

impl Datum {
    /// The explicitly stored value, or `None` when the datum is at its maximum.
    pub open spec fn cur_spec(&self) -> Option<u32> {
        self.cur
    }

    /// The maximum.
    pub open spec fn max_spec(&self) -> u32 {
        self.max
    }

    /// The value the datum reads as.
    pub open spec fn value_spec(&self) -> u32 {
        match self.cur_spec() {
            Some(c) => c,
            None => self.max_spec(),
        }
    }

    /// A stored value never exceeds the maximum.
    pub open spec fn wf(&self) -> bool {
        match self.cur_spec() {
            Some(c) => c <= self.max_spec(),
            None => true,
        }
    }

    /// What assigning `v` leaves stored.
    pub open spec fn stored_after_set(&self, v: int) -> Option<u32> {
        if v > self.max_spec() {
            None
        } else {
            Some(v as u32)
        }
    }

    /// Creates a datum with the given maximum, reading as that maximum.
    pub fn new(max: u32) -> (r: Datum)
        ensures
            r.max_spec() == max,
            r.cur_spec() == None::<u32>,
            r.value_spec() == max,
            r.wf(),
    {
        Datum { cur: None, max }
    }

    /// Stores `new_val` if it is at most the maximum, and otherwise resets to the maximum.
    pub fn set_to(&mut self, new_val: u32)
        ensures
            final(self).max_spec() == old(self).max_spec(),
            final(self).cur_spec() == old(self).stored_after_set(new_val as int),
            final(self).value_spec() == if new_val > old(self).max_spec() {
                old(self).max_spec()
            } else {
                new_val
            },
            final(self).wf(),
    {
        self.cur = if new_val > self.max {
            None
        } else {
            Some(new_val)
        };
    }

    /// Resets to the maximum.
    pub fn reset(&mut self)
        ensures
            final(self).max_spec() == old(self).max_spec(),
            final(self).cur_spec() == None::<u32>,
            final(self).value_spec() == old(self).max_spec(),
            final(self).wf(),
    {
        self.cur = None;
    }

    /// Changes the maximum. When the current value is at least the new maximum, the
    /// datum resets to it; otherwise the stored value is kept.
    pub fn change_max(&mut self, new_max: u32)
        requires
            old(self).wf(),
        ensures
            final(self).max_spec() == new_max,
            old(self).value_spec() >= new_max ==> final(self).cur_spec() == None::<u32>,
            old(self).value_spec() < new_max ==> final(self).cur_spec() == old(self).cur_spec(),
            final(self).wf(),
    {
        if self.value() >= new_max {
            self.reset();
        }
        self.max = new_max;
    }

    /// The value the datum reads as: the stored value, or the maximum.
    pub fn value(&self) -> (r: u32)
        ensures
            r == self.value_spec(),
    {
        match self.cur {
            Some(c) => c,
            None => self.max,
        }
    }

    /// Adds `by` to the value; a sum above the maximum resets to the maximum.
    pub fn add_assign(&mut self, by: u32)
        ensures
            final(self).max_spec() == old(self).max_spec(),
            final(self).cur_spec() == old(self).stored_after_set(
                old(self).value_spec() + by,
            ),
            final(self).wf(),
    {
        let sum: u64 = self.value() as u64 + by as u64;
        if sum > self.max as u64 {
            self.reset();
        } else {
            self.set_to(sum as u32);
        }
    }

    /// Subtracts `by` from the value.
    pub fn sub_assign(&mut self, by: u32)
        requires
            by <= old(self).value_spec(),
        ensures
            final(self).max_spec() == old(self).max_spec(),
            final(self).cur_spec() == old(self).stored_after_set(
                old(self).value_spec() - by,
            ),
            final(self).wf(),
    {
        let v = self.value() - by;
        self.set_to(v);
    }
}

} // verus!
