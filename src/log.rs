//! The per-turn snapshots of a race.

use vstd::prelude::*;

use crate::action::Action;
use crate::car::{copy_cars, Car};

verus! {

/// A snapshot of the race taken at the end of one turn.
#[derive(Debug, Clone)]
pub struct Log {
    /// The purchases made during the turn, in order.
    pub actions: Vec<Action>,
    /// The bananas on the track, ascending.
    pub bananas: Vec<u32>,
    /// The unit prices of one acceleration, one banana and one shell.
    pub costs: Vec<u128>,
    /// The index of the car whose turn it was.
    pub current_car: usize,
    /// Every car, in registration order.
    pub cars: Vec<Car>,
    /// The sales counters of the three kinds.
    pub actions_sold: Vec<u128>,
}

impl Default for Log {
    fn default() -> (r: Log)
        ensures
            r.actions@.len() == 0,
            r.bananas@.len() == 0,
            r.costs@.len() == 0,
            r.current_car == 0,
            r.cars@.len() == 0,
            r.actions_sold@.len() == 0,
    {
        Log {
            actions: Vec::new(),
            bananas: Vec::new(),
            costs: Vec::new(),
            current_car: 0,
            cars: Vec::new(),
            actions_sold: Vec::new(),
        }
    }
}

impl Log {
    /// Two entries that hold the same values.
    pub open spec fn same_as(self, other: Log) -> bool {
        &&& self.actions@ == other.actions@
        &&& self.bananas@ == other.bananas@
        &&& self.costs@ == other.costs@
        &&& self.current_car == other.current_car
        &&& self.cars@ == other.cars@
        &&& self.actions_sold@ == other.actions_sold@
    }

    /// A copy of the entry, field for field.
    pub fn copy(&self) -> (r: Log)
        ensures
            r.same_as(*self),
    {
        let r = Log {
            actions: copy_vec(&self.actions),
            bananas: copy_vec(&self.bananas),
            costs: copy_vec(&self.costs),
            current_car: self.current_car,
            cars: copy_cars(&self.cars),
            actions_sold: copy_vec(&self.actions_sold),
        };
        r
    }

    /// Fills in the state part of the entry; the recorded purchases stay.
    pub fn add_info(
        &mut self,
        bananas: Vec<u32>,
        costs: Vec<u128>,
        current_car: usize,
        cars: Vec<Car>,
        actions_sold: Vec<u128>,
    )
        ensures
            final(self).actions == old(self).actions,
            final(self).bananas == bananas,
            final(self).costs == costs,
            final(self).current_car == current_car,
            final(self).cars == cars,
            final(self).actions_sold == actions_sold,
    {
        self.bananas = bananas;
        self.costs = costs;
        self.current_car = current_car;
        self.cars = cars;
        self.actions_sold = actions_sold;
    }
}

/// A copy of every entry, in order.
pub fn copy_logs(logs: &Vec<Log>) -> (r: Vec<Log>)
    ensures
        r@.len() == logs@.len(),
        forall|i: int| 0 <= i < logs@.len() ==> (#[trigger] r@[i]).same_as(logs@[i]),
{
    let mut r: Vec<Log> = Vec::new();
    let mut i: usize = 0;
    while i < logs.len()
        invariant
            i <= logs@.len(),
            r@.len() == i,
            forall|j: int| 0 <= j < i ==> (#[trigger] r@[j]).same_as(logs@[j]),
        decreases logs@.len() - i,
    {
        r.push(logs[i].copy());
        i = i + 1;
    }
    r
}

/// A copy of a vector of plain values, element for element.
pub fn copy_vec<T: Copy>(v: &Vec<T>) -> (r: Vec<T>)
    ensures
        r@ == v@,
{
    let mut r: Vec<T> = Vec::new();
    let mut i: usize = 0;
    while i < v.len()
        invariant
            i <= v@.len(),
            r@ == v@.take(i as int),
        decreases v@.len() - i,
    {
        r.push(v[i]);
        i = i + 1;
        assert(r@ =~= v@.take(i as int));
    }
    assert(v@.take(i as int) =~= v@);
    r
}

} // verus!
