//! The competitors.

use vstd::prelude::*;

verus! {

/// The balance every car starts a race with.
pub const STARTING_BALANCE: u128 = 17500;

/// One competitor: its money, its speed and where it stands on the track.
#[derive(Debug, Clone)]
pub struct Car {
    pub balance: u128,
    pub speed: u32,
    pub y: u32,
    pub lua_script: String,
    pub name: String,
}

impl Car {
    /// A car at the start line, standing still, with the starting balance.
    pub fn new(script: String, name: String) -> (r: Car)
        ensures
            r.balance == STARTING_BALANCE,
            r.speed == 0,
            r.y == 0,
            r.lua_script == script,
            r.name == name,
    {
        Car { balance: STARTING_BALANCE, speed: 0, y: 0, lua_script: script, name }
    }
    /// A copy of the car, field for field.
    pub fn copy(&self) -> (r: Car)
        ensures
            r == *self,
    {
        Car {
            balance: self.balance,
            speed: self.speed,
            y: self.y,
            lua_script: self.lua_script.clone(),
            name: self.name.clone(),
        }
    }
}

/// A copy of every car, in order.
pub fn copy_cars(cars: &Vec<Car>) -> (r: Vec<Car>)
    ensures
        r@ == cars@,
{
    let mut r: Vec<Car> = Vec::new();
    let mut i: usize = 0;
    while i < cars.len()
        invariant
            i <= cars@.len(),
            r@ == cars@.take(i as int),
        decreases cars@.len() - i,
    {
        r.push(cars[i].copy());
        i = i + 1;
        assert(r@ =~= cars@.take(i as int));
    }
    assert(cars@.take(i as int) =~= cars@);
    r
}

/// The car with `cost` taken from its balance.
pub open spec fn charged(c: Car, cost: u128) -> Car {
    Car {
        balance: (c.balance - cost) as u128,
        speed: c.speed,
        y: c.y,
        lua_script: c.lua_script,
        name: c.name,
    }
}

/// Takes `cost` from the balance of the car at `i`.
pub fn charge(cars: &mut Vec<Car>, i: usize, cost: u128)
    requires
        i < old(cars)@.len(),
        cost <= old(cars)@[i as int].balance,
    ensures
        final(cars)@ == old(cars)@.update(i as int, charged(old(cars)@[i as int], cost)),
{
    let mut c = cars.remove(i);
    c.balance = c.balance - cost;
    cars.insert(i, c);
    assert(cars@ =~= old(cars)@.update(i as int, charged(old(cars)@[i as int], cost)));
}

} // verus!
