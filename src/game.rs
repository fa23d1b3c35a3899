//! The race: registration, purchases, the end of each turn, and the loop
//! that runs turns until a car finishes.

use vstd::prelude::*;

use crate::action::{Action, Request, ACCELERATION, BANANA, KINDS, SHELL};
use crate::car::{charge, charged, copy_cars, Car};
use crate::log::{copy_logs, copy_vec, Log};
use crate::market::{answered, cost_of, is_price_curve, price_of, quote, unit_price};
use crate::laws::{lemma_turn_outcome, lemma_turn_purchases, turn_outcome};
use crate::track::{
    contains, lemma_first_finisher, FINISH_DISTANCE, fire_shells, find_finisher, first_finisher, insert_sorted, insertion_point,
    move_all, move_cars, place, placed, shells, strictly_sorted,
};

verus! {

/// How many cars a race takes; it starts when the last one registers.
pub const PLAYERS_REQUIRED: usize = 3;

/// Relies on rand::random: a `u64` drawn from the thread-local generator.
/// Nothing is promised of the value.
#[verifier::external_body]
fn draw_seed() -> u64 {
    rand::random::<u64>()
}

/// Where a race stands.
#[derive(Debug, Clone, Copy, PartialEq, Eq, Structural)]
pub enum State {
    /// Cars are still registering.
    Waiting,
    /// The race runs.
    Active,
    /// A car has finished.
    Done,
}

/// Why a race operation was refused.
#[derive(Debug, Clone, Copy, PartialEq, Eq, Structural)]
pub enum RaceError {
    /// A car tried to register after the race started.
    RegistrationClosed,
    /// The race is not running: cars are missing, or it is over.
    NotReady,
    /// The turn counter cannot go further.
    OutOfTurns,
}

/// A script host: runs, once, the script of the car whose turn it is. The
/// script sees the race as it stands and answers with the purchases it asks
/// for, in order; an error means the script failed.
pub trait Runner {
    fn run(&mut self, game: &Game) -> Result<Vec<Request>, String>;
}

/// A log entry of the given state.
fn snapshot<F: Fn(usize, usize, u128) -> u128>(
    actions: Vec<Action>,
    cars: &Vec<Car>,
    bananas: &Vec<u32>,
    sold: &Vec<u128>,
    turn: usize,
    current: usize,
    price: &F,
) -> (r: Log)
    requires
        is_price_curve(*price),
        sold@.len() == KINDS,
    ensures
        r.actions@ == actions@,
        r.bananas@ == bananas@,
        r.cars@ == cars@,
        r.actions_sold@ == sold@,
        r.current_car == current,
        r.costs@ == seq![
            unit_price(*price, ACCELERATION, turn, sold@[ACCELERATION as int]),
            unit_price(*price, BANANA, turn, sold@[BANANA as int]),
            unit_price(*price, SHELL, turn, sold@[SHELL as int]),
        ],
{
    let mut costs: Vec<u128> = Vec::new();
    costs.push(price_of(price, ACCELERATION, turn, sold[ACCELERATION]));
    costs.push(price_of(price, BANANA, turn, sold[BANANA]));
    costs.push(price_of(price, SHELL, turn, sold[SHELL]));
    let mut log = Log::default();
    log.actions = actions;
    log.add_info(copy_vec(bananas), costs, current, copy_cars(cars), copy_vec(sold));
    assert(log.costs@ =~= seq![
        unit_price(*price, ACCELERATION, turn, sold@[ACCELERATION as int]),
        unit_price(*price, BANANA, turn, sold@[BANANA as int]),
        unit_price(*price, SHELL, turn, sold@[SHELL as int]),
    ]);
    log
}

/// A race: its cars, the bananas on the track, the sales counters and the
/// log of every turn.
#[derive(Debug)]
pub struct Game {
    state: State,
    turns: usize,
    cars: Vec<Car>,
    bananas: Vec<u32>,
    logs: Vec<Log>,
    winner: Option<usize>,
    actions_sold: Vec<u128>,
    seed: u64,
    actions: Vec<Action>,
}

/// What a race holds, as mathematical values.
pub struct GameView {
    pub state: State,
    pub turns: usize,
    pub cars: Seq<Car>,
    pub bananas: Seq<u32>,
    pub logs: Seq<Log>,
    pub winner: Option<usize>,
    pub sold: Seq<u128>,
    pub seed: u64,
    pub actions: Seq<Action>,
}

impl View for Game {
    type V = GameView;

    closed spec fn view(&self) -> GameView {
        GameView {
            state: self.state,
            turns: self.turns,
            cars: self.cars@,
            bananas: self.bananas@,
            logs: self.logs@,
            winner: self.winner,
            sold: self.actions_sold@,
            seed: self.seed,
            actions: self.actions@,
        }
    }
}

impl GameView {
    /// The index of the car whose turn it is: turn number modulo the number
    /// of cars.
    pub open spec fn active(self) -> int {
        self.turns as int % self.cars.len() as int
    }

    /// `log` is a snapshot of this race: its purchases of the turn, bananas,
    /// cars, sales counters, the car whose turn it is, and the unit price of
    /// each kind.
    pub open spec fn describes<F: Fn(usize, usize, u128) -> u128>(self, log: Log, price: F) -> bool {
        &&& log.actions@ == self.actions
        &&& log.bananas@ == self.bananas
        &&& log.cars@ == self.cars
        &&& log.actions_sold@ == self.sold
        &&& log.current_car == self.active()
        &&& log.costs@ == seq![
            unit_price(price, ACCELERATION, self.turns, self.sold[ACCELERATION as int]),
            unit_price(price, BANANA, self.turns, self.sold[BANANA as int]),
            unit_price(price, SHELL, self.turns, self.sold[SHELL as int]),
        ]
    }

    /// `next` is this race after the end of its turn: every car moved in
    /// order, the first one past the finish wins, a log entry records the
    /// turn, and the turn number goes up.
    pub open spec fn after_turn<F: Fn(usize, usize, u128) -> u128>(self, price: F, next: GameView) -> bool {
        let (cars, bananas) = move_cars(self.cars, self.bananas);
        let w = first_finisher(cars, 0);
        &&& next.cars == cars
        &&& next.bananas == bananas
        &&& next.state == if w < cars.len() {
            State::Done
        } else {
            State::Active
        }
        &&& next.winner == if w < cars.len() {
            Some(w as usize)
        } else {
            None
        }
        &&& next.turns == self.turns + 1
        &&& next.sold == self.sold
        &&& next.seed == self.seed
        &&& next.actions.len() == 0
        &&& next.logs.len() == self.logs.len() + 1
        &&& next.logs.drop_last() == self.logs
        &&& (GameView { cars, bananas, ..self }).describes(next.logs.last(), price)
    }

    /// The car whose turn it is.
    pub open spec fn buyer(self) -> Car {
        self.cars[self.active()]
    }

    /// What `amount` units of `kind` cost now, if they can be sold.
    pub open spec fn cost<F: Fn(usize, usize, u128) -> u128>(
        self,
        price: F,
        kind: usize,
        amount: nat,
    ) -> Option<u128> {
        quote(price, kind, self.turns, self.sold[kind as int], amount)
    }

    /// Whether the race takes the request of the car whose turn it is.
    pub open spec fn accepts<F: Fn(usize, usize, u128) -> u128>(self, r: Request, price: F) -> bool {
        match r {
            Request::Acceleration(n) => self.can_accelerate(price, n),
            Request::Banana => self.can_drop_banana(price),
            Request::Shell(n) => self.can_shell(price, n),
        }
    }

    /// The race after the request: as the purchase leaves it when it is
    /// taken, unchanged when it is refused.
    pub open spec fn after_request<F: Fn(usize, usize, u128) -> u128>(
        self,
        r: Request,
        price: F,
    ) -> GameView {
        if !self.accepts(r, price) {
            self
        } else {
            match r {
                Request::Acceleration(n) => self.accelerated(price, n),
                Request::Banana => self.banana_dropped(price),
                Request::Shell(n) => self.shelled(price, n),
            }
        }
    }

    /// The race after the requests, each on the state the ones before left.
    pub open spec fn after_requests<F: Fn(usize, usize, u128) -> u128>(
        self,
        reqs: Seq<Request>,
        price: F,
    ) -> GameView
        decreases reqs.len(),
    {
        if reqs.len() == 0 {
            self
        } else {
            self.after_requests(reqs.drop_last(), price).after_request(reqs.last(), price)
        }
    }

    /// Whether the car whose turn it is can buy `amount` speed units: the race
    /// runs, the units can be sold, the car can pay, and its speed stays a `u32`.
    pub open spec fn can_accelerate<F: Fn(usize, usize, u128) -> u128>(
        self,
        price: F,
        amount: u32,
    ) -> bool {
        &&& self.state == State::Active
        &&& self.cost(price, ACCELERATION, amount as nat) matches Some(c)
        &&& c <= self.buyer().balance
        &&& self.buyer().speed + amount <= u32::MAX
    }

    /// The race after the car whose turn it is bought `amount` speed units.
    pub open spec fn accelerated<F: Fn(usize, usize, u128) -> u128>(
        self,
        price: F,
        amount: u32,
    ) -> GameView {
        let c = self.cost(price, ACCELERATION, amount as nat)->Some_0;
        let car = self.buyer();
        GameView {
            cars: self.cars.update(
                self.active(),
                placed(charged(car, c), car.y, (car.speed + amount) as u32),
            ),
            sold: self.sold.update(ACCELERATION as int, (self.sold[ACCELERATION as int] + amount) as u128),
            actions: self.actions.push(Action::Acceleration(amount)),
            ..self
        }
    }

    /// Whether the car whose turn it is can drop a banana: the race runs, no
    /// banana lies where the car stands, one can be sold and the car can pay.
    pub open spec fn can_drop_banana<F: Fn(usize, usize, u128) -> u128>(self, price: F) -> bool {
        &&& self.state == State::Active
        &&& !self.bananas.contains(self.buyer().y)
        &&& self.cost(price, BANANA, 1) matches Some(c)
        &&& c <= self.buyer().balance
    }

    /// The race after the car whose turn it is dropped a banana where it stands.
    pub open spec fn banana_dropped<F: Fn(usize, usize, u128) -> u128>(self, price: F) -> GameView {
        let c = self.cost(price, BANANA, 1)->Some_0;
        let car = self.buyer();
        GameView {
            cars: self.cars.update(self.active(), charged(car, c)),
            bananas: self.bananas.insert(insertion_point(self.bananas, car.y), car.y),
            sold: self.sold.update(BANANA as int, (self.sold[BANANA as int] + 1) as u128),
            actions: self.actions.push(Action::Banana(self.active() as usize)),
            ..self
        }
    }

    /// Whether the car whose turn it is can fire `amount` shells: the race
    /// runs, they can be sold and the car can pay for all of them.
    pub open spec fn can_shell<F: Fn(usize, usize, u128) -> u128>(self, price: F, amount: u32) -> bool {
        &&& self.state == State::Active
        &&& self.cost(price, SHELL, amount as nat) matches Some(c)
        &&& c <= self.buyer().balance
    }

    /// The race after the car whose turn it is paid for `amount` shells and
    /// fired them one after the other.
    pub open spec fn shelled<F: Fn(usize, usize, u128) -> u128>(self, price: F, amount: u32) -> GameView {
        let c = self.cost(price, SHELL, amount as nat)->Some_0;
        let paid = self.cars.update(self.active(), charged(self.buyer(), c));
        let (cars, bananas) = shells(paid, self.bananas, self.active(), amount as nat);
        GameView {
            cars,
            bananas,
            sold: self.sold.update(SHELL as int, (self.sold[SHELL as int] + amount) as u128),
            actions: self.actions.push(Action::Shell(amount as usize)),
            ..self
        }
    }
}

impl Game {
    #[verifier::type_invariant]
    spec fn inv(self) -> bool {
        &&& strictly_sorted(self.bananas@)
        &&& self.actions_sold@.len() == KINDS
        &&& self.cars@.len() <= PLAYERS_REQUIRED
        &&& (self.state == State::Waiting) == (self.cars@.len() < PLAYERS_REQUIRED)
        &&& (self.state == State::Done) == (self.winner is Some)
        &&& (self.winner matches Some(w) ==> w < self.cars@.len() && w == first_finisher(self.cars@, 0))
        &&& self.turns >= 1
    }

    /// An empty race waiting for its cars, at turn one, with a random seed
    /// that scripts may use.
    pub fn new() -> (r: Game)
        ensures
            r@.state == State::Waiting,
            r@.turns == 1,
            r@.cars.len() == 0,
            r@.bananas.len() == 0,
            r@.logs.len() == 0,
            r@.winner is None,
            r@.sold == seq![0u128, 0u128, 0u128],
            r@.actions.len() == 0,
    {
        let seed = draw_seed();
        let mut actions_sold: Vec<u128> = Vec::new();
        actions_sold.push(0);
        actions_sold.push(0);
        actions_sold.push(0);
        assert(actions_sold@ =~= seq![0u128, 0u128, 0u128]);
        Game {
            state: State::Waiting,
            turns: 1,
            cars: Vec::new(),
            bananas: Vec::new(),
            logs: Vec::new(),
            winner: None,
            actions_sold,
            seed,
            actions: Vec::new(),
        }
    }

    /// A race with nothing in it, to stand in while a method rebuilds one.
    fn blank() -> (r: Game) {
        let mut actions_sold: Vec<u128> = Vec::new();
        actions_sold.push(0);
        actions_sold.push(0);
        actions_sold.push(0);
        Game {
            state: State::Waiting,
            turns: 1,
            cars: Vec::new(),
            bananas: Vec::new(),
            logs: Vec::new(),
            winner: None,
            actions_sold,
            seed: 0,
            actions: Vec::new(),
        }
    }

    /// Moves the race out of `self`, leaving a blank one behind.
    fn take(&mut self) -> (g: Game)
        ensures
            g@ == old(self)@,
    {
        let mut g = Game::blank();
        std::mem::swap(self, &mut g);
        g
    }

    /// Adds a car while the race waits; the race starts with the last car
    /// it needs. Refused once the race has started.
    pub fn register(&mut self, car: Car) -> (r: Result<(), RaceError>)
        ensures
            old(self)@.state != State::Waiting ==> r == Err::<(), RaceError>(
                RaceError::RegistrationClosed,
            ) && final(self)@ == old(self)@,
            old(self)@.state == State::Waiting ==> r is Ok && final(self)@ == (GameView {
                cars: old(self)@.cars.push(car),
                state: if old(self)@.cars.len() + 1 == PLAYERS_REQUIRED {
                    State::Active
                } else {
                    State::Waiting
                },
                ..old(self)@
            }),
    {
        proof {
            use_type_invariant(&*self);
        }
        if self.state != State::Waiting {
            return Err(RaceError::RegistrationClosed);
        }
        let g = self.take();
        proof {
            use_type_invariant(&g);
        }
        let Game { state, turns, mut cars, bananas, logs, winner, actions_sold, seed, actions } = g;
        cars.push(car);
        let state = if cars.len() == PLAYERS_REQUIRED {
            State::Active
        } else {
            State::Waiting
        };
        *self = Game { state, turns, cars, bananas, logs, winner, actions_sold, seed, actions };
        Ok(())
    }

    /// The index of the car whose turn it is.
    pub fn get_index(&self) -> (r: usize)
        requires
            self@.cars.len() > 0,
        ensures
            r == self@.active(),
            r < self@.cars.len(),
    {
        self.turns % self.cars.len()
    }
    /// The price of `amount` speed units now: each unit priced at the sales
    /// count the units before it reached; `None` when they cannot be sold.
    pub fn get_accelerate_cost<F: Fn(usize, usize, u128) -> u128>(&self, amount: u32, price: &F) -> (r: Option<u128>)
        requires
            is_price_curve(*price),
        ensures
            r == self@.cost(*price, ACCELERATION, amount as nat),
            r is Some ==> answered(*price, ACCELERATION, self@.turns, self@.sold[ACCELERATION as int], amount as nat),
    {
        proof {
            use_type_invariant(self);
        }
        cost_of(price, ACCELERATION, self.turns, self.actions_sold[ACCELERATION], amount)
    }

    /// The price of one banana now.
    pub fn get_banana_cost<F: Fn(usize, usize, u128) -> u128>(&self, price: &F) -> (r: u128)
        requires
            is_price_curve(*price),
        ensures
            r == unit_price(*price, BANANA, self@.turns, self@.sold[BANANA as int]),
            price.ensures((BANANA, self@.turns, self@.sold[BANANA as int]), r),
    {
        proof {
            use_type_invariant(self);
        }
        price_of(price, BANANA, self.turns, self.actions_sold[BANANA])
    }

    /// The price of `amount` shells now, priced unit by unit as speed units
    /// are; `None` when they cannot be sold.
    pub fn get_shell_cost<F: Fn(usize, usize, u128) -> u128>(&self, amount: u32, price: &F) -> (r: Option<u128>)
        requires
            is_price_curve(*price),
        ensures
            r == self@.cost(*price, SHELL, amount as nat),
            r is Some ==> answered(*price, SHELL, self@.turns, self@.sold[SHELL as int], amount as nat),
    {
        proof {
            use_type_invariant(self);
        }
        cost_of(price, SHELL, self.turns, self.actions_sold[SHELL], amount)
    }

    /// The car whose turn it is buys `amount` speed units, paying for all of
    /// them at once; refused, with nothing changed, when it cannot.
    pub fn buy_acceleration<F: Fn(usize, usize, u128) -> u128>(&mut self, amount: u32, price: &F) -> (ok: bool)
        requires
            is_price_curve(*price),
        ensures
            ok == old(self)@.can_accelerate(*price, amount),
            ok ==> answered(*price, ACCELERATION, old(self)@.turns, old(self)@.sold[ACCELERATION as int], amount as nat),
            ok ==> final(self)@ == old(self)@.accelerated(*price, amount),
            !ok ==> final(self)@ == old(self)@,
    {
        proof {
            use_type_invariant(&*self);
        }
        if self.state != State::Active {
            return false;
        }
        let i = self.get_index();
        let cost = match self.get_accelerate_cost(amount, price) {
            Some(c) => c,
            None => {
                return false;
            },
        };
        if cost > self.cars[i].balance || self.cars[i].speed > u32::MAX - amount {
            return false;
        }
        let g = self.take();
        proof {
            use_type_invariant(&g);
        }
        let Game { state, turns, mut cars, bananas, logs, winner, mut actions_sold, seed, mut actions } = g;
        let y = cars[i].y;
        let speed = cars[i].speed + amount;
        let ghost before = cars@;
        charge(&mut cars, i, cost);
        place(&mut cars, i, y, speed);
        assert(cars@ =~= before.update(i as int, placed(charged(before[i as int], cost), y, speed)));
        let sold = actions_sold[ACCELERATION] + amount as u128;
        actions_sold.set(ACCELERATION, sold);
        actions.push(Action::Acceleration(amount));
        *self = Game { state, turns, cars, bananas, logs, winner, actions_sold, seed, actions };
        true
    }

    /// The car whose turn it is drops a banana where it stands; refused, with
    /// nothing changed, when one lies there already or it cannot pay.
    pub fn buy_banana<F: Fn(usize, usize, u128) -> u128>(&mut self, price: &F) -> (ok: bool)
        requires
            is_price_curve(*price),
        ensures
            ok == old(self)@.can_drop_banana(*price),
            ok ==> answered(*price, BANANA, old(self)@.turns, old(self)@.sold[BANANA as int], 1),
            ok ==> final(self)@ == old(self)@.banana_dropped(*price),
            !ok ==> final(self)@ == old(self)@,
    {
        proof {
            use_type_invariant(&*self);
        }
        if self.state != State::Active {
            return false;
        }
        let i = self.get_index();
        let y = self.cars[i].y;
        if contains(&self.bananas, y) {
            return false;
        }
        let cost = match cost_of(price, BANANA, self.turns, self.actions_sold[BANANA], 1) {
            Some(c) => c,
            None => {
                return false;
            },
        };
        if cost > self.cars[i].balance {
            return false;
        }
        let g = self.take();
        proof {
            use_type_invariant(&g);
        }
        let Game { state, turns, mut cars, mut bananas, logs, winner, mut actions_sold, seed, mut actions } = g;
        charge(&mut cars, i, cost);
        insert_sorted(&mut bananas, y);
        let sold = actions_sold[BANANA] + 1;
        actions_sold.set(BANANA, sold);
        actions.push(Action::Banana(i));
        *self = Game { state, turns, cars, bananas, logs, winner, actions_sold, seed, actions };
        true
    }

    /// The car whose turn it is pays for `amount` shells and fires them one
    /// after the other; refused, with nothing changed, when it cannot pay for
    /// all of them.
    pub fn buy_shell<F: Fn(usize, usize, u128) -> u128>(&mut self, amount: u32, price: &F) -> (ok: bool)
        requires
            is_price_curve(*price),
        ensures
            ok == old(self)@.can_shell(*price, amount),
            ok ==> answered(*price, SHELL, old(self)@.turns, old(self)@.sold[SHELL as int], amount as nat),
            ok ==> final(self)@ == old(self)@.shelled(*price, amount),
            !ok ==> final(self)@ == old(self)@,
    {
        proof {
            use_type_invariant(&*self);
        }
        if self.state != State::Active {
            return false;
        }
        let i = self.get_index();
        let cost = match self.get_shell_cost(amount, price) {
            Some(c) => c,
            None => {
                return false;
            },
        };
        if cost > self.cars[i].balance {
            return false;
        }
        let g = self.take();
        proof {
            use_type_invariant(&g);
        }
        let Game { state, turns, mut cars, mut bananas, logs, winner, mut actions_sold, seed, mut actions } = g;
        charge(&mut cars, i, cost);
        fire_shells(&mut cars, &mut bananas, i, amount);
        let sold = actions_sold[SHELL] + amount as u128;
        actions_sold.set(SHELL, sold);
        actions.push(Action::Shell(amount as usize));
        *self = Game { state, turns, cars, bananas, logs, winner, actions_sold, seed, actions };
        true
    }
    /// Ends the turn: every car moves, a car past the finish ends the race,
    /// a log entry records the turn, and the turn number goes up.
    pub fn finish_turn<F: Fn(usize, usize, u128) -> u128>(&mut self, price: &F) -> (r: Result<(), RaceError>)
        requires
            is_price_curve(*price),
        ensures
            old(self)@.state != State::Active ==> r == Err::<(), RaceError>(RaceError::NotReady)
                && final(self)@ == old(self)@,
            old(self)@.state == State::Active && old(self)@.turns == usize::MAX ==> r == Err::<
                (),
                RaceError,
            >(RaceError::OutOfTurns) && final(self)@ == old(self)@,
            old(self)@.state == State::Active && old(self)@.turns < usize::MAX ==> r is Ok
                && old(self)@.after_turn(*price, final(self)@),
    {
        proof {
            use_type_invariant(&*self);
        }
        if self.state != State::Active {
            return Err(RaceError::NotReady);
        }
        if self.turns == usize::MAX {
            return Err(RaceError::OutOfTurns);
        }
        let current = self.get_index();
        let g = self.take();
        proof {
            use_type_invariant(&g);
        }
        let Game { state, turns, mut cars, mut bananas, mut logs, winner, actions_sold, seed, actions } = g;
        move_all(&mut cars, &mut bananas);
        let w = find_finisher(&cars);
        let entry = snapshot(actions, &cars, &bananas, &actions_sold, turns, current, price);
        let ghost pre_logs = logs@;
        logs.push(entry);
        assert(logs@.drop_last() =~= pre_logs);
        if w < cars.len() {
            *self = Game {
                state: State::Done,
                turns: turns + 1,
                cars,
                bananas,
                logs,
                winner: Some(w),
                actions_sold,
                seed,
                actions: Vec::new(),
            };
        } else {
            *self = Game {
                state,
                turns: turns + 1,
                cars,
                bananas,
                logs,
                winner,
                actions_sold,
                seed,
                actions: Vec::new(),
            };
        }
        Ok(())
    }

    /// Appends a log entry of the race as it stands.
    fn log_turn<F: Fn(usize, usize, u128) -> u128>(&mut self, price: &F)
        requires
            is_price_curve(*price),
            old(self)@.cars.len() > 0,
        ensures
            final(self)@ == (GameView { logs: final(self)@.logs, ..old(self)@ }),
            final(self)@.logs.drop_last() == old(self)@.logs,
            final(self)@.logs.len() == old(self)@.logs.len() + 1,
            old(self)@.describes(final(self)@.logs.last(), *price),
    {
        let current = self.get_index();
        let g = self.take();
        proof {
            use_type_invariant(&g);
        }
        let Game { state, turns, cars, bananas, mut logs, winner, actions_sold, seed, actions } = g;
        let entry = snapshot(copy_vec(&actions), &cars, &bananas, &actions_sold, turns, current, price);
        let ghost pre_logs = logs@;
        logs.push(entry);
        assert(logs@.drop_last() =~= pre_logs);
        *self = Game { state, turns, cars, bananas, logs, winner, actions_sold, seed, actions };
    }

    /// Takes one request of the car whose turn it is, as `after_request`
    /// says; tells whether it was taken.
    pub fn apply_request<F: Fn(usize, usize, u128) -> u128>(&mut self, request: Request, price: &F) -> (ok: bool)
        requires
            is_price_curve(*price),
        ensures
            ok == old(self)@.accepts(request, *price),
            final(self)@ == old(self)@.after_request(request, *price),
    {
        match request {
            Request::Acceleration(n) => self.buy_acceleration(n, price),
            Request::Banana => self.buy_banana(price),
            Request::Shell(n) => self.buy_shell(n, price),
        }
    }

    /// Takes the requests one after the other, as `after_requests` says.
    pub fn apply_requests<F: Fn(usize, usize, u128) -> u128>(&mut self, requests: &Vec<Request>, price: &F)
        requires
            is_price_curve(*price),
        ensures
            final(self)@ == old(self)@.after_requests(requests@, *price),
    {
        let mut i: usize = 0;
        while i < requests.len()
            invariant
                is_price_curve(*price),
                i <= requests@.len(),
                self@ == old(self)@.after_requests(requests@.take(i as int), *price),
            decreases requests@.len() - i,
        {
            self.apply_request(requests[i], price);
            assert(requests@.take(i + 1).drop_last() =~= requests@.take(i as int));
            i = i + 1;
        }
        assert(requests@.take(i as int) =~= requests@);
    }

    /// Ends a turn on what the script answered: the purchases it asked for
    /// are taken in order when it ran; a failed script buys nothing. Then
    /// the turn ends as `finish_turn` says.
    pub fn settle_turn<F: Fn(usize, usize, u128) -> u128>(
        &mut self,
        outcome: Result<Vec<Request>, String>,
        price: &F,
    ) -> (r: Result<(), RaceError>)
        requires
            is_price_curve(*price),
        ensures
            old(self)@.state != State::Active ==> r == Err::<(), RaceError>(RaceError::NotReady)
                && final(self)@ == old(self)@,
            old(self)@.state == State::Active && old(self)@.turns == usize::MAX ==> r == Err::<
                (),
                RaceError,
            >(RaceError::OutOfTurns) && final(self)@ == old(self)@,
            old(self)@.state == State::Active && old(self)@.turns < usize::MAX ==> r is Ok && match outcome {
                Ok(reqs) => old(self)@.after_requests(reqs@, *price).after_turn(*price, final(self)@),
                Err(_) => old(self)@.after_turn(*price, final(self)@),
            },
    {
        proof {
            use_type_invariant(&*self);
        }
        if self.state != State::Active {
            return Err(RaceError::NotReady);
        }
        if self.turns == usize::MAX {
            return Err(RaceError::OutOfTurns);
        }
        match outcome {
            Ok(reqs) => {
                self.apply_requests(&reqs, price);
                proof {
                    lemma_turn_purchases(old(self)@, reqs@, *price);
                }
            },
            Err(_) => {},
        }
        self.finish_turn(price)
    }

    /// Plays one turn: the runner runs the script of the car whose turn it
    /// is on the race as it stands, and the turn is settled on its answer,
    /// as `settle_turn` says. Whatever the script asked for, only the car
    /// whose turn it is pays, exactly the cost of what was taken, and the
    /// sales counters grow by exactly the units taken.
    pub fn play_turn<R: Runner, F: Fn(usize, usize, u128) -> u128>(
        &mut self,
        runner: &mut R,
        price: &F,
    ) -> (r: Result<(), RaceError>)
        requires
            is_price_curve(*price),
        ensures
            old(self)@.state != State::Active ==> r == Err::<(), RaceError>(RaceError::NotReady)
                && final(self)@ == old(self)@,
            old(self)@.state == State::Active && old(self)@.turns == usize::MAX ==> r == Err::<
                (),
                RaceError,
            >(RaceError::OutOfTurns) && final(self)@ == old(self)@,
            old(self)@.state == State::Active && old(self)@.turns < usize::MAX ==> {
                &&& r is Ok
                &&& final(self)@.turns == old(self)@.turns + 1
                &&& final(self)@.state != State::Waiting
                &&& final(self)@.logs.drop_last() == old(self)@.logs
                &&& final(self)@.logs.len() == old(self)@.logs.len() + 1
                &&& final(self)@.logs.last().current_car == old(self)@.active()
                &&& exists|reqs: Seq<Request>| #[trigger] turn_outcome(old(self)@, reqs, *price, final(self)@)
            },
    {
        proof {
            use_type_invariant(&*self);
        }
        if self.state != State::Active {
            return Err(RaceError::NotReady);
        }
        if self.turns == usize::MAX {
            return Err(RaceError::OutOfTurns);
        }
        let outcome = runner.run(self);
        let ghost reqs = if outcome is Ok {
            outcome->Ok_0@
        } else {
            Seq::<Request>::empty()
        };
        let r = self.settle_turn(outcome, price);
        proof {
            lemma_turn_purchases(old(self)@, reqs, *price);
            lemma_turn_outcome(old(self)@, reqs, *price, self@);
        }
        r
    }

    /// Runs the race to its end: logs the starting state, then plays turns
    /// until a car finishes. Refused unless the race has all its cars and
    /// has not been run. It stops short only when the turn counter runs out.
    pub fn race<R: Runner, F: Fn(usize, usize, u128) -> u128>(&mut self, runner: &mut R, price: &F) -> (r: Result<(), RaceError>)
        requires
            is_price_curve(*price),
        ensures
            old(self)@.state != State::Active ==> r == Err::<(), RaceError>(RaceError::NotReady)
                && final(self)@ == old(self)@,
            old(self)@.state == State::Active ==> {
                &&& final(self)@.logs.len() > old(self)@.logs.len()
                &&& final(self)@.logs.take(old(self)@.logs.len() as int) == old(self)@.logs
                &&& old(self)@.describes(final(self)@.logs[old(self)@.logs.len() as int], *price)
            },
            old(self)@.state == State::Active ==> r is Ok || (r == Err::<(), RaceError>(
                RaceError::OutOfTurns,
            ) && final(self)@.state == State::Active && final(self)@.turns == usize::MAX),
            r is Ok ==> final(self)@.state == State::Done,
            r is Ok ==> (final(self)@.winner matches Some(w) && w < final(self)@.cars.len()
                && final(self)@.cars[w as int].y >= FINISH_DISTANCE && forall|j: int|
                0 <= j < w ==> #[trigger] final(self)@.cars[j].y < FINISH_DISTANCE),
    {
        proof {
            use_type_invariant(&*self);
        }
        if self.state != State::Active {
            return Err(RaceError::NotReady);
        }
        let ghost start = self@;
        self.log_turn(price);
        let ghost first = self@.logs;
        while self.state == State::Active && self.turns < usize::MAX
            invariant
                is_price_curve(*price),
                self@.logs.len() >= first.len(),
                self@.logs.take(first.len() as int) == first,
                first.len() == start.logs.len() + 1,
                first.drop_last() == start.logs,
                start.describes(first.last(), *price),
                self@.state != State::Waiting,
            decreases usize::MAX - self@.turns,
        {
            let ghost before = self@;
            let _ = self.play_turn(runner, price);
            assert(self@.logs.take(first.len() as int) =~= first) by {
                assert(self@.logs.drop_last() == before.logs);
                assert forall|i: int| 0 <= i < first.len() implies self@.logs[i] == first[i] by {
                    assert(before.logs.take(first.len() as int)[i] == first[i]);
                    assert(self@.logs.drop_last()[i] == self@.logs[i]);
                }
            }
        }
        proof {
            use_type_invariant(&*self);
            assert(self@.logs[start.logs.len() as int] == self@.logs.take(first.len() as int)[start.logs.len() as int]);
            assert(first[start.logs.len() as int] == first.last());
            assert forall|i: int| 0 <= i < start.logs.len() implies self@.logs.take(start.logs.len() as int)[i] == start.logs[i] by {
                assert(self@.logs.take(first.len() as int)[i] == first[i]);
                assert(first.drop_last()[i] == first[i]);
            }
            assert(self@.logs.take(start.logs.len() as int) =~= start.logs);
        }
        if self.state == State::Done {
            proof {
                lemma_first_finisher(self@.cars, 0);
            }
            Ok(())
        } else {
            Err(RaceError::OutOfTurns)
        }
    }

    /// A copy of the race, for a script host that previews purchases.
    pub fn copy(&self) -> (r: Game)
        ensures
            r@ == (GameView { logs: r@.logs, ..self@ }),
            r@.logs.len() == self@.logs.len(),
            forall|i: int| 0 <= i < self@.logs.len() ==> (#[trigger] r@.logs[i]).same_as(self@.logs[i]),
    {
        proof {
            use_type_invariant(self);
        }
        Game {
            state: self.state,
            turns: self.turns,
            cars: copy_cars(&self.cars),
            bananas: copy_vec(&self.bananas),
            logs: copy_logs(&self.logs),
            winner: self.winner,
            actions_sold: copy_vec(&self.actions_sold),
            seed: self.seed,
            actions: copy_vec(&self.actions),
        }
    }

    /// Where the race stands.
    pub fn state(&self) -> (r: State)
        ensures
            r == self@.state,
    {
        self.state
    }

    /// The turn number; turns count from one.
    pub fn turns(&self) -> (r: usize)
        ensures
            r == self@.turns,
    {
        self.turns
    }

    /// The cars, in registration order.
    pub fn cars(&self) -> (r: &Vec<Car>)
        ensures
            r@ == self@.cars,
    {
        &self.cars
    }

    /// The bananas on the track: always strictly ascending, so sorted and
    /// never two at one position.
    pub fn bananas(&self) -> (r: &Vec<u32>)
        ensures
            r@ == self@.bananas,
            strictly_sorted(r@),
    {
        proof {
            use_type_invariant(self);
        }
        &self.bananas
    }

    /// The log entries, one per turn after the starting one.
    pub fn logs(&self) -> (r: &Vec<Log>)
        ensures
            r@ == self@.logs,
    {
        &self.logs
    }

    /// The index of the car that won, once the race is over.
    pub fn winner(&self) -> (r: Option<usize>)
        ensures
            r == self@.winner,
            r is Some <==> self@.state == State::Done,
            r matches Some(w) ==> w < self@.cars.len(),
    {
        proof {
            use_type_invariant(self);
        }
        self.winner
    }

    /// The sales counters of acceleration, bananas and shells.
    pub fn actions_sold(&self) -> (r: &Vec<u128>)
        ensures
            r@ == self@.sold,
            r@.len() == KINDS,
    {
        proof {
            use_type_invariant(self);
        }
        &self.actions_sold
    }

    /// The purchases made so far in this turn.
    pub fn actions(&self) -> (r: &Vec<Action>)
        ensures
            r@ == self@.actions,
    {
        &self.actions
    }

    /// The race's random seed, for scripts that want one.
    pub fn seed(&self) -> (r: u64)
        ensures
            r == self@.seed,
    {
        self.seed
    }
}

} // verus!
