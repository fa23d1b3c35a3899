//! What holds of every race: purchases charge exactly what they cost, only
//! the car whose turn it is pays, and a race in which cars keep moving ends.

use vstd::prelude::*;

use crate::action::{Request, ACCELERATION, BANANA, KINDS, SHELL};
use crate::car::{charged, Car};
use crate::game::{GameView, State};
use crate::track::{
    lemma_cars_advance, lemma_no_finisher, lemma_shells_keep, lemma_total_distance_grows,
    lemma_total_distance_short, total_distance, FINISH_DISTANCE,
};

verus! {

/// Some car has speed.
pub open spec fn has_speed(cars: Seq<Car>) -> bool {
    exists|i: int| 0 <= i < cars.len() && #[trigger] cars[i].speed > 0
}

/// Two rosters with the cars at the same positions.
pub open spec fn same_positions(a: Seq<Car>, b: Seq<Car>) -> bool {
    a.len() == b.len() && forall|i: int| 0 <= i < a.len() ==> #[trigger] a[i].y == b[i].y
}

/// A race ends. Take consecutive turns: turn `t` ends from `before[t]`
/// into `after[t]`, and `before[t + 1]` has the cars where `after[t]` left
/// them (purchases move no car). When in every one of these turns some car
/// has speed and the race still runs after it, there are fewer of them than
/// `cars × FINISH_DISTANCE`: each such turn brings the cars further, and a
/// running race has every car short of the finish.
pub proof fn lemma_race_ends<F: Fn(usize, usize, u128) -> u128>(
    price: F,
    before: Seq<GameView>,
    after: Seq<GameView>,
)
    requires
        before.len() == after.len(),
        before.len() > 0,
        forall|t: int| 0 <= t < before.len() ==> #[trigger] before[t].after_turn(price, after[t]),
        forall|t: int|
            0 <= t < before.len() - 1 ==> same_positions(#[trigger] after[t].cars, before[t + 1].cars),
        forall|t: int| 0 <= t < before.len() ==> has_speed(#[trigger] before[t].cars),
        forall|t: int| 0 <= t < after.len() ==> #[trigger] after[t].state == State::Active,
    ensures
        before.len() < before[0].cars.len() * FINISH_DISTANCE,
{
    let n = before[0].cars.len();
    let k = before.len();
    assert forall|t: int| 0 <= t < k implies {
        &&& #[trigger] after[t].cars.len() == n
        &&& forall|i: int| 0 <= i < n ==> #[trigger] after[t].cars[i].y < FINISH_DISTANCE
        &&& total_distance(after[t].cars) >= total_distance(before[t].cars) + 1
    } by {
        lemma_turn_moves(price, before[t], after[t]);
        if t > 0 {
            lemma_lengths_kept(price, before, after, t);
        }
    }
    assert forall|t: int| 0 <= t < k implies total_distance(#[trigger] after[t].cars) >= t + 1 by {
        lemma_distance_chain(price, before, after, t);
    }
    lemma_total_distance_short(after[k - 1].cars);
    assert(k <= n * (FINISH_DISTANCE - 1)) by (nonlinear_arith)
        requires
            total_distance(after[k - 1].cars) >= k,
            total_distance(after[k - 1].cars) <= n * (FINISH_DISTANCE - 1),
    ;
}

/// One turn that leaves the race running, with some car having speed: every
/// car is then short of the finish and the cars have come further.
proof fn lemma_turn_moves<F: Fn(usize, usize, u128) -> u128>(price: F, g: GameView, next: GameView)
    requires
        g.after_turn(price, next),
        next.state == State::Active,
        has_speed(g.cars),
    ensures
        next.cars.len() == g.cars.len(),
        forall|i: int| 0 <= i < next.cars.len() ==> #[trigger] next.cars[i].y < FINISH_DISTANCE,
        total_distance(next.cars) >= total_distance(g.cars) + 1,
{
    lemma_cars_advance(g.cars, g.bananas);
    lemma_no_finisher(next.cars, 0);
    let i = choose|i: int| 0 <= i < g.cars.len() && #[trigger] g.cars[i].speed > 0;
    assert(next.cars[i].y >= g.cars[i].y);
    assert(next.cars[i].y < FINISH_DISTANCE);
    assert(g.cars[i].y < u32::MAX);
    assert(g.cars[i].y < next.cars[i].y);
    lemma_total_distance_grows(g.cars, next.cars);
}

/// The number of cars stays what it was at the first turn.
proof fn lemma_lengths_kept<F: Fn(usize, usize, u128) -> u128>(
    price: F,
    before: Seq<GameView>,
    after: Seq<GameView>,
    t: int,
)
    requires
        before.len() == after.len(),
        0 <= t < before.len(),
        forall|s: int| 0 <= s < before.len() ==> #[trigger] before[s].after_turn(price, after[s]),
        forall|s: int|
            0 <= s < before.len() - 1 ==> same_positions(#[trigger] after[s].cars, before[s + 1].cars),
    ensures
        before[t].cars.len() == before[0].cars.len(),
        after[t].cars.len() == before[0].cars.len(),
    decreases t,
{
    lemma_cars_advance(before[t].cars, before[t].bananas);
    assert(before[t].after_turn(price, after[t]));
    if t > 0 {
        lemma_lengths_kept(price, before, after, t - 1);
        assert(same_positions(after[t - 1].cars, before[t].cars));
    }
}

/// After turn `t` the cars have come at least `t + 1` all together.
proof fn lemma_distance_chain<F: Fn(usize, usize, u128) -> u128>(
    price: F,
    before: Seq<GameView>,
    after: Seq<GameView>,
    t: int,
)
    requires
        before.len() == after.len(),
        0 <= t < before.len(),
        forall|s: int| 0 <= s < before.len() ==> #[trigger] before[s].after_turn(price, after[s]),
        forall|s: int|
            0 <= s < before.len() - 1 ==> same_positions(#[trigger] after[s].cars, before[s + 1].cars),
        forall|s: int|
            0 <= s < before.len() ==> total_distance(#[trigger] after[s].cars) >= total_distance(
                before[s].cars,
            ) + 1,
    ensures
        total_distance(after[t].cars) >= t + 1,
    decreases t,
{
    lemma_total_distance_nonneg(before[t].cars);
    if t > 0 {
        lemma_distance_chain(price, before, after, t - 1);
        assert(same_positions(after[t - 1].cars, before[t].cars));
        lemma_total_distance_grows(after[t - 1].cars, before[t].cars);
    }
}

/// Distance is never negative.
proof fn lemma_total_distance_nonneg(cars: Seq<Car>)
    ensures
        total_distance(cars) >= 0,
    decreases cars.len(),
{
    if cars.len() > 0 {
        lemma_total_distance_nonneg(cars.drop_last());
    }
}

/// `h` is `g` after its buyer paid `cost`, which it could afford: its balance
/// went down by exactly that, no other car paid, and no car moved.
pub open spec fn paid_exactly(g: GameView, h: GameView, cost: u128) -> bool {
    &&& cost <= g.buyer().balance
    &&& h.turns == g.turns
    &&& h.cars.len() == g.cars.len()
    &&& h.buyer().balance == g.buyer().balance - cost
    &&& forall|i: int|
        0 <= i < g.cars.len() && i != g.active() ==> #[trigger] h.cars[i].balance
            == g.cars[i].balance
    &&& same_positions(g.cars, h.cars)
}

/// Every accepted purchase charges the buyer exactly its quoted cost, which
/// is no more than the buyer had, so a balance never goes below zero; no
/// other car pays and no car moves.
pub proof fn lemma_purchase_charges_exactly<F: Fn(usize, usize, u128) -> u128>(
    g: GameView,
    price: F,
    amount: u32,
)
    requires
        g.cars.len() > 0,
    ensures
        g.can_accelerate(price, amount) ==> paid_exactly(
            g,
            g.accelerated(price, amount),
            g.cost(price, ACCELERATION, amount as nat)->Some_0,
        ),
        g.can_drop_banana(price) ==> paid_exactly(
            g,
            g.banana_dropped(price),
            g.cost(price, BANANA, 1)->Some_0,
        ),
        g.can_shell(price, amount) ==> paid_exactly(
            g,
            g.shelled(price, amount),
            g.cost(price, SHELL, amount as nat)->Some_0,
        ),
{
    let a = g.active();
    assert(0 <= a < g.cars.len());
    if g.can_shell(price, amount) {
        let c = g.cost(price, SHELL, amount as nat)->Some_0;
        let paid = g.cars.update(a, charged(g.buyer(), c));
        lemma_shells_keep(paid, g.bananas, a, amount as nat);
    }
}

/// The sum of the costs.
pub open spec fn sum_costs(costs: Seq<u128>) -> int
    decreases costs.len(),
{
    if costs.len() == 0 {
        0
    } else {
        sum_costs(costs.drop_last()) + costs.last()
    }
}

/// Over the purchases of one turn, `states[i]` paying `costs[i]` to become
/// `states[i + 1]`, the buyer spends no more than it had before the turn,
/// and ends with exactly that balance less the sum of the costs.
pub proof fn lemma_turn_spending(states: Seq<GameView>, costs: Seq<u128>)
    requires
        states.len() == costs.len() + 1,
        forall|i: int|
            0 <= i < costs.len() ==> paid_exactly(#[trigger] states[i], states[i + 1], costs[i]),
    ensures
        sum_costs(costs) <= states[0].buyer().balance,
        states.last().buyer().balance == states[0].buyer().balance - sum_costs(costs),
    decreases costs.len(),
{
    if costs.len() > 0 {
        let k = costs.len() - 1;
        lemma_turn_spending(states.drop_last(), costs.drop_last());
        assert(states.drop_last()[0] == states[0]);
        assert(states.drop_last().last() == states[k]);
        assert(paid_exactly(states[k], states[k + 1], costs[k]));
    }
}

/// What the request costs when the race takes it; nothing when it is refused.
pub open spec fn request_cost<F: Fn(usize, usize, u128) -> u128>(g: GameView, r: Request, price: F) -> int {
    if !g.accepts(r, price) {
        0
    } else {
        match r {
            Request::Acceleration(n) => g.cost(price, ACCELERATION, n as nat)->Some_0 as int,
            Request::Banana => g.cost(price, BANANA, 1)->Some_0 as int,
            Request::Shell(n) => g.cost(price, SHELL, n as nat)->Some_0 as int,
        }
    }
}

/// The units of `kind` the request buys when the race takes it.
pub open spec fn request_units<F: Fn(usize, usize, u128) -> u128>(
    g: GameView,
    r: Request,
    price: F,
    kind: usize,
) -> int {
    if !g.accepts(r, price) {
        0
    } else {
        match r {
            Request::Acceleration(n) => if kind == ACCELERATION { n as int } else { 0 },
            Request::Banana => if kind == BANANA { 1 } else { 0 },
            Request::Shell(n) => if kind == SHELL { n as int } else { 0 },
        }
    }
}

/// What the requests cost all together, each priced on the state the ones
/// before it left.
pub open spec fn spent<F: Fn(usize, usize, u128) -> u128>(g: GameView, reqs: Seq<Request>, price: F) -> int
    decreases reqs.len(),
{
    if reqs.len() == 0 {
        0
    } else {
        spent(g, reqs.drop_last(), price) + request_cost(
            g.after_requests(reqs.drop_last(), price),
            reqs.last(),
            price,
        )
    }
}

/// The units of `kind` the requests buy all together.
pub open spec fn bought<F: Fn(usize, usize, u128) -> u128>(
    g: GameView,
    reqs: Seq<Request>,
    price: F,
    kind: usize,
) -> int
    decreases reqs.len(),
{
    if reqs.len() == 0 {
        0
    } else {
        bought(g, reqs.drop_last(), price, kind) + request_units(
            g.after_requests(reqs.drop_last(), price),
            reqs.last(),
            price,
            kind,
        )
    }
}

/// A turn from `g` that took the requests `reqs` and ended in `next`: the
/// requests were taken in order, the turn ended, the car whose turn it was
/// paid exactly their cost out of what it had, no other car paid, and each
/// sales counter grew by exactly the units bought.
pub open spec fn turn_outcome<F: Fn(usize, usize, u128) -> u128>(
    g: GameView,
    reqs: Seq<Request>,
    price: F,
    next: GameView,
) -> bool {
    &&& g.after_requests(reqs, price).after_turn(price, next)
    &&& spent(g, reqs, price) <= g.buyer().balance
    &&& next.cars[g.active()].balance == g.buyer().balance - spent(g, reqs, price)
    &&& forall|k: int|
        0 <= k < g.cars.len() && k != g.active() ==> #[trigger] next.cars[k].balance
            == g.cars[k].balance
    &&& forall|kind: usize|
        kind < KINDS ==> #[trigger] next.sold[kind as int] == g.sold[kind as int] + bought(
            g,
            reqs,
            price,
            kind,
        )
}

/// Requests move no car and change neither the turn, the state nor the log;
/// the car whose turn it is pays exactly their cost out of what it had, no
/// other car pays, and each sales counter grows by the units bought.
pub proof fn lemma_turn_purchases<F: Fn(usize, usize, u128) -> u128>(
    g: GameView,
    reqs: Seq<Request>,
    price: F,
)
    requires
        g.cars.len() > 0,
        g.sold.len() == KINDS,
    ensures
        ({
            let m = g.after_requests(reqs, price);
            &&& m.turns == g.turns
            &&& m.state == g.state
            &&& m.logs == g.logs
            &&& m.seed == g.seed
            &&& m.winner == g.winner
            &&& m.sold.len() == KINDS
            &&& same_positions(g.cars, m.cars)
            &&& spent(g, reqs, price) <= g.buyer().balance
            &&& m.buyer().balance == g.buyer().balance - spent(g, reqs, price)
            &&& forall|k: int|
                0 <= k < g.cars.len() && k != g.active() ==> #[trigger] m.cars[k].balance
                    == g.cars[k].balance
            &&& forall|kind: usize|
                kind < KINDS ==> #[trigger] m.sold[kind as int] == g.sold[kind as int] + bought(
                    g,
                    reqs,
                    price,
                    kind,
                )
        }),
    decreases reqs.len(),
{
    if reqs.len() > 0 {
        let p = reqs.drop_last();
        let r = reqs.last();
        lemma_turn_purchases(g, p, price);
        let m1 = g.after_requests(p, price);
        let m = m1.after_request(r, price);
        assert(m1.active() == g.active());
        if m1.accepts(r, price) {
            match r {
                Request::Acceleration(n) => lemma_purchase_charges_exactly(m1, price, n),
                Request::Banana => lemma_purchase_charges_exactly(m1, price, 0),
                Request::Shell(n) => lemma_purchase_charges_exactly(m1, price, n),
            }
            assert(paid_exactly(m1, m, request_cost(m1, r, price) as u128));
        }
        assert forall|kind: usize| kind < KINDS implies #[trigger] m.sold[kind as int] == g.sold[kind
            as int] + bought(g, reqs, price, kind) by {
            assert(m1.sold[kind as int] == g.sold[kind as int] + bought(g, p, price, kind));
        }
        assert forall|k: int| 0 <= k < g.cars.len() && k != g.active() implies #[trigger] m.cars[k].balance
            == g.cars[k].balance by {
            assert(m1.cars[k].balance == g.cars[k].balance);
        }
        assert(same_positions(g.cars, m.cars)) by {
            assert forall|i: int| 0 <= i < g.cars.len() implies #[trigger] g.cars[i].y == m.cars[i].y by {
                assert(g.cars[i].y == m1.cars[i].y);
            }
        }
    }
}

/// A turn settled on the requests `reqs` has the outcome `turn_outcome`
/// states, counts one more turn, appends one log entry, and that entry names
/// the car whose turn it was.
pub proof fn lemma_turn_outcome<F: Fn(usize, usize, u128) -> u128>(
    g: GameView,
    reqs: Seq<Request>,
    price: F,
    next: GameView,
)
    requires
        g.cars.len() > 0,
        g.sold.len() == KINDS,
        g.after_requests(reqs, price).after_turn(price, next),
    ensures
        turn_outcome(g, reqs, price, next),
        next.turns == g.turns + 1,
        next.logs.drop_last() == g.logs,
        next.logs.len() == g.logs.len() + 1,
        next.logs.last().current_car == g.active(),
{
    lemma_turn_purchases(g, reqs, price);
    let m = g.after_requests(reqs, price);
    lemma_cars_advance(m.cars, m.bananas);
    assert(next.cars[g.active()].balance == m.cars[g.active()].balance);
    assert forall|k: int| 0 <= k < g.cars.len() && k != g.active() implies #[trigger] next.cars[k].balance
        == g.cars[k].balance by {
        assert(next.cars[k].balance == m.cars[k].balance);
    }
}

} // verus!
