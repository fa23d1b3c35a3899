//! The track: bananas kept in ascending order, movement that stops on the
//! first banana crossed, and shells that bananas can catch.

use vstd::prelude::*;

use crate::car::Car;

verus! {

/// Positions in strictly ascending order: sorted, and no position twice.
pub open spec fn strictly_sorted(b: Seq<u32>) -> bool {
    forall|i: int, j: int| 0 <= i < j < b.len() ==> b[i] < b[j]
}

/// Whether `x` lies in the interval `(lo, hi]`.
pub open spec fn in_span(x: u32, lo: int, hi: int) -> bool {
    lo < x && x <= hi
}

/// The first index at or after `from` whose position lies in `(lo, hi]`,
/// or the length of `b` when there is none.
pub open spec fn first_in_span(b: Seq<u32>, lo: int, hi: int, from: int) -> int
    decreases b.len() - from,
{
    if from >= b.len() {
        b.len() as int
    } else if in_span(b[from], lo, hi) {
        from
    } else {
        first_in_span(b, lo, hi, from + 1)
    }
}

/// Where a car would stand after one turn's movement with nothing in its way.
pub open spec fn destination(c: Car) -> int {
    if c.y + c.speed > u32::MAX {
        u32::MAX as int
    } else {
        c.y + c.speed
    }
}

/// The car with another position and speed; everything else kept.
pub open spec fn placed(c: Car, y: u32, speed: u32) -> Car {
    Car { balance: c.balance, speed, y, lua_script: c.lua_script, name: c.name }
}

/// One car's movement over the bananas `b`: it advances by its speed, unless
/// a banana lies in `(y, destination]`; then it stops on the first one, loses
/// its speed, and that banana is gone.
pub open spec fn move_car(c: Car, b: Seq<u32>) -> (Car, Seq<u32>) {
    let i = first_in_span(b, c.y as int, destination(c), 0);
    if i < b.len() {
        (placed(c, b[i], 0), b.remove(i))
    } else {
        (placed(c, destination(c) as u32, c.speed), b)
    }
}

/// All cars moved in order, each over the bananas that the earlier ones left.
pub open spec fn move_cars(cars: Seq<Car>, b: Seq<u32>) -> (Seq<Car>, Seq<u32>)
    decreases cars.len(),
{
    if cars.len() == 0 {
        (cars, b)
    } else {
        let (front, b1) = move_cars(cars.drop_last(), b);
        let (c, b2) = move_car(cars.last(), b1);
        (front.push(c), b2)
    }
}

/// Where `x` goes into the ascending `b`: before the first position above it.
pub open spec fn insertion_point(b: Seq<u32>, x: u32) -> int {
    first_in_span(b, x as int, u32::MAX as int, 0)
}

/// What `first_in_span` finds: an index in range, whose position is in the
/// span if it is not the end, with no position in the span before it.
pub proof fn lemma_first_in_span(b: Seq<u32>, lo: int, hi: int, from: int)
    requires
        0 <= from <= b.len(),
    ensures
        from <= first_in_span(b, lo, hi, from) <= b.len(),
        first_in_span(b, lo, hi, from) < b.len() ==> in_span(
            b[first_in_span(b, lo, hi, from)],
            lo,
            hi,
        ),
        forall|j: int|
            from <= j < first_in_span(b, lo, hi, from) ==> !in_span(#[trigger] b[j], lo, hi),
    decreases b.len() - from,
{
    if from < b.len() && !in_span(b[from], lo, hi) {
        lemma_first_in_span(b, lo, hi, from + 1);
    }
}

/// The index of the first position of `b` in `(lo, hi]`, or its length.
pub fn find_in_span(b: &Vec<u32>, lo: u32, hi: u32) -> (r: usize)
    ensures
        r == first_in_span(b@, lo as int, hi as int, 0),
{
    let mut i: usize = 0;
    while i < b.len()
        invariant
            i <= b.len(),
            first_in_span(b@, lo as int, hi as int, 0) == first_in_span(
                b@,
                lo as int,
                hi as int,
                i as int,
            ),
        decreases b.len() - i,
    {
        if lo < b[i] && b[i] <= hi {
            return i;
        }
        i = i + 1;
    }
    i
}

/// Puts `x` into the ascending `b`, where it keeps `b` strictly ascending.
pub fn insert_sorted(b: &mut Vec<u32>, x: u32)
    requires
        strictly_sorted(old(b)@),
        !old(b)@.contains(x),
    ensures
        final(b)@ == old(b)@.insert(insertion_point(old(b)@, x), x),
        strictly_sorted(final(b)@),
{
    let i = find_in_span(b, x, u32::MAX);
    proof {
        lemma_first_in_span(b@, x as int, u32::MAX as int, 0);
    }
    let ghost pre = b@;
    b.insert(i, x);
    assert forall|p: int, q: int| 0 <= p < q < b@.len() implies b@[p] < b@[q] by {
        if q < i {
        } else if p < i && q == i {
            assert(!in_span(pre[p], x as int, u32::MAX as int));
            assert(pre[p] != x);
        } else if p < i {
        } else if p == i {
            if i < pre.len() {
                assert(x < pre[i as int]);
            }
        } else {
        }
    }
}

/// Removes the position at `i`; the rest stays strictly ascending.
pub proof fn lemma_remove_sorted(b: Seq<u32>, i: int)
    requires
        strictly_sorted(b),
        0 <= i < b.len(),
    ensures
        strictly_sorted(b.remove(i)),
{
    assert forall|p: int, q: int| 0 <= p < q < b.remove(i).len() implies b.remove(i)[p] < b.remove(
        i,
    )[q] by {
        if p >= i {
            assert(b.remove(i)[p] == b[p + 1]);
        }
        if q >= i {
            assert(b.remove(i)[q] == b[q + 1]);
        }
    }
}

/// Gives the car at `j` a new position and speed.
pub fn place(cars: &mut Vec<Car>, j: usize, y: u32, speed: u32)
    requires
        j < old(cars)@.len(),
    ensures
        final(cars)@ == old(cars)@.update(j as int, placed(old(cars)@[j as int], y, speed)),
{
    let mut c = cars.remove(j);
    c.y = y;
    c.speed = speed;
    cars.insert(j, c);
    assert(cars@ =~= old(cars)@.update(j as int, placed(old(cars)@[j as int], y, speed)));
}

/// Moves one car over the bananas, as `move_car` says.
pub fn move_one(cars: &mut Vec<Car>, b: &mut Vec<u32>, j: usize)
    requires
        j < old(cars)@.len(),
        strictly_sorted(old(b)@),
    ensures
        final(cars)@ == old(cars)@.update(
            j as int,
            move_car(old(cars)@[j as int], old(b)@).0,
        ),
        final(b)@ == move_car(old(cars)@[j as int], old(b)@).1,
        strictly_sorted(final(b)@),
{
    let y = cars[j].y;
    let dest = y.saturating_add(cars[j].speed);
    let i = find_in_span(b, y, dest);
    proof {
        lemma_first_in_span(b@, y as int, dest as int, 0);
    }
    if i < b.len() {
        let stop = b.remove(i);
        proof {
            lemma_remove_sorted(old(b)@, i as int);
        }
        place(cars, j, stop, 0);
    } else {
        let speed = cars[j].speed;
        place(cars, j, dest, speed);
    }
}

/// Moves every car in registration order, as `move_cars` says.
pub fn move_all(cars: &mut Vec<Car>, b: &mut Vec<u32>)
    requires
        strictly_sorted(old(b)@),
    ensures
        (final(cars)@, final(b)@) == move_cars(old(cars)@, old(b)@),
        strictly_sorted(final(b)@),
        final(cars)@.len() == old(cars)@.len(),
{
    let ghost start = cars@;
    let ghost start_b = b@;
    let mut j: usize = 0;
    while j < cars.len()
        invariant
            j <= cars@.len() == start.len(),
            strictly_sorted(b@),
            (cars@.take(j as int), b@) == move_cars(start.take(j as int), start_b),
            cars@.skip(j as int) == start.skip(j as int),
        decreases cars@.len() - j,
    {
        let ghost before = cars@;
        assert(before[j as int] == start[j as int]) by {
            assert(before.skip(j as int)[0] == start.skip(j as int)[0]);
        }
        move_one(cars, b, j);
        assert(start.take(j + 1).drop_last() =~= start.take(j as int));
        assert(cars@.take(j + 1) =~= before.take(j as int).push(cars@[j as int]));
        assert(cars@.skip(j + 1) =~= start.skip(j + 1)) by {
            assert forall|k: int| 0 <= k < cars@.skip(j + 1).len() implies #[trigger] cars@.skip(j + 1)[k]
                == start.skip(j + 1)[k] by {
                assert(before.skip(j as int)[k + 1] == start.skip(j as int)[k + 1]);
            }
        }
        j = j + 1;
    }
    assert(cars@.take(j as int) =~= cars@);
    assert(start.take(j as int) =~= start);
}

/// Car `j` is another car than the buyer's, level with it or ahead of it.
pub open spec fn ahead(cars: Seq<Car>, buyer: int, j: int) -> bool {
    0 <= j < cars.len() && j != buyer && cars[j].y >= cars[buyer].y
}

/// Car `j` is the nearest car ahead of the buyer; of cars level with each
/// other the one registered first.
pub open spec fn nearest_ahead(cars: Seq<Car>, buyer: int, j: int) -> bool {
    &&& ahead(cars, buyer, j)
    &&& forall|k: int|
        ahead(cars, buyer, k) ==> cars[j].y < cars[k].y || (cars[j].y == cars[k].y && j <= k)
}

/// The car a shell fired by the buyer goes for, if any car is ahead.
pub open spec fn target(cars: Seq<Car>, buyer: int) -> Option<int> {
    if exists|j: int| nearest_ahead(cars, buyer, j) {
        Some(choose|j: int| nearest_ahead(cars, buyer, j))
    } else {
        None
    }
}

/// One shell: the first banana in `(buyer's position, target's position]`
/// takes it and is gone; else the target loses its speed; with no target
/// nothing happens.
pub open spec fn shell_unit(cars: Seq<Car>, b: Seq<u32>, buyer: int) -> (Seq<Car>, Seq<u32>) {
    match target(cars, buyer) {
        None => (cars, b),
        Some(j) => {
            let i = first_in_span(b, cars[buyer].y as int, cars[j].y as int, 0);
            if i < b.len() {
                (cars, b.remove(i))
            } else {
                (cars.update(j, placed(cars[j], cars[j].y, 0)), b)
            }
        },
    }
}

/// `n` shells fired one after the other, each on the state the last one left.
pub open spec fn shells(cars: Seq<Car>, b: Seq<u32>, buyer: int, n: nat) -> (Seq<Car>, Seq<u32>)
    decreases n,
{
    if n == 0 {
        (cars, b)
    } else {
        let (c, rest) = shells(cars, b, buyer, (n - 1) as nat);
        shell_unit(c, rest, buyer)
    }
}

/// There is at most one nearest car ahead.
pub proof fn lemma_nearest_unique(cars: Seq<Car>, buyer: int, j: int, k: int)
    requires
        nearest_ahead(cars, buyer, j),
        nearest_ahead(cars, buyer, k),
    ensures
        j == k,
{
}

/// The target depends on the positions alone.
pub proof fn lemma_target_by_positions(c1: Seq<Car>, c2: Seq<Car>, buyer: int)
    requires
        c1.len() == c2.len(),
        0 <= buyer < c1.len(),
        forall|j: int| 0 <= j < c1.len() ==> #[trigger] c1[j].y == c2[j].y,
    ensures
        target(c1, buyer) == target(c2, buyer),
{
    assert forall|j: int| nearest_ahead(c1, buyer, j) <==> nearest_ahead(c2, buyer, j) by {
        assert(c1[buyer].y == c2[buyer].y);
        if 0 <= j < c1.len() {
            assert(c1[j].y == c2[j].y);
        }
        assert forall|k: int| ahead(c1, buyer, k) <==> ahead(c2, buyer, k) by {
            if 0 <= k < c1.len() {
                assert(c1[k].y == c2[k].y);
            }
        }
    }
    if exists|j: int| nearest_ahead(c1, buyer, j) {
        let a = choose|j: int| nearest_ahead(c1, buyer, j);
        let b = choose|j: int| nearest_ahead(c2, buyer, j);
        lemma_nearest_unique(c1, buyer, a, b);
    }
}

/// The nearest car ahead of the buyer, as `target` says.
pub fn find_target(cars: &Vec<Car>, buyer: usize) -> (r: Option<usize>)
    requires
        buyer < cars@.len(),
    ensures
        match r {
            Some(j) => target(cars@, buyer as int) == Some(j as int) && j < cars@.len(),
            None => target(cars@, buyer as int) is None,
        },
{
    let me = cars[buyer].y;
    let mut best: Option<usize> = None;
    let mut k: usize = 0;
    while k < cars.len()
        invariant
            k <= cars@.len(),
            buyer < cars@.len(),
            me == cars@[buyer as int].y,
            match best {
                Some(j) => {
                    &&& j < k
                    &&& ahead(cars@, buyer as int, j as int)
                    &&& forall|q: int|
                        0 <= q < k && ahead(cars@, buyer as int, q) ==> cars@[j as int].y
                            < cars@[q].y || (cars@[j as int].y == cars@[q].y && j <= q)
                },
                None => forall|q: int| 0 <= q < k ==> !ahead(cars@, buyer as int, q),
            },
        decreases cars@.len() - k,
    {
        if k != buyer && cars[k].y >= me {
            match best {
                Some(j) => {
                    if cars[k].y < cars[j].y {
                        best = Some(k);
                    }
                },
                None => {
                    best = Some(k);
                },
            }
        }
        k = k + 1;
    }
    match best {
        Some(j) => {
            assert(nearest_ahead(cars@, buyer as int, j as int));
            let ghost c = choose|q: int| nearest_ahead(cars@, buyer as int, q);
            proof {
                lemma_nearest_unique(cars@, buyer as int, j as int, c);
            }
        },
        None => {},
    }
    best
}

/// Fires `count` shells for the buyer, as `shells` says.
pub fn fire_shells(cars: &mut Vec<Car>, b: &mut Vec<u32>, buyer: usize, count: u32)
    requires
        buyer < old(cars)@.len(),
        strictly_sorted(old(b)@),
    ensures
        (final(cars)@, final(b)@) == shells(old(cars)@, old(b)@, buyer as int, count as nat),
        strictly_sorted(final(b)@),
        final(cars)@.len() == old(cars)@.len(),
        forall|j: int| 0 <= j < final(cars)@.len() ==> #[trigger] final(cars)@[j].y == old(cars)@[j].y,
{
    let ghost start = cars@;
    let ghost start_b = b@;
    let t = find_target(cars, buyer);
    let me = cars[buyer].y;
    let mut n: u32 = 0;
    while n < count
        invariant
            n <= count,
            strictly_sorted(b@),
            (cars@, b@) == shells(start, start_b, buyer as int, n as nat),
            cars@.len() == start.len(),
            buyer < start.len(),
            me == start[buyer as int].y,
            forall|j: int| 0 <= j < cars@.len() ==> #[trigger] cars@[j].y == start[j].y,
            match t {
                Some(j) => target(start, buyer as int) == Some(j as int) && j < start.len(),
                None => target(start, buyer as int) is None,
            },
        decreases count - n,
    {
        proof {
            lemma_target_by_positions(cars@, start, buyer as int);
        }
        match t {
            Some(j) => {
                let i = find_in_span(b, me, cars[j].y);
                if i < b.len() {
                    proof {
                        lemma_first_in_span(b@, me as int, cars@[j as int].y as int, 0);
                        lemma_remove_sorted(b@, i as int);
                    }
                    b.remove(i);
                } else {
                    let y = cars[j].y;
                    place(cars, j, y, 0);
                }
            },
            None => {},
        }
        n = n + 1;
    }
}

/// The length of the track: a car at this position or beyond has finished.
pub const FINISH_DISTANCE: u32 = 1000;

/// The first car at or after `from` that has reached the finish, or the
/// number of cars when none has.
pub open spec fn first_finisher(cars: Seq<Car>, from: int) -> int
    decreases cars.len() - from,
{
    if from >= cars.len() {
        cars.len() as int
    } else if cars[from].y >= FINISH_DISTANCE {
        from
    } else {
        first_finisher(cars, from + 1)
    }
}

/// The index of the first car that has reached the finish, or the number of
/// cars.
pub fn find_finisher(cars: &Vec<Car>) -> (r: usize)
    ensures
        r == first_finisher(cars@, 0),
{
    let mut i: usize = 0;
    while i < cars.len()
        invariant
            i <= cars@.len(),
            first_finisher(cars@, 0) == first_finisher(cars@, i as int),
        decreases cars@.len() - i,
    {
        if cars[i].y >= FINISH_DISTANCE {
            return i;
        }
        i = i + 1;
    }
    i
}

/// Whether a banana lies at `x`.
pub fn contains(b: &Vec<u32>, x: u32) -> (r: bool)
    ensures
        r == b@.contains(x),
{
    let mut i: usize = 0;
    while i < b.len()
        invariant
            i <= b@.len(),
            forall|j: int| 0 <= j < i ==> b@[j] != x,
        decreases b@.len() - i,
    {
        if b[i] == x {
            return true;
        }
        i = i + 1;
    }
    false
}

/// A car never drives over a banana. When one lies in `(y, destination]`,
/// the car ends on the nearest such banana with no speed left, and that
/// banana is gone; when none does, the car reaches its destination, keeps
/// its speed, and the bananas stay.
pub proof fn lemma_no_skipping(c: Car, b: Seq<u32>)
    requires
        strictly_sorted(b),
    ensures
        (exists|i: int| 0 <= i < b.len() && in_span(#[trigger] b[i], c.y as int, destination(c)))
            ==> {
            let (d, rest) = move_car(c, b);
            &&& d.speed == 0
            &&& b.contains(d.y)
            &&& in_span(d.y, c.y as int, destination(c))
            &&& forall|i: int|
                0 <= i < b.len() && in_span(#[trigger] b[i], c.y as int, destination(c)) ==> d.y
                    <= b[i]
            &&& !rest.contains(d.y)
            &&& rest.len() == b.len() - 1
        },
        (forall|i: int| 0 <= i < b.len() ==> !in_span(#[trigger] b[i], c.y as int, destination(c)))
            ==> move_car(c, b) == (placed(c, destination(c) as u32, c.speed), b),
{
    let lo = c.y as int;
    let hi = destination(c);
    lemma_first_in_span(b, lo, hi, 0);
    let k = first_in_span(b, lo, hi, 0);
    if exists|i: int| 0 <= i < b.len() && in_span(#[trigger] b[i], lo, hi) {
        let i = choose|i: int| 0 <= i < b.len() && in_span(#[trigger] b[i], lo, hi);
        assert(k < b.len());
        let (d, rest) = move_car(c, b);
        assert(b[k] == d.y);
        assert(b.contains(d.y));
        assert forall|j: int| 0 <= j < b.len() && in_span(#[trigger] b[j], lo, hi) implies d.y
            <= b[j] by {
            if j < k {
            } else if j > k {
            }
        }
        assert(!rest.contains(d.y)) by {
            if rest.contains(d.y) {
                let q = choose|q: int| 0 <= q < rest.len() && rest[q] == d.y;
                if q < k {
                    assert(rest[q] == b[q]);
                } else {
                    assert(rest[q] == b[q + 1]);
                }
            }
        }
    } else {
        if k < b.len() {
            assert(in_span(b[k], lo, hi));
        }
    }
}

/// A shell takes at most one banana, and only one that lies ahead of the
/// buyer and no further than the nearest car ahead; a shell that a banana
/// takes stops no car.
pub proof fn lemma_shell_takes_at_most_one(cars: Seq<Car>, b: Seq<u32>, buyer: int)
    requires
        0 <= buyer < cars.len(),
    ensures
        ({
            let (c2, b2) = shell_unit(cars, b, buyer);
            ||| b2 == b
            ||| exists|i: int|
                0 <= i < b.len() && b2 == b.remove(i) && c2 == cars && (target(cars, buyer) matches Some(
                    j,
                ) && in_span(#[trigger] b[i], cars[buyer].y as int, cars[j].y as int))
        }),
{
    match target(cars, buyer) {
        None => {},
        Some(j) => {
            let i = first_in_span(b, cars[buyer].y as int, cars[j].y as int, 0);
            lemma_first_in_span(b, cars[buyer].y as int, cars[j].y as int, 0);
            if i < b.len() {
                assert(in_span(b[i], cars[buyer].y as int, cars[j].y as int));
            }
        },
    }
}

/// Cars never move backwards, and a car with speed short of the end of the
/// number line moves forward.
pub proof fn lemma_cars_advance(cars: Seq<Car>, b: Seq<u32>)
    ensures
        move_cars(cars, b).0.len() == cars.len(),
        forall|i: int|
            0 <= i < cars.len() ==> #[trigger] move_cars(cars, b).0[i].y >= cars[i].y,
        forall|i: int|
            0 <= i < cars.len() && cars[i].speed > 0 && cars[i].y < u32::MAX
                ==> #[trigger] move_cars(cars, b).0[i].y > cars[i].y,
        forall|i: int|
            0 <= i < cars.len() ==> #[trigger] move_cars(cars, b).0[i].balance == cars[i].balance,
    decreases cars.len(),
{
    if cars.len() > 0 {
        let front = cars.drop_last();
        lemma_cars_advance(front, b);
        let (moved, b1) = move_cars(front, b);
        let c = cars.last();
        lemma_first_in_span(b1, c.y as int, destination(c), 0);
        assert forall|i: int| 0 <= i < cars.len() implies #[trigger] move_cars(cars, b).0[i].y
            >= cars[i].y && (cars[i].speed > 0 && cars[i].y < u32::MAX ==> move_cars(cars, b).0[i].y
            > cars[i].y) && move_cars(cars, b).0[i].balance == cars[i].balance by {
            if i < cars.len() - 1 {
                assert(front[i] == cars[i]);
                assert(move_cars(cars, b).0[i] == moved[i]);
            }
        }
    }
}

/// How far the cars have come, all together.
pub open spec fn total_distance(cars: Seq<Car>) -> int
    decreases cars.len(),
{
    if cars.len() == 0 {
        0
    } else {
        total_distance(cars.drop_last()) + cars.last().y
    }
}

/// Cars that are nowhere behind where others were have come at least as far
/// all together, and further when one of them is ahead.
pub proof fn lemma_total_distance_grows(a: Seq<Car>, b: Seq<Car>)
    requires
        a.len() == b.len(),
        forall|i: int| 0 <= i < a.len() ==> #[trigger] a[i].y <= b[i].y,
    ensures
        total_distance(a) <= total_distance(b),
        (exists|i: int| 0 <= i < a.len() && #[trigger] a[i].y < b[i].y) ==> total_distance(a)
            < total_distance(b),
    decreases a.len(),
{
    if a.len() > 0 {
        let (a1, b1) = (a.drop_last(), b.drop_last());
        assert forall|i: int| 0 <= i < a1.len() implies #[trigger] a1[i].y <= b1[i].y by {
            assert(a1[i] == a[i] && b1[i] == b[i]);
        }
        lemma_total_distance_grows(a1, b1);
        if exists|i: int| 0 <= i < a.len() && #[trigger] a[i].y < b[i].y {
            let i = choose|i: int| 0 <= i < a.len() && #[trigger] a[i].y < b[i].y;
            if i < a.len() - 1 {
                assert(a1[i] == a[i] && b1[i] == b[i]);
            }
        }
    }
}

/// Cars that are all short of the finish have come at most
/// `FINISH_DISTANCE - 1` each.
pub proof fn lemma_total_distance_short(cars: Seq<Car>)
    requires
        forall|i: int| 0 <= i < cars.len() ==> #[trigger] cars[i].y < FINISH_DISTANCE,
    ensures
        total_distance(cars) <= cars.len() * (FINISH_DISTANCE - 1),
    decreases cars.len(),
{
    if cars.len() > 0 {
        let front = cars.drop_last();
        assert forall|i: int| 0 <= i < front.len() implies #[trigger] front[i].y < FINISH_DISTANCE by {
            assert(front[i] == cars[i]);
        }
        lemma_total_distance_short(front);
        assert(cars.last().y < FINISH_DISTANCE);
    }
}

/// When no car from `from` on has reached the finish, each is short of it.
pub proof fn lemma_no_finisher(cars: Seq<Car>, from: int)
    requires
        0 <= from,
        first_finisher(cars, from) >= cars.len(),
    ensures
        forall|i: int| from <= i < cars.len() ==> #[trigger] cars[i].y < FINISH_DISTANCE,
    decreases cars.len() - from,
{
    if from < cars.len() {
        lemma_no_finisher(cars, from + 1);
    }
}

/// Shells move no car and take no car's money.
pub proof fn lemma_shells_keep(cars: Seq<Car>, b: Seq<u32>, buyer: int, n: nat)
    requires
        0 <= buyer < cars.len(),
    ensures
        shells(cars, b, buyer, n).0.len() == cars.len(),
        forall|i: int|
            0 <= i < cars.len() ==> (#[trigger] shells(cars, b, buyer, n).0[i]).y == cars[i].y
                && shells(cars, b, buyer, n).0[i].balance == cars[i].balance,
    decreases n,
{
    if n > 0 {
        lemma_shells_keep(cars, b, buyer, (n - 1) as nat);
        let (c, rest) = shells(cars, b, buyer, (n - 1) as nat);
        assert forall|i: int| 0 <= i < cars.len() implies (#[trigger] shell_unit(
            c,
            rest,
            buyer,
        ).0[i]).y == c[i].y && shell_unit(c, rest, buyer).0[i].balance == c[i].balance by {
            match target(c, buyer) {
                None => {},
                Some(j) => {
                    if i == j {
                    }
                },
            }
        }
    }
}

/// What `first_finisher` finds: an index in range, of a car at the finish
/// if it is not the end, with every car before it short of the finish.
pub proof fn lemma_first_finisher(cars: Seq<Car>, from: int)
    requires
        0 <= from <= cars.len(),
    ensures
        from <= first_finisher(cars, from) <= cars.len(),
        first_finisher(cars, from) < cars.len() ==> cars[first_finisher(cars, from)].y
            >= FINISH_DISTANCE,
        forall|j: int|
            from <= j < first_finisher(cars, from) ==> #[trigger] cars[j].y < FINISH_DISTANCE,
    decreases cars.len() - from,
{
    if from < cars.len() && cars[from].y < FINISH_DISTANCE {
        lemma_first_finisher(cars, from + 1);
    }
}

} // verus!
