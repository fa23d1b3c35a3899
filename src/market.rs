//! Prices: a price curve gives unit prices, and a purchase of several units
//! costs the sum of their prices at successive sales counts.

use vstd::prelude::*;

verus! {

/// A price curve is consulted as `price(kind, turn, sold)`: the unit price of
/// a purchase kind in a turn, when `sold` units of it have been sold so far.
/// It answers every query, and always with the same price.
pub open spec fn is_price_curve<F: Fn(usize, usize, u128) -> u128>(price: F) -> bool {
    &&& forall|k: usize, t: usize, s: u128| #[trigger] price.requires((k, t, s))
    &&& forall|k: usize, t: usize, s: u128, r1: u128, r2: u128|
        #[trigger] price.ensures((k, t, s), r1) && #[trigger] price.ensures((k, t, s), r2)
            ==> r1 == r2
}

/// The price that the curve gives for one unit.
pub open spec fn unit_price<F: Fn(usize, usize, u128) -> u128>(
    price: F,
    kind: usize,
    turn: usize,
    sold: u128,
) -> u128 {
    choose|r: u128| price.ensures((kind, turn, sold), r)
}

/// The price of `n` units bought at once: each unit priced at the sales count
/// that the units before it in the same purchase have reached.
pub open spec fn total_price<F: Fn(usize, usize, u128) -> u128>(
    price: F,
    kind: usize,
    turn: usize,
    sold: int,
    n: nat,
) -> int
    decreases n,
{
    if n == 0 {
        0
    } else {
        total_price(price, kind, turn, sold, (n - 1) as nat) + unit_price(
            price,
            kind,
            turn,
            (sold + n - 1) as u128,
        )
    }
}

/// The cost of `n` units, when the sales counter can take them and the sum
/// fits in a `u128`; `None` otherwise.
pub open spec fn quote<F: Fn(usize, usize, u128) -> u128>(
    price: F,
    kind: usize,
    turn: usize,
    sold: u128,
    n: nat,
) -> Option<u128> {
    if sold + n <= u128::MAX && total_price(price, kind, turn, sold as int, n) <= u128::MAX {
        Some(total_price(price, kind, turn, sold as int, n) as u128)
    } else {
        None
    }
}

/// The curve was asked for the `n` unit prices from `sold` on, and each
/// answer it gave is the unit price named above.
pub open spec fn answered<F: Fn(usize, usize, u128) -> u128>(
    price: F,
    kind: usize,
    turn: usize,
    sold: u128,
    n: nat,
) -> bool {
    forall|s: u128|
        sold <= s < sold + n ==> #[trigger] price.ensures((kind, turn, s), unit_price(price, kind, turn, s))
}

/// A purchase of no units costs nothing, and one more unit costs the unit
/// price at the sales count the others reached.
pub proof fn lemma_total_step<F: Fn(usize, usize, u128) -> u128>(
    price: F,
    kind: usize,
    turn: usize,
    sold: int,
    n: nat,
)
    ensures
        total_price(price, kind, turn, sold, 0) == 0,
        total_price(price, kind, turn, sold, n + 1) == total_price(price, kind, turn, sold, n)
            + unit_price(price, kind, turn, (sold + n) as u128),
{
    assert((n + 1 - 1) as nat == n);
}

/// More units never cost less.
pub proof fn lemma_total_grows<F: Fn(usize, usize, u128) -> u128>(
    price: F,
    kind: usize,
    turn: usize,
    sold: int,
    m: nat,
    n: nat,
)
    requires
        m <= n,
    ensures
        total_price(price, kind, turn, sold, m) <= total_price(price, kind, turn, sold, n),
    decreases n,
{
    if m < n {
        lemma_total_grows(price, kind, turn, sold, m, (n - 1) as nat);
    }
}

/// Buying `m` units and then `n` more in the same turn costs what buying the
/// `m + n` units at once costs.
pub proof fn lemma_total_split<F: Fn(usize, usize, u128) -> u128>(
    price: F,
    kind: usize,
    turn: usize,
    sold: int,
    m: nat,
    n: nat,
)
    ensures
        total_price(price, kind, turn, sold, m + n) == total_price(price, kind, turn, sold, m)
            + total_price(price, kind, turn, sold + m, n),
    decreases n,
{
    if n > 0 {
        lemma_total_split(price, kind, turn, sold, m, (n - 1) as nat);
        assert((m + n - 1) as nat == m + (n - 1) as nat);
        assert(sold + (m + n) - 1 == sold + m + n - 1);
    }
}

/// Asks the curve for one unit's price.
pub fn price_of<F: Fn(usize, usize, u128) -> u128>(
    price: &F,
    kind: usize,
    turn: usize,
    sold: u128,
) -> (r: u128)
    requires
        is_price_curve(*price),
    ensures
        r == unit_price(*price, kind, turn, sold),
        price.ensures((kind, turn, sold), r),
{
    let r = price(kind, turn, sold);
    let ghost c = unit_price(*price, kind, turn, sold);
    assert(price.ensures((kind, turn, sold), c));
    r
}

/// The cost of `amount` units of `kind` in `turn`, after `sold` units, as
/// `quote` says.
pub fn cost_of<F: Fn(usize, usize, u128) -> u128>(
    price: &F,
    kind: usize,
    turn: usize,
    sold: u128,
    amount: u32,
) -> (r: Option<u128>)
    requires
        is_price_curve(*price),
    ensures
        r == quote(*price, kind, turn, sold, amount as nat),
        r is Some ==> answered(*price, kind, turn, sold, amount as nat),
{
    if sold > u128::MAX - amount as u128 {
        return None;
    }
    let mut sum: u128 = 0;
    let mut i: u32 = 0;
    while i < amount
        invariant
            i <= amount,
            sold + amount <= u128::MAX,
            is_price_curve(*price),
            sum == total_price(*price, kind, turn, sold as int, i as nat),
            answered(*price, kind, turn, sold, i as nat),
        decreases amount - i,
    {
        let p = price_of(price, kind, turn, sold + i as u128);
        assert(sold + (i + 1) as nat - 1 == sold + i);
        if sum > u128::MAX - p {
            proof {
                lemma_total_grows(*price, kind, turn, sold as int, (i + 1) as nat, amount as nat);
            }
            return None;
        }
        sum = sum + p;
        i = i + 1;
        assert forall|q: u128| sold <= q < sold + i implies #[trigger] price.ensures(
            (kind, turn, q),
            unit_price(*price, kind, turn, q),
        ) by {
            if q < sold + i - 1 {
                assert(answered(*price, kind, turn, sold, (i - 1) as nat));
            }
        }
    }
    Some(sum)
}

} // verus!
