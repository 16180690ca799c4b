//! Positions, funding, marking and liquidation.
//!
//! Sizes, entry prices, margins and the last traded price stay within
//! `[-LIMIT, LIMIT]` units, and the mark price within twice that. A trade
//! whose result would leave the range is refused and leaves the tracker
//! unchanged; inside the range no intermediate product can overflow.
use vstd::prelude::*;

use crate::fixed::{
    checked_add_spec, checked_div_spec, checked_mul_spec, checked_sub_spec, div_units, fits_i128,
    lemma_mul_bound, lemma_trunc_div_bound, lemma_trunc_div_scaled, mul_units, trunc_div, Fixed,
    SCALE,
};
use crate::order::{Order, OrderType, Side};

verus! {

/// Bound on the units of every stored quantity: ten billion whole units.
pub const LIMIT: i128 = 1_000_000_000_000_000_000;

/// A position is liquidated once `margin + unrealized_pnl` falls to this
/// fraction of its margin (0.8).
pub const LIQUIDATION_THRESHOLD: i128 = 80_000_000;

/// Share of the premium that becomes the funding rate (0.05).
pub const DAMPENING: i128 = 5_000_000;

/// Largest absolute funding rate (0.00075).
pub const MAX_FUNDING_RATE: i128 = 75_000;

/// Number of funding rates kept in the window.
pub const FUNDING_WINDOW: usize = 60;

/// One matched pair: `amount` contracts change hands at `price` (the resting
/// order's price); the buyer goes long and the seller short.
#[derive(Debug)]
pub struct Trade {
    pub long_id: String,
    pub short_id: String,
    pub long_leverage: Fixed,
    pub short_leverage: Fixed,
    pub amount: Fixed,
    pub price: Fixed,
    pub ts: u64,
}

/// What the position tracker takes in from the order book.
pub enum EngineEvent {
    Trade(Trade),
}

/// The signed exposure of one account: positive long, negative short.
#[derive(Debug)]
pub struct Position {
    pub user_id: String,
    pub size: Fixed,
    pub entry_price: Fixed,
    pub margin: Fixed,
    pub unrealized_pnl: Fixed,
    /// A liquidation order for this position has been issued and not yet
    /// found unnecessary.
    pub liquidation_in_flight: bool,
}

/// Why the tracker refused an event.
#[derive(Clone, Copy, Debug, PartialEq, Eq, Structural)]
pub enum EngineError {
    /// A trade with a non-positive amount, a leverage below one, or a value
    /// outside the tracker's range.
    InvalidTrade,
    /// A result would leave the tracker's range.
    OutOfRange,
    /// An index price that is not positive.
    InvalidIndexPrice,
}

pub open spec fn in_range(x: Fixed) -> bool {
    -LIMIT <= x.units <= LIMIT
}

/// The trades the tracker accepts.
pub open spec fn trade_valid(t: Trade) -> bool {
    &&& 0 < t.amount.units <= LIMIT
    &&& 0 < t.price.units <= LIMIT
    &&& SCALE <= t.long_leverage.units <= LIMIT
    &&& SCALE <= t.short_leverage.units <= LIMIT
}

/// Margin that `amount` at `price` locks with leverage `lev`:
/// `price * amount / lev`.
pub open spec fn leg_margin(price: Fixed, amount: Fixed, lev: Fixed) -> Option<Fixed> {
    match checked_mul_spec(price, amount) {
        Some(n) => checked_div_spec(n, lev),
        None => None,
    }
}

/// One side of a trade applied to the account's position `cur`: `delta` is
/// `+amount` for the buyer and `-amount` for the seller. `None` when a result
/// leaves the range; `Some(None)` when the position becomes flat.
///
/// While the position keeps its sign, the entry price becomes the weighted
/// average `(entry * size + price * delta) / (size + delta)`, and the margin
/// grows by `price * amount / lev` when the trade adds exposure (the new size
/// has the sign of `delta`) and shrinks by it otherwise.
///
/// A trade that reverses the position through zero is taken as two legs: one
/// closing the old position, which releases it whole, and one opening the
/// remainder as a new position at `price`, with margin
/// `price * |size + delta| / lev`.
/// The magnitude of `x`, for `x` within the range.
pub open spec fn abs_fixed(x: Fixed) -> Fixed {
    Fixed {
        units: if x.units >= 0 {
            x.units
        } else {
            (-x.units) as i128
        },
    }
}

pub open spec fn apply_leg(
    cur: Option<Position>,
    user: String,
    delta: Fixed,
    price: Fixed,
    amount: Fixed,
    lev: Fixed,
) -> Option<Option<Position>> {
    match leg_margin(price, amount, lev) {
        None => None,
        Some(m) => match cur {
            None => if in_range(m) {
                Some(
                    Some(
                        Position {
                            user_id: user,
                            size: delta,
                            entry_price: price,
                            margin: m,
                            unrealized_pnl: Fixed { units: 0 },
                            liquidation_in_flight: false,
                        },
                    ),
                )
            } else {
                None
            },
            Some(p) => match checked_add_spec(p.size, delta) {
                None => None,
                Some(s2) => if s2.units == 0 {
                    Some(None)
                } else if !in_range(s2) {
                    None
                } else if (p.size.units > 0) != (s2.units > 0) {
                    match leg_margin(price, abs_fixed(s2), lev) {
                        None => None,
                        Some(m2) => if in_range(m2) {
                            Some(
                                Some(
                                    Position {
                                        user_id: p.user_id,
                                        size: s2,
                                        entry_price: price,
                                        margin: m2,
                                        unrealized_pnl: Fixed { units: 0 },
                                        liquidation_in_flight: false,
                                    },
                                ),
                            )
                        } else {
                            None
                        },
                    }
                } else {
                    match checked_mul_spec(p.entry_price, p.size) {
                        None => None,
                        Some(a) => match checked_mul_spec(price, delta) {
                            None => None,
                            Some(b) => match checked_add_spec(a, b) {
                                None => None,
                                Some(c) => match checked_div_spec(c, s2) {
                                    None => None,
                                    Some(e) => match (if (s2.units > 0) == (delta.units > 0) {
                                        checked_add_spec(p.margin, m)
                                    } else {
                                        checked_sub_spec(p.margin, m)
                                    }) {
                                        None => None,
                                        Some(nm) => if in_range(e) && in_range(nm) {
                                            Some(
                                                Some(
                                                    Position {
                                                        user_id: p.user_id,
                                                        size: s2,
                                                        entry_price: e,
                                                        margin: nm,
                                                        unrealized_pnl: p.unrealized_pnl,
                                                        liquidation_in_flight: p.liquidation_in_flight,
                                                    },
                                                ),
                                            )
                                        } else {
                                            None
                                        },
                                    },
                                },
                            },
                        },
                    }
                },
            },
        },
    }
}

pub open spec fn holds_user(ps: Seq<Position>, u: Seq<char>) -> bool {
    exists|i: int| 0 <= i < ps.len() && (#[trigger] ps[i]).user_id@ == u
}

pub open spec fn pos_index(ps: Seq<Position>, u: Seq<char>) -> int {
    choose|i: int| 0 <= i < ps.len() && (#[trigger] ps[i]).user_id@ == u
}

/// The position of account `u`, if it has one.
pub open spec fn lookup(ps: Seq<Position>, u: Seq<char>) -> Option<Position> {
    if holds_user(ps, u) {
        Some(ps[pos_index(ps, u)])
    } else {
        None
    }
}

/// The positions with account `u`'s position replaced by `r` (`None`
/// removes it).
pub open spec fn commit(ps: Seq<Position>, u: Seq<char>, r: Option<Position>) -> Seq<Position> {
    if holds_user(ps, u) {
        match r {
            Some(p) => ps.update(pos_index(ps, u), p),
            None => ps.remove(pos_index(ps, u)),
        }
    } else {
        match r {
            Some(p) => ps.push(p),
            None => ps,
        }
    }
}

/// A trade applied to both counterparties, buyer first; when both sides are
/// one account the seller's leg applies to the buyer's result. `None` when
/// the trade is invalid or a result leaves the range.
pub open spec fn apply_trade(ps: Seq<Position>, t: Trade) -> Option<Seq<Position>> {
    if !trade_valid(t) {
        None
    } else {
        match apply_leg(lookup(ps, t.long_id@), t.long_id, t.amount, t.price, t.amount, t.long_leverage) {
            None => None,
            Some(l) => {
                let ps1 = commit(ps, t.long_id@, l);
                match apply_leg(
                    lookup(ps1, t.short_id@),
                    t.short_id,
                    Fixed { units: (-t.amount.units) as i128 },
                    t.price,
                    t.amount,
                    t.short_leverage,
                ) {
                    None => None,
                    Some(s) => Some(commit(ps1, t.short_id@, s)),
                }
            },
        }
    }
}

pub open spec fn users_unique(ps: Seq<Position>) -> bool {
    forall|i: int, j: int|
        0 <= i < ps.len() && 0 <= j < ps.len() && i != j ==> (#[trigger] ps[i]).user_id@
            != (#[trigger] ps[j]).user_id@
}

/// A position in the tracker: non-zero size, all stored values in range.
pub open spec fn position_wf(p: Position) -> bool {
    &&& p.size.units != 0
    &&& in_range(p.size)
    &&& in_range(p.entry_price)
    &&& in_range(p.margin)
}

/// Sum of the sizes of all positions.
pub open spec fn total_size(ps: Seq<Position>) -> int
    decreases ps.len(),
{
    if ps.len() == 0 {
        0
    } else {
        total_size(ps.drop_last()) + ps.last().size.units
    }
}

pub open spec fn positions_wf(ps: Seq<Position>) -> bool {
    &&& users_unique(ps)
    &&& forall|i: int| 0 <= i < ps.len() ==> position_wf(#[trigger] ps[i])
    &&& total_size(ps) == 0
}

pub open spec fn size_of(r: Option<Position>) -> int {
    match r {
        Some(p) => p.size.units as int,
        None => 0,
    }
}

pub proof fn lemma_total_size_update(ps: Seq<Position>, i: int, p: Position)
    requires
        0 <= i < ps.len(),
    ensures
        total_size(ps.update(i, p)) == total_size(ps) - ps[i].size.units + p.size.units,
    decreases ps.len(),
{
    let q = ps.update(i, p);
    if i == ps.len() - 1 {
        assert(q.drop_last() =~= ps.drop_last());
    } else {
        lemma_total_size_update(ps.drop_last(), i, p);
        assert(q.drop_last() =~= ps.drop_last().update(i, p));
    }
}

pub proof fn lemma_total_size_remove(ps: Seq<Position>, i: int)
    requires
        0 <= i < ps.len(),
    ensures
        total_size(ps.remove(i)) == total_size(ps) - ps[i].size.units,
    decreases ps.len(),
{
    let q = ps.remove(i);
    if i == ps.len() - 1 {
        assert(q =~= ps.drop_last());
    } else {
        lemma_total_size_remove(ps.drop_last(), i);
        assert(q.drop_last() =~= ps.drop_last().remove(i));
        assert(q.last() == ps.last());
    }
}

pub proof fn lemma_total_size_push(ps: Seq<Position>, p: Position)
    ensures
        total_size(ps.push(p)) == total_size(ps) + p.size.units,
{
    assert(ps.push(p).drop_last() =~= ps);
}

pub proof fn lemma_index_unique(ps: Seq<Position>, u: Seq<char>, i: int)
    requires
        users_unique(ps),
        0 <= i < ps.len(),
        ps[i].user_id@ == u,
    ensures
        holds_user(ps, u),
        pos_index(ps, u) == i,
        lookup(ps, u) == Some(ps[i]),
{
    assert(holds_user(ps, u));
}

pub proof fn lemma_commit_update(ps: Seq<Position>, u: Seq<char>, p: Position, v: Seq<char>)
    requires
        users_unique(ps),
        holds_user(ps, u),
        p.user_id@ == u,
    ensures
        ({
            let q = commit(ps, u, Some(p));
            &&& users_unique(q)
            &&& total_size(q) == total_size(ps) - size_of(lookup(ps, u)) + p.size.units
            &&& lookup(q, v) == if v == u {
                Some(p)
            } else {
                lookup(ps, v)
            }
            &&& forall|k: int| 0 <= k < q.len() ==> #[trigger] q[k] == ps[k] || q[k] == p
        }),
{
    let i = pos_index(ps, u);
    let q = ps.update(i, p);
    lemma_total_size_update(ps, i, p);
    assert(users_unique(q));
    lemma_index_unique(q, u, i);
    if v != u {
        if holds_user(ps, v) {
            let j = pos_index(ps, v);
            lemma_index_unique(q, v, j);
        } else {
            assert(!holds_user(q, v)) by {
                if holds_user(q, v) {
                    let j = pos_index(q, v);
                    assert(q[j] == ps[j]);
                }
            }
        }
    }
}

pub proof fn lemma_commit_remove(ps: Seq<Position>, u: Seq<char>, v: Seq<char>)
    requires
        users_unique(ps),
        holds_user(ps, u),
    ensures
        ({
            let q = commit(ps, u, None);
            &&& users_unique(q)
            &&& total_size(q) == total_size(ps) - size_of(lookup(ps, u))
            &&& lookup(q, v) == if v == u {
                None
            } else {
                lookup(ps, v)
            }
            &&& forall|k: int| 0 <= k < q.len() ==> #[trigger] q[k] == ps[k] || q[k] == ps[k + 1]
        }),
{
    let i = pos_index(ps, u);
    let q = ps.remove(i);
    lemma_total_size_remove(ps, i);
    assert forall|a: int, b: int|
        0 <= a < q.len() && 0 <= b < q.len() && a != b implies (#[trigger] q[a]).user_id@
            != (#[trigger] q[b]).user_id@ by {
        let a2 = if a < i {
            a
        } else {
            a + 1
        };
        let b2 = if b < i {
            b
        } else {
            b + 1
        };
        assert(q[a] == ps[a2] && q[b] == ps[b2]);
    }
    assert(!holds_user(q, u)) by {
        if holds_user(q, u) {
            let j = pos_index(q, u);
            let j2 = if j < i {
                j
            } else {
                j + 1
            };
            assert(q[j] == ps[j2]);
        }
    }
    if v != u {
        if holds_user(ps, v) {
            let j = pos_index(ps, v);
            let j2 = if j < i {
                j
            } else {
                j - 1
            };
            assert(q[j2] == ps[j]);
            lemma_index_unique(q, v, j2);
        } else {
            assert(!holds_user(q, v)) by {
                if holds_user(q, v) {
                    let j = pos_index(q, v);
                    let j2 = if j < i {
                        j
                    } else {
                        j + 1
                    };
                    assert(q[j] == ps[j2]);
                }
            }
        }
    }
}

pub proof fn lemma_commit_push(ps: Seq<Position>, u: Seq<char>, p: Position, v: Seq<char>)
    requires
        users_unique(ps),
        !holds_user(ps, u),
        p.user_id@ == u,
    ensures
        ({
            let q = commit(ps, u, Some(p));
            &&& users_unique(q)
            &&& total_size(q) == total_size(ps) + p.size.units
            &&& lookup(q, v) == if v == u {
                Some(p)
            } else {
                lookup(ps, v)
            }
            &&& forall|k: int| 0 <= k < q.len() ==> #[trigger] q[k] == ps[k] || q[k] == p
        }),
{
    let q = ps.push(p);
    lemma_total_size_push(ps, p);
    assert(users_unique(q));
    lemma_index_unique(q, u, ps.len() as int);
    if v != u {
        if holds_user(ps, v) {
            let j = pos_index(ps, v);
            lemma_index_unique(q, v, j);
        } else {
            assert(!holds_user(q, v)) by {
                if holds_user(q, v) {
                    let j = pos_index(q, v);
                    assert(q[j] == ps[j]);
                }
            }
        }
    }
}

/// Replacing account `u`'s position by `r` (`None` removes it) keeps users
/// unique and every position well formed, changes the total size by the
/// difference of the two sizes, and changes what `lookup` finds for `u`
/// alone.
pub proof fn lemma_commit(ps: Seq<Position>, u: Seq<char>, r: Option<Position>, v: Seq<char>)
    requires
        users_unique(ps),
        forall|i: int| 0 <= i < ps.len() ==> position_wf(#[trigger] ps[i]),
        r matches Some(p) ==> p.user_id@ == u && position_wf(p),
    ensures
        users_unique(commit(ps, u, r)),
        forall|i: int| 0 <= i < commit(ps, u, r).len() ==> position_wf(#[trigger] commit(ps, u, r)[i]),
        total_size(commit(ps, u, r)) == total_size(ps) - size_of(lookup(ps, u)) + size_of(r),
        lookup(commit(ps, u, r), v) == if v == u {
            r
        } else {
            lookup(ps, v)
        },
{
    let q = commit(ps, u, r);
    if holds_user(ps, u) {
        match r {
            Some(p) => {
                lemma_commit_update(ps, u, p, v);
                assert forall|i: int| 0 <= i < q.len() implies position_wf(#[trigger] q[i]) by {
                    assert(q[i] == ps[i] || q[i] == p);
                }
            },
            None => {
                lemma_commit_remove(ps, u, v);
                assert forall|i: int| 0 <= i < q.len() implies position_wf(#[trigger] q[i]) by {
                    assert(q[i] == ps[i] || q[i] == ps[i + 1]);
                }
            },
        }
    } else {
        match r {
            Some(p) => {
                lemma_commit_push(ps, u, p, v);
                assert forall|i: int| 0 <= i < q.len() implies position_wf(#[trigger] q[i]) by {
                    assert(q[i] == ps[i] || q[i] == p);
                }
            },
            None => {},
        }
    }
}

/// Applying one leg to a well-formed position of the same account changes
/// its size by exactly `delta` and leaves a well-formed position of that
/// account, or none.
pub proof fn lemma_leg(
    cur: Option<Position>,
    user: String,
    delta: Fixed,
    price: Fixed,
    amount: Fixed,
    lev: Fixed,
)
    requires
        cur matches Some(p) ==> position_wf(p) && p.user_id@ == user@,
        in_range(delta),
        delta.units != 0,
        in_range(price),
    ensures
        apply_leg(cur, user, delta, price, amount, lev) matches Some(r) ==> {
            &&& size_of(r) == size_of(cur) + delta.units
            &&& r matches Some(q) ==> q.user_id@ == user@ && position_wf(q)
        },
{
}

/// Applying a trade to well-formed positions leaves well-formed positions:
/// accounts stay unique, no position is flat, and the sizes still sum to
/// zero, since the buyer gains exactly what the seller gives up.
pub proof fn lemma_apply_trade(ps: Seq<Position>, t: Trade)
    requires
        positions_wf(ps),
    ensures
        apply_trade(ps, t) matches Some(q) ==> positions_wf(q) && total_size(q) == 0,
{
    if trade_valid(t) {
        let lb = lookup(ps, t.long_id@);
        if holds_user(ps, t.long_id@) {
            assert(position_wf(ps[pos_index(ps, t.long_id@)]));
        }
        lemma_leg(lb, t.long_id, t.amount, t.price, t.amount, t.long_leverage);
        match apply_leg(lb, t.long_id, t.amount, t.price, t.amount, t.long_leverage) {
            None => {},
            Some(l) => {
                lemma_commit(ps, t.long_id@, l, t.short_id@);
                let ps1 = commit(ps, t.long_id@, l);
                let neg = Fixed { units: (-t.amount.units) as i128 };
                let sb = lookup(ps1, t.short_id@);
                if holds_user(ps1, t.short_id@) {
                    assert(position_wf(ps1[pos_index(ps1, t.short_id@)]));
                }
                lemma_leg(sb, t.short_id, neg, t.price, t.amount, t.short_leverage);
                match apply_leg(sb, t.short_id, neg, t.price, t.amount, t.short_leverage) {
                    None => {},
                    Some(r) => {
                        lemma_commit(ps1, t.short_id@, r, t.short_id@);
                    },
                }
            },
        }
    }
}

impl Position {
    /// A field-by-field copy.
    pub fn copy(&self) -> (r: Position)
        ensures
            r == *self,
    {
        Position {
            user_id: self.user_id.clone(),
            size: self.size,
            entry_price: self.entry_price,
            margin: self.margin,
            unrealized_pnl: self.unrealized_pnl,
            liquidation_in_flight: self.liquidation_in_flight,
        }
    }
}

fn copy_opt(o: &Option<Position>) -> (r: Option<Position>)
    ensures
        r == *o,
{
    match o {
        Some(p) => Some(p.copy()),
        None => None,
    }
}

fn fixed_in_range(x: Fixed) -> (r: bool)
    ensures
        r == in_range(x),
{
    -LIMIT <= x.units && x.units <= LIMIT
}

/// Computes `apply_leg`.
fn leg(
    cur: &Option<Position>,
    user: &String,
    delta: Fixed,
    price: Fixed,
    amount: Fixed,
    lev: Fixed,
) -> (r: Option<Option<Position>>)
    ensures
        r == apply_leg(*cur, *user, delta, price, amount, lev),
{
    let n = match price.checked_mul(amount) {
        Some(n) => n,
        None => return None,
    };
    let m = match n.checked_div(lev) {
        Some(m) => m,
        None => return None,
    };
    match cur {
        None => {
            if fixed_in_range(m) {
                Some(
                    Some(
                        Position {
                            user_id: user.clone(),
                            size: delta,
                            entry_price: price,
                            margin: m,
                            unrealized_pnl: Fixed { units: 0 },
                            liquidation_in_flight: false,
                        },
                    ),
                )
            } else {
                None
            }
        },
        Some(p) => {
            let s2 = match p.size.checked_add(delta) {
                Some(x) => x,
                None => return None,
            };
            if s2.units == 0 {
                return Some(None);
            }
            if !fixed_in_range(s2) {
                return None;
            }
            if (p.size.units > 0) != (s2.units > 0) {
                let open = Fixed {
                    units: if s2.units >= 0 {
                        s2.units
                    } else {
                        -s2.units
                    },
                };
                let m2 = match price.checked_mul(open) {
                    Some(n2) => n2.checked_div(lev),
                    None => None,
                };
                return match m2 {
                    Some(m2) => if fixed_in_range(m2) {
                        Some(
                            Some(
                                Position {
                                    user_id: p.user_id.clone(),
                                    size: s2,
                                    entry_price: price,
                                    margin: m2,
                                    unrealized_pnl: Fixed { units: 0 },
                                    liquidation_in_flight: false,
                                },
                            ),
                        )
                    } else {
                        None
                    },
                    None => None,
                };
            }
            let a = match p.entry_price.checked_mul(p.size) {
                Some(x) => x,
                None => return None,
            };
            let b = match price.checked_mul(delta) {
                Some(x) => x,
                None => return None,
            };
            let c = match a.checked_add(b) {
                Some(x) => x,
                None => return None,
            };
            let e = match c.checked_div(s2) {
                Some(x) => x,
                None => return None,
            };
            let grows = (s2.units > 0) == (delta.units > 0);
            let nm = if grows {
                p.margin.checked_add(m)
            } else {
                p.margin.checked_sub(m)
            };
            let nm = match nm {
                Some(x) => x,
                None => return None,
            };
            if fixed_in_range(e) && fixed_in_range(nm) {
                Some(
                    Some(
                        Position {
                            user_id: p.user_id.clone(),
                            size: s2,
                            entry_price: e,
                            margin: nm,
                            unrealized_pnl: p.unrealized_pnl,
                            liquidation_in_flight: p.liquidation_in_flight,
                        },
                    ),
                )
            } else {
                None
            }
        },
    }
}

/// The index of account `u`'s position.
fn find_position(ps: &Vec<Position>, u: &String) -> (r: Option<usize>)
    ensures
        match r {
            Some(i) => i < ps@.len() && ps@[i as int].user_id@ == u@,
            None => !holds_user(ps@, u@),
        },
{
    let mut i: usize = 0;
    while i < ps.len()
        invariant
            i <= ps@.len(),
            forall|j: int| 0 <= j < i ==> (#[trigger] ps@[j]).user_id@ != u@,
        decreases ps@.len() - i,
    {
        if ps[i].user_id == *u {
            return Some(i);
        }
        i = i + 1;
    }
    None
}

/// Replaces account `u`'s position, found at `idx`, by `r`.
fn commit_position(ps: &mut Vec<Position>, u: &String, idx: Option<usize>, r: Option<Position>)
    requires
        users_unique(old(ps)@),
        match idx {
            Some(i) => i < old(ps)@.len() && old(ps)@[i as int].user_id@ == u@,
            None => !holds_user(old(ps)@, u@),
        },
    ensures
        final(ps)@ == commit(old(ps)@, u@, r),
{
    match idx {
        Some(i) => {
            proof {
                lemma_index_unique(ps@, u@, i as int);
            }
            match r {
                Some(p) => {
                    ps.set(i, p);
                },
                None => {
                    ps.remove(i);
                },
            }
        },
        None => match r {
            Some(p) => {
                ps.push(p);
            },
            None => {},
        },
    }
}

fn trade_is_valid(t: &Trade) -> (r: bool)
    ensures
        r == trade_valid(*t),
{
    0 < t.amount.units && t.amount.units <= LIMIT && 0 < t.price.units && t.price.units <= LIMIT
        && SCALE <= t.long_leverage.units && t.long_leverage.units <= LIMIT && SCALE
        <= t.short_leverage.units && t.short_leverage.units <= LIMIT
}

/// Applies a trade to `ps`, or leaves it unchanged where `apply_trade` gives
/// nothing.
fn apply_trade_to(ps: &mut Vec<Position>, trade: &Trade) -> (r: Result<(), EngineError>)
    requires
        positions_wf(old(ps)@),
    ensures
        match apply_trade(old(ps)@, *trade) {
            Some(q) => r is Ok && final(ps)@ == q,
            None => r is Err && final(ps)@ == old(ps)@,
        },
        r == Err::<(), EngineError>(EngineError::InvalidTrade) <==> !trade_valid(*trade),
{
    if !trade_is_valid(trade) {
        return Err(EngineError::InvalidTrade);
    }
    let ghost ps0 = ps@;
    let li = find_position(ps, &trade.long_id);
    let lbase = match li {
        Some(i) => Some(ps[i].copy()),
        None => None,
    };
    proof {
        if let Some(i) = li {
            lemma_index_unique(ps0, trade.long_id@, i as int);
        }
        lemma_apply_trade(ps0, *trade);
    }
    let lr = match leg(&lbase, &trade.long_id, trade.amount, trade.price, trade.amount, trade.long_leverage) {
        Some(x) => x,
        None => return Err(EngineError::OutOfRange),
    };
    let ghost ps1 = commit(ps0, trade.long_id@, lr);
    proof {
        if holds_user(ps0, trade.long_id@) {
            assert(position_wf(ps0[pos_index(ps0, trade.long_id@)]));
        }
        lemma_leg(lbase, trade.long_id, trade.amount, trade.price, trade.amount, trade.long_leverage);
        lemma_commit(ps0, trade.long_id@, lr, trade.short_id@);
    }
    let sbase = if trade.short_id == trade.long_id {
        copy_opt(&lr)
    } else {
        match find_position(ps, &trade.short_id) {
            Some(i) => {
                proof {
                    lemma_index_unique(ps0, trade.short_id@, i as int);
                }
                Some(ps[i].copy())
            },
            None => None,
        }
    };
    assert(sbase == lookup(ps1, trade.short_id@));
    let neg = Fixed { units: -trade.amount.units };
    let sr = match leg(&sbase, &trade.short_id, neg, trade.price, trade.amount, trade.short_leverage) {
        Some(x) => x,
        None => return Err(EngineError::OutOfRange),
    };
    commit_position(ps, &trade.long_id, li, lr);
    assert(ps@ == ps1);
    let si = find_position(ps, &trade.short_id);
    commit_position(ps, &trade.short_id, si, sr);
    Ok(())
}

/// The funding rate for the last traded price `last` against the index
/// price `index`: the premium `(last - index) / index` damped by
/// `DAMPENING` and clamped to `[-MAX_FUNDING_RATE, MAX_FUNDING_RATE]`.
pub open spec fn funding_rate_of(last: Fixed, index: Fixed) -> int {
    let raw = mul_units(div_units(last.units - index.units, index.units as int), DAMPENING as int);
    if raw < -MAX_FUNDING_RATE {
        -MAX_FUNDING_RATE
    } else if raw > MAX_FUNDING_RATE {
        MAX_FUNDING_RATE as int
    } else {
        raw
    }
}

/// The funding window after recording `rate`: the oldest rate leaves once
/// the window is full.
pub open spec fn window_push(w: Seq<Fixed>, rate: Fixed) -> Seq<Fixed> {
    if w.len() >= FUNDING_WINDOW {
        w.drop_first().push(rate)
    } else {
        w.push(rate)
    }
}

/// The mark price `index * (1 + rate)`.
pub open spec fn mark_of(index: Fixed, rate: Fixed) -> int {
    mul_units(index.units as int, SCALE + rate.units)
}

/// `size * (mark - entry)`.
pub open spec fn pnl_of(p: Position, mark: Fixed) -> int {
    mul_units(p.size.units as int, mark.units - p.entry_price.units)
}

/// `margin + unrealized_pnl <= margin * LIQUIDATION_THRESHOLD`.
pub open spec fn breached(p: Position, mark: Fixed) -> bool {
    p.margin.units + pnl_of(p, mark) <= mul_units(p.margin.units as int, LIQUIDATION_THRESHOLD as int)
}

/// A position after a risk pass at `mark`: its profit and loss recomputed,
/// and its liquidation flag set exactly while it is breached.
pub open spec fn marked(p: Position, mark: Fixed) -> Position {
    Position {
        user_id: p.user_id,
        size: p.size,
        entry_price: p.entry_price,
        margin: p.margin,
        unrealized_pnl: Fixed { units: pnl_of(p, mark) as i128 },
        liquidation_in_flight: breached(p, mark),
    }
}

/// The positions a risk pass at `mark` liquidates, in tracker order: those
/// breached with no liquidation already in flight.
pub open spec fn liquidation_targets(ps: Seq<Position>, mark: Fixed) -> Seq<Position>
    decreases ps.len(),
{
    if ps.len() == 0 {
        Seq::empty()
    } else {
        let t = liquidation_targets(ps.drop_last(), mark);
        if breached(ps.last(), mark) && !ps.last().liquidation_in_flight {
            t.push(ps.last())
        } else {
            t
        }
    }
}

/// `o` is the MARKET order that closes `p`: it sells a long and buys back a
/// short, for the whole size, with leverage one.
pub open spec fn is_liquidation_of(o: Order, p: Position) -> bool {
    &&& o.user_id == p.user_id
    &&& o.order_type == OrderType::MARKET
    &&& o.side == if p.size.units > 0 {
        Side::ASK
    } else {
        Side::BID
    }
    &&& o.amount.units == if p.size.units > 0 {
        p.size.units as int
    } else {
        -p.size.units
    }
    &&& o.price.units == 0
    &&& o.leverage.units == SCALE
    &&& o.id@.len() == 36
}

pub proof fn lemma_total_size_same(a: Seq<Position>, b: Seq<Position>)
    requires
        a.len() == b.len(),
        forall|i: int| 0 <= i < a.len() ==> (#[trigger] a[i]).size == b[i].size,
    ensures
        total_size(a) == total_size(b),
    decreases a.len(),
{
    if a.len() > 0 {
        lemma_total_size_same(a.drop_last(), b.drop_last());
    }
}

/// Relies on `uuid::Uuid::new_v4` and its hyphenated `Display`: a fresh random
/// identifier, written with 36 characters.
#[verifier::external_body]
fn new_order_id() -> (r: String)
    ensures
        r@.len() == 36,
{
    uuid::Uuid::new_v4().to_string()
}

/// The MARKET order that closes `p`.
fn liquidation_order(p: &Position) -> (o: Order)
    requires
        position_wf(*p),
    ensures
        is_liquidation_of(o, *p),
{
    let side = if p.size.units > 0 {
        Side::ASK
    } else {
        Side::BID
    };
    let amount = if p.size.units > 0 {
        p.size.units
    } else {
        -p.size.units
    };
    Order {
        id: new_order_id(),
        user_id: p.user_id.clone(),
        order_type: OrderType::MARKET,
        amount: Fixed { units: amount },
        price: Fixed { units: 0 },
        side,
        leverage: Fixed { units: SCALE },
    }
}

/// The funding payment of `p`: `size * mark * rate`. A positive payment is
/// owed by the account (a long while the rate is positive), a negative one
/// is owed to it.
pub open spec fn funding_payment_of(p: Position, mark: Fixed, rate: Fixed) -> int {
    mul_units(mul_units(p.size.units as int, mark.units as int), rate.units as int)
}

/// The hour of the next funding settlement after hour `hour` of the day.
/// Settlements fall at hours 0, 8 and 16; 24 stands for the next midnight.
pub fn next_funding_hour(hour: u32) -> (r: u32)
    requires
        hour < 24,
    ensures
        r == (hour / 8 + 1) * 8,
        hour < r <= 24,
{
    if hour < 8 {
        8
    } else if hour < 16 {
        16
    } else {
        24
    }
}

/// One funding cashflow between an account and the `exchange` account.
#[derive(Debug)]
pub struct FundingTransfer {
    pub from: String,
    pub to: String,
    pub amount: Fixed,
}

/// The cashflow that settles the funding payment `payment` of account
/// `user`: a positive payment goes from the account to `exchange`, a
/// negative one from `exchange` to the account; nothing moves for zero.
pub fn funding_transfer(user: &String, payment: Fixed) -> (r: Option<FundingTransfer>)
    requires
        payment.units > i128::MIN,
    ensures
        payment.units == 0 ==> r is None,
        payment.units > 0 ==> (r matches Some(t) && t.from@ == user@ && t.to@ == "exchange"@
            && t.amount == payment),
        payment.units < 0 ==> (r matches Some(t) && t.from@ == "exchange"@ && t.to@ == user@
            && t.amount.units == -payment.units),
{
    proof {
        reveal_strlit("exchange");
    }
    if payment.units > 0 {
        Some(FundingTransfer { from: user.clone(), to: "exchange".to_string(), amount: payment })
    } else if payment.units < 0 {
        Some(
            FundingTransfer {
                from: "exchange".to_string(),
                to: user.clone(),
                amount: Fixed { units: -payment.units },
            },
        )
    } else {
        None
    }
}

/// What the tracker holds, as values.
pub struct TrackerView {
    pub positions: Seq<Position>,
    pub mark_price: Fixed,
    pub last_traded_price: Fixed,
    pub current_funding_rate: Fixed,
    pub funding_rate_window: Seq<Fixed>,
}

/// Positions well formed with sizes summing to zero; mark and last traded
/// prices, funding rate and its window within their ranges.
pub open spec fn tracker_wf(v: TrackerView) -> bool {
    &&& positions_wf(v.positions)
    &&& -2 * LIMIT <= v.mark_price.units <= 2 * LIMIT
    &&& in_range(v.last_traded_price)
    &&& -MAX_FUNDING_RATE <= v.current_funding_rate.units <= MAX_FUNDING_RATE
    &&& v.funding_rate_window.len() <= FUNDING_WINDOW
    &&& forall|i: int|
        0 <= i < v.funding_rate_window.len() ==> -MAX_FUNDING_RATE <= (
        #[trigger] v.funding_rate_window[i]).units <= MAX_FUNDING_RATE
}

/// The positions of all accounts with the funding and mark state, applied
/// one event at a time.
pub struct PositionTracker {
    positions: Vec<Position>,
    mark_price: Fixed,
    last_traded_price: Fixed,
    current_funding_rate: Fixed,
    funding_rate_window: Vec<Fixed>,
}

impl View for PositionTracker {
    type V = TrackerView;

    closed spec fn view(&self) -> TrackerView {
        TrackerView {
            positions: self.positions@,
            mark_price: self.mark_price,
            last_traded_price: self.last_traded_price,
            current_funding_rate: self.current_funding_rate,
            funding_rate_window: self.funding_rate_window@,
        }
    }
}

impl PositionTracker {
    pub open spec fn wf(&self) -> bool {
        tracker_wf(self@)
    }

    pub fn new() -> (r: PositionTracker)
        ensures
            r.wf(),
            r@.positions.len() == 0,
            r@.mark_price.units == 0,
            r@.last_traded_price.units == 0,
            r@.current_funding_rate.units == 0,
            r@.funding_rate_window.len() == 0,
    {
        let r = PositionTracker {
            positions: Vec::new(),
            mark_price: Fixed { units: 0 },
            last_traded_price: Fixed { units: 0 },
            current_funding_rate: Fixed { units: 0 },
            funding_rate_window: Vec::new(),
        };
        proof {
            assert(total_size(r.positions@) == 0);
        }
        r
    }

    /// The positions, in the order their accounts first traded.
    pub fn positions(&self) -> (r: &Vec<Position>)
        ensures
            r@ == self@.positions,
    {
        &self.positions
    }

    pub fn mark_price(&self) -> (r: Fixed)
        ensures
            r == self@.mark_price,
    {
        self.mark_price
    }

    pub fn last_traded_price(&self) -> (r: Fixed)
        ensures
            r == self@.last_traded_price,
    {
        self.last_traded_price
    }

    pub fn current_funding_rate(&self) -> (r: Fixed)
        ensures
            r == self@.current_funding_rate,
    {
        self.current_funding_rate
    }

    pub fn funding_rate_window(&self) -> (r: &Vec<Fixed>)
        ensures
            r@ == self@.funding_rate_window,
    {
        &self.funding_rate_window
    }

    /// Applies a trade to both counterparties' positions. An invalid trade,
    /// or one whose result would leave the range, changes nothing.
    pub fn update_position(&mut self, trade: &Trade) -> (r: Result<(), EngineError>)
        requires
            old(self).wf(),
        ensures
            final(self).wf(),
            match apply_trade(old(self)@.positions, *trade) {
                Some(q) => r is Ok && final(self)@ == TrackerView { positions: q, ..old(self)@ },
                None => r is Err && final(self)@ == old(self)@,
            },
            r == Err::<(), EngineError>(EngineError::InvalidTrade) <==> !trade_valid(*trade),
    {
        proof {
            lemma_apply_trade(self.positions@, *trade);
        }
        apply_trade_to(&mut self.positions, trade)
    }

    /// Takes in a trade: applies it and records its price as the last
    /// traded price.
    pub fn on_trade(&mut self, trade: &Trade) -> (r: Result<(), EngineError>)
        requires
            old(self).wf(),
        ensures
            final(self).wf(),
            match apply_trade(old(self)@.positions, *trade) {
                Some(q) => r is Ok && final(self)@ == TrackerView {
                    positions: q,
                    last_traded_price: trade.price,
                    ..old(self)@
                },
                None => r is Err && final(self)@ == old(self)@,
            },
    {
        let r = self.update_position(trade);
        if r.is_ok() {
            self.last_traded_price = trade.price;
        }
        r
    }

    /// Recomputes the funding rate from the last traded price and the index
    /// price, and records it in the window.
    pub fn update_funding_rate(&mut self, index_price: Fixed) -> (r: Result<(), EngineError>)
        requires
            old(self).wf(),
        ensures
            final(self).wf(),
            if 0 < index_price.units <= LIMIT {
                &&& r is Ok
                &&& final(self)@ == TrackerView {
                    current_funding_rate: Fixed {
                        units: funding_rate_of(old(self)@.last_traded_price, index_price) as i128,
                    },
                    funding_rate_window: window_push(
                        old(self)@.funding_rate_window,
                        Fixed {
                            units: funding_rate_of(old(self)@.last_traded_price, index_price) as i128,
                        },
                    ),
                    ..old(self)@
                }
            } else {
                r == Err::<(), EngineError>(EngineError::InvalidIndexPrice) && final(self)@ == old(self)@
            },
    {
        if index_price.units <= 0 || index_price.units > LIMIT {
            return Err(EngineError::InvalidIndexPrice);
        }
        let d: i128 = self.last_traded_price.units - index_price.units;
        let scaled: i128 = d * SCALE;
        let premium: i128 = scaled / index_price.units;
        proof {
            lemma_trunc_div_bound(scaled as int, index_price.units as int);
            assert(premium == trunc_div(scaled as int, index_price.units as int));
        }
        let damped: i128 = premium * DAMPENING;
        let raw: i128 = damped / SCALE;
        assert(raw == mul_units(premium as int, DAMPENING as int));
        let rate = Fixed { units: raw }.clamp(
            Fixed { units: -MAX_FUNDING_RATE },
            Fixed { units: MAX_FUNDING_RATE },
        );
        self.current_funding_rate = rate;
        let ghost w0 = self.funding_rate_window@;
        if self.funding_rate_window.len() >= FUNDING_WINDOW {
            self.funding_rate_window.remove(0);
            assert(self.funding_rate_window@ =~= w0.drop_first());
        }
        self.funding_rate_window.push(rate);
        proof {
            let w = self.funding_rate_window@;
            assert forall|i: int| 0 <= i < w.len() implies -MAX_FUNDING_RATE <= (
            #[trigger] w[i]).units <= MAX_FUNDING_RATE by {
                if i < w.len() - 1 {
                    if w0.len() >= FUNDING_WINDOW {
                        assert(w[i] == w0[i + 1]);
                    } else {
                        assert(w[i] == w0[i]);
                    }
                }
            }
        }
        Ok(())
    }

    /// Sets the mark price to `index_price * (1 + current_funding_rate)`.
    pub fn update_mark_price(&mut self, index_price: Fixed) -> (r: Result<(), EngineError>)
        requires
            old(self).wf(),
        ensures
            final(self).wf(),
            if 0 < index_price.units <= LIMIT {
                &&& r is Ok
                &&& final(self)@ == TrackerView {
                    mark_price: Fixed {
                        units: mark_of(index_price, old(self)@.current_funding_rate) as i128,
                    },
                    ..old(self)@
                }
            } else {
                r == Err::<(), EngineError>(EngineError::InvalidIndexPrice) && final(self)@ == old(self)@
            },
    {
        if index_price.units <= 0 || index_price.units > LIMIT {
            return Err(EngineError::InvalidIndexPrice);
        }
        let factor: i128 = SCALE + self.current_funding_rate.units;
        proof {
            lemma_mul_bound(index_price.units as int, factor as int, LIMIT as int, 2 * SCALE);
        }
        let product: i128 = index_price.units * factor;
        proof {
            lemma_trunc_div_bound(product as int, SCALE as int);
            lemma_trunc_div_bound(-product, SCALE as int);
        }
        let mark: i128 = product / SCALE;
        assert(mark == mark_of(index_price, self.current_funding_rate));
        self.mark_price = Fixed { units: mark };
        Ok(())
    }

    /// Issues the order that closes account `user_id`'s position, unless it
    /// has none or a liquidation of it is already in flight; marks the
    /// liquidation in flight.
    pub fn liquidate(&mut self, user_id: &String) -> (r: Option<Order>)
        requires
            old(self).wf(),
        ensures
            final(self).wf(),
            match lookup(old(self)@.positions, user_id@) {
                Some(p) => if p.liquidation_in_flight {
                    r is None && final(self)@ == old(self)@
                } else {
                    &&& r matches Some(o) && is_liquidation_of(o, p)
                    &&& final(self)@ == TrackerView {
                        positions: old(self)@.positions.update(
                            pos_index(old(self)@.positions, user_id@),
                            Position { liquidation_in_flight: true, ..p },
                        ),
                        ..old(self)@
                    }
                },
                None => r is None && final(self)@ == old(self)@,
            },
    {
        let ghost ps0 = self.positions@;
        match find_position(&self.positions, user_id) {
            Some(i) => {
                proof {
                    lemma_index_unique(ps0, user_id@, i as int);
                    assert(position_wf(ps0[i as int]));
                }
                if self.positions[i].liquidation_in_flight {
                    return None;
                }
                let mut p = self.positions[i].copy();
                let order = liquidation_order(&p);
                p.liquidation_in_flight = true;
                self.positions.set(i, p);
                proof {
                    let ps = self.positions@;
                    assert forall|a: int, b: int|
                        0 <= a < ps.len() && 0 <= b < ps.len() && a != b implies (
                        #[trigger] ps[a]).user_id@ != (#[trigger] ps[b]).user_id@ by {
                        assert(ps[a].user_id == ps0[a].user_id);
                        assert(ps[b].user_id == ps0[b].user_id);
                    }
                    assert forall|a: int| 0 <= a < ps.len() implies position_wf(#[trigger] ps[a]) by {
                        assert(position_wf(ps0[a]));
                    }
                    lemma_total_size_update(ps0, i as int, ps[i as int]);
                }
                Some(order)
            },
            None => None,
        }
    }

    /// The funding payment of every position at the current mark price and
    /// funding rate, in tracker order, with the account it concerns.
    pub fn funding_payments(&self) -> (r: Vec<(String, Fixed)>)
        requires
            self.wf(),
        ensures
            r@.len() == self@.positions.len(),
            forall|i: int|
                0 <= i < r@.len() ==> (#[trigger] r@[i]).0 == self@.positions[i].user_id
                    && r@[i].1.units == funding_payment_of(
                    self@.positions[i],
                    self@.mark_price,
                    self@.current_funding_rate,
                ),
            forall|i: int|
                0 <= i < r@.len() ==> -LIMIT * LIMIT <= (#[trigger] r@[i]).1.units <= LIMIT * LIMIT,
    {
        let mut out: Vec<(String, Fixed)> = Vec::new();
        let mut i: usize = 0;
        while i < self.positions.len()
            invariant
                i <= self@.positions.len(),
                self.wf(),
                out@.len() == i,
                forall|j: int|
                    0 <= j < i ==> (#[trigger] out@[j]).0 == self@.positions[j].user_id
                        && out@[j].1.units == funding_payment_of(
                        self@.positions[j],
                        self@.mark_price,
                        self@.current_funding_rate,
                    ),
                forall|j: int|
                    0 <= j < i ==> -LIMIT * LIMIT <= (#[trigger] out@[j]).1.units <= LIMIT * LIMIT,
            decreases self@.positions.len() - i,
        {
            let p = &self.positions[i];
            proof {
                assert(position_wf(self@.positions[i as int]));
                lemma_mul_bound(p.size.units as int, self.mark_price.units as int, LIMIT as int, 2 * LIMIT);
            }
            let notional: i128 = p.size.units * self.mark_price.units;
            proof {
                assert((LIMIT as int) * (2 * LIMIT) == 20_000_000_000_000_000_000_000_000_000 * (SCALE as int));
                lemma_trunc_div_scaled(notional as int, SCALE as int, 20_000_000_000_000_000_000_000_000_000);
            }
            let value: i128 = notional / SCALE;
            proof {
                lemma_mul_bound(value as int, self.current_funding_rate.units as int, 20_000_000_000_000_000_000_000_000_000, MAX_FUNDING_RATE as int);
            }
            let product: i128 = value * self.current_funding_rate.units;
            proof {
                lemma_trunc_div_bound(product as int, SCALE as int);
            }
            let payment: i128 = product / SCALE;
            out.push((p.user_id.clone(), Fixed { units: payment }));
            i = i + 1;
        }
        out
    }

    /// Takes in an index price tick: updates the funding rate and the mark
    /// price from `index_price`, then runs the risk pass and returns its
    /// liquidation orders.
    pub fn on_index_price(&mut self, index_price: Fixed) -> (r: Result<Vec<Order>, EngineError>)
        requires
            old(self).wf(),
        ensures
            final(self).wf(),
            !(0 < index_price.units <= LIMIT) ==> r == Err::<Vec<Order>, EngineError>(
                EngineError::InvalidIndexPrice,
            ) && final(self)@ == old(self)@,
            0 < index_price.units <= LIMIT ==> {
                let rate = Fixed {
                    units: funding_rate_of(old(self)@.last_traded_price, index_price) as i128,
                };
                let mark = Fixed { units: mark_of(index_price, rate) as i128 };
                &&& r is Ok
                &&& final(self)@.current_funding_rate == rate
                &&& final(self)@.funding_rate_window == window_push(
                    old(self)@.funding_rate_window,
                    rate,
                )
                &&& final(self)@.mark_price == mark
                &&& final(self)@.last_traded_price == old(self)@.last_traded_price
                &&& final(self)@.positions.len() == old(self)@.positions.len()
                &&& forall|i: int|
                    0 <= i < old(self)@.positions.len() ==> #[trigger] final(self)@.positions[i]
                        == marked(old(self)@.positions[i], mark)
                &&& r.unwrap()@.len() == liquidation_targets(old(self)@.positions, mark).len()
                &&& forall|k: int|
                    0 <= k < r.unwrap()@.len() ==> is_liquidation_of(
                        #[trigger] r.unwrap()@[k],
                        liquidation_targets(old(self)@.positions, mark)[k],
                    )
            },
    {
        if index_price.units <= 0 || index_price.units > LIMIT {
            return Err(EngineError::InvalidIndexPrice);
        }
        let _ = self.update_funding_rate(index_price);
        let _ = self.update_mark_price(index_price);
        Ok(self.update_risk())
    }

    /// Recomputes every position's profit and loss at the mark price and
    /// returns the orders that liquidate the breached positions that have no
    /// liquidation in flight, in tracker order. Positions stay in place until
    /// their closing trades arrive.
    pub fn update_risk(&mut self) -> (r: Vec<Order>)
        requires
            old(self).wf(),
        ensures
            final(self).wf(),
            final(self)@.mark_price == old(self)@.mark_price,
            final(self)@.last_traded_price == old(self)@.last_traded_price,
            final(self)@.current_funding_rate == old(self)@.current_funding_rate,
            final(self)@.funding_rate_window == old(self)@.funding_rate_window,
            final(self)@.positions.len() == old(self)@.positions.len(),
            forall|i: int|
                0 <= i < old(self)@.positions.len() ==> #[trigger] final(self)@.positions[i]
                    == marked(old(self)@.positions[i], old(self)@.mark_price),
            r@.len() == liquidation_targets(old(self)@.positions, old(self)@.mark_price).len(),
            forall|k: int|
                0 <= k < r@.len() ==> is_liquidation_of(
                    #[trigger] r@[k],
                    liquidation_targets(old(self)@.positions, old(self)@.mark_price)[k],
                ),
    {
        let ghost ps0 = self.positions@;
        let mark = self.mark_price;
        let mut out: Vec<Order> = Vec::new();
        let mut i: usize = 0;
        while i < self.positions.len()
            invariant
                i <= self.positions@.len(),
                self.positions@.len() == ps0.len(),
                self.mark_price == mark,
                self.last_traded_price == old(self).last_traded_price,
                self.current_funding_rate == old(self).current_funding_rate,
                self.funding_rate_window == old(self).funding_rate_window,
                tracker_wf(old(self)@),
                ps0 == old(self)@.positions,
                positions_wf(ps0),
                -2 * LIMIT <= mark.units <= 2 * LIMIT,
                forall|j: int| 0 <= j < i ==> #[trigger] self.positions@[j] == marked(ps0[j], mark),
                forall|j: int| i <= j < ps0.len() ==> #[trigger] self.positions@[j] == ps0[j],
                out@.len() == liquidation_targets(ps0.take(i as int), mark).len(),
                forall|k: int|
                    0 <= k < out@.len() ==> is_liquidation_of(
                        #[trigger] out@[k],
                        liquidation_targets(ps0.take(i as int), mark)[k],
                    ),
            decreases ps0.len() - i,
        {
            let p = self.positions[i].copy();
            proof {
                assert(p == ps0[i as int]);
                assert(position_wf(ps0[i as int]));
            }
            let diff: i128 = mark.units - p.entry_price.units;
            proof {
                lemma_mul_bound(p.size.units as int, diff as int, LIMIT as int, 3 * LIMIT);
            }
            let product: i128 = p.size.units * diff;
            proof {
                lemma_trunc_div_bound(product as int, SCALE as int);
            }
            let pnl: i128 = product / SCALE;
            assert(pnl == pnl_of(p, mark));
            let floor: i128 = p.margin.units * LIQUIDATION_THRESHOLD / SCALE;
            assert(floor == mul_units(p.margin.units as int, LIQUIDATION_THRESHOLD as int));
            let breach = p.margin.units + pnl <= floor;
            let ghost before = out@;
            if breach && !p.liquidation_in_flight {
                out.push(liquidation_order(&p));
            }
            let updated = Position {
                user_id: p.user_id,
                size: p.size,
                entry_price: p.entry_price,
                margin: p.margin,
                unrealized_pnl: Fixed { units: pnl },
                liquidation_in_flight: breach,
            };
            self.positions.set(i, updated);
            proof {
                let t = ps0.take(i + 1);
                assert(t.drop_last() =~= ps0.take(i as int));
                assert(t.last() == ps0[i as int]);
            }
            i = i + 1;
        }
        proof {
            assert(ps0.take(ps0.len() as int) =~= ps0);
            let ps = self.positions@;
            assert forall|a: int, b: int|
                0 <= a < ps.len() && 0 <= b < ps.len() && a != b implies (#[trigger] ps[a]).user_id@
                    != (#[trigger] ps[b]).user_id@ by {
                assert(ps[a].user_id == ps0[a].user_id);
                assert(ps[b].user_id == ps0[b].user_id);
            }
            assert forall|a: int| 0 <= a < ps.len() implies position_wf(#[trigger] ps[a]) by {
                assert(ps[a] == marked(ps0[a], mark));
                assert(position_wf(ps0[a]));
            }
            lemma_total_size_same(ps, ps0);
        }
        out
    }
}

/// The funding rate always lies within `[-MAX_FUNDING_RATE,
/// MAX_FUNDING_RATE]`, whatever the last traded price and index price.
pub proof fn lemma_funding_rate_bounded(last: Fixed, index: Fixed)
    ensures
        -MAX_FUNDING_RATE <= funding_rate_of(last, index) <= MAX_FUNDING_RATE,
{
}

/// Margin locked by leverage of at least one is at most the notional.
pub proof fn lemma_leg_margin_bound(n: Fixed, lev: Fixed)
    requires
        n.units >= 0,
        lev.units >= SCALE,
    ensures
        checked_div_spec(n, lev) matches Some(m) ==> 0 <= m.units <= n.units,
{
    let x = n.units * SCALE;
    let l = lev.units as int;
    assert(x / l <= x / (SCALE as int)) by (nonlinear_arith)
        requires
            x >= 0,
            l >= SCALE,
            SCALE > 0,
    ;
    assert(x / (SCALE as int) == n.units) by (nonlinear_arith)
        requires
            x == n.units * SCALE,
            SCALE > 0,
    ;
    lemma_trunc_div_bound(x, l);
}

/// A trade between two distinct accounts that hold no positions opens one
/// long and one short of the traded amount, whose sizes sum to zero.
pub proof fn lemma_symmetric_trade(t: Trade)
    requires
        trade_valid(t),
        t.long_id@ != t.short_id@,
        0 <= t.price.units * t.amount.units <= LIMIT * SCALE,
    ensures
        apply_trade(Seq::empty(), t) matches Some(q) && {
            &&& q.len() == 2
            &&& q[0].user_id == t.long_id
            &&& q[0].size == t.amount
            &&& q[1].user_id == t.short_id
            &&& q[1].size.units == -t.amount.units
            &&& q[0].size.units + q[1].size.units == 0
            &&& total_size(q) == 0
        },
{
    let e = Seq::<Position>::empty();
    lemma_trunc_div_bound(t.price.units * t.amount.units, SCALE as int);
    let n = Fixed { units: mul_units(t.price.units as int, t.amount.units as int) as i128 };
    assert(checked_mul_spec(t.price, t.amount) == Some(n));
    lemma_leg_margin_bound(n, t.long_leverage);
    lemma_leg_margin_bound(n, t.short_leverage);
    let nx = n.units * SCALE;
    assert(fits_i128(nx)) by (nonlinear_arith)
        requires
            0 <= n.units <= LIMIT,
            nx == n.units * SCALE,
            SCALE == 100_000_000,
            LIMIT == 1_000_000_000_000_000_000,
    ;
    lemma_trunc_div_bound(nx, t.long_leverage.units as int);
    lemma_trunc_div_bound(nx, t.short_leverage.units as int);
    assert(!holds_user(e, t.long_id@));
    let l = apply_leg(None, t.long_id, t.amount, t.price, t.amount, t.long_leverage);
    assert(l is Some);
    let ps1 = commit(e, t.long_id@, l.unwrap());
    assert(ps1 =~= e.push(l.unwrap().unwrap()));
    assert(!holds_user(ps1, t.short_id@));
    let q = apply_trade(e, t).unwrap();
    let s = apply_leg(None, t.short_id, Fixed { units: (-t.amount.units) as i128 }, t.price, t.amount, t.short_leverage);
    assert(q =~= ps1.push(s.unwrap().unwrap()));
    lemma_total_size_push(e, l.unwrap().unwrap());
    lemma_total_size_push(ps1, s.unwrap().unwrap());
}

/// A trade between two distinct accounts, neither of which holds a
/// position, applied to any well-formed positions: the buyer's position is a
/// long of the traded amount, the seller's a short of it, their sizes sum to
/// zero, and every other account keeps its position.
pub proof fn lemma_fresh_accounts_trade(ps: Seq<Position>, t: Trade, v: Seq<char>)
    requires
        positions_wf(ps),
        trade_valid(t),
        t.long_id@ != t.short_id@,
        !holds_user(ps, t.long_id@),
        !holds_user(ps, t.short_id@),
        0 <= t.price.units * t.amount.units <= LIMIT * SCALE,
    ensures
        apply_trade(ps, t) matches Some(q) && {
            &&& lookup(q, t.long_id@) matches Some(a) && a.size == t.amount
            &&& lookup(q, t.short_id@) matches Some(b) && b.size.units == -t.amount.units
            &&& v != t.long_id@ && v != t.short_id@ ==> lookup(q, v) == lookup(ps, v)
            &&& total_size(q) == 0
        },
{
    lemma_trunc_div_bound(t.price.units * t.amount.units, SCALE as int);
    let n = Fixed { units: mul_units(t.price.units as int, t.amount.units as int) as i128 };
    assert(checked_mul_spec(t.price, t.amount) == Some(n));
    lemma_leg_margin_bound(n, t.long_leverage);
    lemma_leg_margin_bound(n, t.short_leverage);
    let nx = n.units * SCALE;
    assert(fits_i128(nx)) by (nonlinear_arith)
        requires
            0 <= n.units <= LIMIT,
            nx == n.units * SCALE,
            SCALE == 100_000_000,
            LIMIT == 1_000_000_000_000_000_000,
    ;
    lemma_trunc_div_bound(nx, t.long_leverage.units as int);
    lemma_trunc_div_bound(nx, t.short_leverage.units as int);
    let l = apply_leg(None, t.long_id, t.amount, t.price, t.amount, t.long_leverage);
    assert(l is Some);
    lemma_commit(ps, t.long_id@, l.unwrap(), t.short_id@);
    let ps1 = commit(ps, t.long_id@, l.unwrap());
    let neg = Fixed { units: (-t.amount.units) as i128 };
    let s = apply_leg(None, t.short_id, neg, t.price, t.amount, t.short_leverage);
    assert(s is Some);
    lemma_commit(ps1, t.short_id@, s.unwrap(), t.long_id@);
    lemma_commit(ps1, t.short_id@, s.unwrap(), t.short_id@);
    lemma_commit(ps1, t.short_id@, s.unwrap(), v);
    lemma_commit(ps, t.long_id@, l.unwrap(), v);
    lemma_commit(ps, t.long_id@, l.unwrap(), t.long_id@);
}

} // verus!
