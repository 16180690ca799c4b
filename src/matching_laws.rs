//! Laws of submission to the order book, stated over `submit_spec`, which
//! `OrderBook::insert_order` follows exactly.
use vstd::prelude::*;

use crate::fixed::Fixed;
use crate::order::{
    accepts, ahead, book_wf, lemma_match_side, side_wf, submit_spec, sweep, trade_between, with_amount,
    submit_all, wakeup_orders, BookView, Order, OrderResponse, OrderStatus, OrderType, Side,
};
use crate::fixed::SCALE;
use crate::position::{apply_trade, lemma_symmetric_trade, total_size, Trade, LIMIT};

verus! {

/// The orders of side `s` resting at price `p`, in time priority.
pub open spec fn level(s: Seq<Order>, p: int) -> Seq<Order> {
    s.filter(|x: Order| x.price.units == p)
}

/// Whether some order of side `s` rests at price `p`.
pub open spec fn is_price_key(s: Seq<Order>, p: int) -> bool {
    exists|i: int| 0 <= i < s.len() && s[i].price.units == p
}

/// Total quantity of a sequence of trades.
pub open spec fn total_amount(ts: Seq<Trade>) -> int
    decreases ts.len(),
{
    if ts.len() == 0 {
        0
    } else {
        ts[0].amount.units + total_amount(ts.drop_first())
    }
}

/// Every price key of a side of a well-formed book has a non-empty level,
/// and every order of that level has a positive remaining quantity.
pub proof fn lemma_levels_nonempty(s: Seq<Order>, sd: Side, p: int)
    requires
        side_wf(s, sd),
        is_price_key(s, p),
    ensures
        level(s, p).len() > 0,
        forall|k: int|
            0 <= k < level(s, p).len() ==> (#[trigger] level(s, p)[k]).amount.units > 0
                && level(s, p)[k].price.units == p,
{
    let pred = |x: Order| x.price.units == p;
    let i = choose|i: int| 0 <= i < s.len() && s[i].price.units == p;
    s.lemma_filter_contains(pred, i);
    assert forall|k: int| 0 <= k < level(s, p).len() implies (#[trigger] level(s, p)[k]).amount.units
        > 0 && level(s, p)[k].price.units == p by {
        s.lemma_filter_pred(pred, k);
        let x = level(s, p)[k];
        assert(level(s, p).contains(x));
        s.lemma_filter_contains_rev(pred, x);
        let j = choose|j: int| 0 <= j < s.len() && s[j] == x;
        assert(s[j].amount.units > 0);
    }
}

/// After any submission to a well-formed book the book is again well formed:
/// both sides are in priority order and, when both hold orders, the best
/// bid is strictly below the best ask.
pub proof fn lemma_submit_uncrossed(b: BookView, o: Order, ts: u64)
    requires
        book_wf(b),
        o.amount.units > 0,
    ensures
        book_wf(submit_spec(b, o, ts).0),
        ({
            let nb = submit_spec(b, o, ts).0;
            nb.bids.len() > 0 && nb.asks.len() > 0 ==> nb.bids[0].price.units
                < nb.asks[0].price.units
        }),
{
    match o.side {
        Side::BID => {
            lemma_match_side(b.bids, b.asks, o, ts);
        },
        Side::ASK => {
            if b.bids.len() > 0 && b.asks.len() > 0 {
                assert(ahead(Side::ASK, b.bids[0].price.units as int, b.asks[0].price.units as int));
            }
            lemma_match_side(b.asks, b.bids, o, ts);
            let nb = submit_spec(b, o, ts).0;
            if nb.bids.len() > 0 && nb.asks.len() > 0 {
                assert(ahead(Side::BID, nb.asks[0].price.units as int, nb.bids[0].price.units as int));
            }
        },
    }
}

/// Trades take the opposite side's orders strictly in book order, which is
/// price then time priority: the k-th trade is against the k-th resting
/// order at its price, and every trade but the last fills its resting order
/// completely.
pub proof fn lemma_sweep_fifo(side: Seq<Order>, taker: Order, rem: int, ts: u64)
    ensures
        ({
            let r = sweep(side, taker, rem, ts);
            &&& r.1.len() <= side.len()
            &&& forall|k: int|
                0 <= k < r.1.len() ==> #[trigger] r.1[k] == trade_between(
                    taker,
                    side[k],
                    r.1[k].amount.units as int,
                    ts,
                )
            &&& forall|k: int| 0 <= k < r.1.len() - 1 ==> (#[trigger] r.1[k]).amount == side[k].amount
        }),
    decreases side.len(),
{
    if rem <= 0 || side.len() == 0 || !accepts(taker, side[0].price.units as int) {
    } else {
        let head = side[0];
        if rem < head.amount.units {
        } else {
            let t = side.drop_first();
            lemma_sweep_fifo(t, taker, rem - head.amount.units, ts);
            let r = sweep(side, taker, rem, ts);
            let r1 = sweep(t, taker, rem - head.amount.units, ts);
            assert forall|k: int| 0 <= k < r.1.len() implies #[trigger] r.1[k] == trade_between(
                taker,
                side[k],
                r.1[k].amount.units as int,
                ts,
            ) by {
                if k > 0 {
                    assert(r.1[k] == r1.1[k - 1]);
                    assert(side[k] == t[k - 1]);
                }
            }
            assert forall|k: int| 0 <= k < r.1.len() - 1 implies (#[trigger] r.1[k]).amount
                == side[k].amount by {
                if k > 0 {
                    assert(r.1[k] == r1.1[k - 1]);
                    assert(side[k] == t[k - 1]);
                }
            }
        }
    }
}

/// The quantity traded in one sweep is exactly the quantity offered less
/// what is left unmatched.
pub proof fn lemma_sweep_total(side: Seq<Order>, taker: Order, rem: int, ts: u64)
    requires
        forall|i: int| 0 <= i < side.len() ==> (#[trigger] side[i]).amount.units > 0,
        0 < rem <= i128::MAX,
    ensures
        total_amount(sweep(side, taker, rem, ts).1) == rem - sweep(side, taker, rem, ts).2,
    decreases side.len(),
{
    if rem <= 0 || side.len() == 0 || !accepts(taker, side[0].price.units as int) {
    } else {
        let head = side[0];
        let r = sweep(side, taker, rem, ts);
        if rem < head.amount.units {
            assert(r.1.drop_first() =~= Seq::<Trade>::empty());
            assert(total_amount(r.1.drop_first()) == 0);
            assert(r.1[0].amount.units == rem);
        } else {
            let t = side.drop_first();
            let rest = rem - head.amount.units;
            if rest > 0 {
                lemma_sweep_total(t, taker, rest, ts);
            } else {
                assert(sweep(t, taker, rest, ts).1 =~= Seq::<Trade>::empty());
                assert(total_amount(sweep(t, taker, rest, ts).1) == 0);
            }
            assert(r.1.drop_first() =~= sweep(t, taker, rest, ts).1);
            assert(r.1[0].amount.units == head.amount.units);
        }
    }
}

/// Every submission is answered by one reply that accounts for the whole
/// order: what was filled and what remains add up to the quantity
/// submitted, and the trades made add up to what was filled.
pub proof fn lemma_reply_accounts(b: BookView, o: Order, ts: u64)
    requires
        book_wf(b),
        o.amount.units > 0,
    ensures
        ({
            let r = submit_spec(b, o, ts);
            &&& r.2.filled.units + r.2.remaining.units == o.amount.units
            &&& 0 <= r.2.remaining.units <= o.amount.units
            &&& total_amount(r.1) == r.2.filled.units
            &&& (r.2.status == OrderStatus::Filled) == (r.2.remaining.units == 0)
        }),
{
    let opp = match o.side {
        Side::BID => b.asks,
        Side::ASK => b.bids,
    };
    lemma_sweep_total(opp, o, o.amount.units as int, ts);
    match o.side {
        Side::BID => lemma_match_side(b.bids, b.asks, o, ts),
        Side::ASK => {
            if b.bids.len() > 0 && b.asks.len() > 0 {
                assert(ahead(Side::ASK, b.bids[0].price.units as int, b.asks[0].price.units as int));
            }
            lemma_match_side(b.asks, b.bids, o, ts);
        },
    }
}

/// A LIMIT bid at price `p` that crosses no ask and is not behind any
/// resting bid, followed at once by a LIMIT ask at `p` for the same
/// quantity, produces exactly one trade of that quantity at `p`, and both
/// orders leave the book, which is then as it was.
pub proof fn lemma_round_trip(b: BookView, bid: Order, ask: Order, ts1: u64, ts2: u64)
    requires
        book_wf(b),
        bid.side == Side::BID,
        bid.order_type == OrderType::LIMIT,
        ask.side == Side::ASK,
        ask.order_type == OrderType::LIMIT,
        bid.amount.units > 0,
        ask.amount == bid.amount,
        ask.price == bid.price,
        b.asks.len() > 0 ==> b.asks[0].price.units > bid.price.units,
        b.bids.len() > 0 ==> b.bids[0].price.units < bid.price.units,
    ensures
        ({
            let (b1, t1, r1) = submit_spec(b, bid, ts1);
            let (b2, t2, r2) = submit_spec(b1, ask, ts2);
            &&& t1.len() == 0
            &&& r1.status == OrderStatus::Resting
            &&& t2.len() == 1
            &&& t2[0].amount == bid.amount
            &&& t2[0].price == bid.price
            &&& t2[0].long_id == bid.user_id
            &&& t2[0].short_id == ask.user_id
            &&& r2.status == OrderStatus::Filled
            &&& b2 == b
        }),
{
    let amt = bid.amount.units as int;
    assert(with_amount(bid, amt) == bid);
    let (b1, t1, r1) = submit_spec(b, bid, ts1);
    assert(b1.bids =~= b.bids.insert(0, bid));
    assert(b1.asks == b.asks);
    let s = sweep(b1.bids, ask, amt, ts2);
    assert(b1.bids.drop_first() =~= b.bids);
    assert(sweep(b1.bids.drop_first(), ask, 0, ts2).0 == b.bids);
    assert(s.0 == b.bids);
    let (b2, t2, r2) = submit_spec(b1, ask, ts2);
    assert(b2.bids =~= b.bids);
    assert(b2.asks =~= b.asks);
}

/// A MARKET order against an empty opposing side trades nothing, does not
/// rest, and is answered with nothing filled and everything remaining.
pub proof fn lemma_market_on_empty_side(b: BookView, o: Order, ts: u64)
    requires
        book_wf(b),
        o.order_type == OrderType::MARKET,
        o.amount.units > 0,
        o.side == Side::BID ==> b.asks.len() == 0,
        o.side == Side::ASK ==> b.bids.len() == 0,
    ensures
        ({
            let r = submit_spec(b, o, ts);
            &&& r.0 == b
            &&& r.1.len() == 0
            &&& r.2 == OrderResponse {
                status: OrderStatus::MarketUnfilledResidual,
                filled: Fixed { units: 0 },
                remaining: o.amount,
            }
        }),
{
}

/// A LIMIT bid priced exactly at the best ask matches: its first trade is
/// against the oldest order at the best ask, at that price.
pub proof fn lemma_limit_at_best_ask_matches(b: BookView, o: Order, ts: u64)
    requires
        book_wf(b),
        o.side == Side::BID,
        o.order_type == OrderType::LIMIT,
        o.amount.units > 0,
        b.asks.len() > 0,
        o.price == b.asks[0].price,
    ensures
        ({
            let r = submit_spec(b, o, ts);
            &&& r.1.len() > 0
            &&& r.1[0].price == o.price
            &&& r.1[0].short_id == b.asks[0].user_id
            &&& r.1[0].long_id == o.user_id
            &&& r.1[0].amount.units == if o.amount.units < b.asks[0].amount.units {
                o.amount.units
            } else {
                b.asks[0].amount.units
            }
        }),
{
    let s = sweep(b.asks, o, o.amount.units as int, ts);
    if o.amount.units >= b.asks[0].amount.units {
        let t = sweep(b.asks.drop_first(), o, o.amount.units - b.asks[0].amount.units, ts);
        assert(s.1 == seq![trade_between(o, b.asks[0], b.asks[0].amount.units as int, ts)] + t.1);
        assert(s.1[0] == trade_between(o, b.asks[0], b.asks[0].amount.units as int, ts));
    }
}

/// Two symmetric submissions by distinct users to an empty book, a LIMIT ask
/// and then a LIMIT bid at the same price for the same quantity, make one
/// trade, and applying it to accounts without positions opens a long and a
/// short whose sizes sum to zero.
pub proof fn lemma_symmetric_submissions(ask: Order, bid: Order, ts1: u64, ts2: u64)
    requires
        ask.side == Side::ASK,
        ask.order_type == OrderType::LIMIT,
        bid.side == Side::BID,
        bid.order_type == OrderType::LIMIT,
        bid.price == ask.price,
        bid.amount == ask.amount,
        ask.user_id@ != bid.user_id@,
        0 < ask.amount.units <= LIMIT,
        0 < ask.price.units <= LIMIT,
        SCALE <= ask.leverage.units <= LIMIT,
        SCALE <= bid.leverage.units <= LIMIT,
        ask.price.units * ask.amount.units <= LIMIT * SCALE,
    ensures
        ({
            let empty = BookView { bids: Seq::empty(), asks: Seq::empty() };
            let (b1, t1, r1) = submit_spec(empty, ask, ts1);
            let (b2, t2, r2) = submit_spec(b1, bid, ts2);
            &&& t1.len() == 0
            &&& t2.len() == 1
            &&& t2[0].long_id == bid.user_id
            &&& t2[0].short_id == ask.user_id
            &&& b2.bids.len() == 0 && b2.asks.len() == 0
            &&& apply_trade(Seq::empty(), t2[0]) matches Some(q) && {
                &&& q.len() == 2
                &&& q[0].size == bid.amount
                &&& q[1].size.units == -bid.amount.units
                &&& total_size(q) == 0
            }
        }),
{
    let empty = BookView { bids: Seq::empty(), asks: Seq::empty() };
    let amt = ask.amount.units as int;
    assert(with_amount(ask, amt) == ask);
    let (b1, t1, r1) = submit_spec(empty, ask, ts1);
    assert(b1.asks =~= seq![ask]);
    let s = sweep(b1.asks, bid, amt, ts2);
    assert(b1.asks.drop_first() =~= Seq::<Order>::empty());
    assert(b1.asks[0] == ask);
    assert(accepts(bid, ask.price.units as int));
    let rest = sweep(b1.asks.drop_first(), bid, 0, ts2);
    assert(rest.1 =~= Seq::<Trade>::empty());
    assert(rest.0 =~= Seq::<Order>::empty());
    assert(s.1 == seq![trade_between(bid, ask, amt, ts2)] + rest.1);
    assert(s.1 =~= seq![trade_between(bid, ask, amt, ts2)]);
    let t = trade_between(bid, ask, amt, ts2);
    lemma_symmetric_trade(t);
}

/// Liquidations go first: at a wakeup with liquidation orders `ls` and a
/// client order `c` waiting, the trades are all the trades of the
/// liquidations, in order, followed by the trades of `c` against the book
/// the liquidations leave; `c`'s reply comes last.
pub proof fn lemma_liquidations_first(b: BookView, ls: Seq<Order>, c: Order, ts: u64)
    ensures
        ({
            let before = submit_all(b, ls, ts);
            let after_client = submit_spec(before.0, c, ts);
            let all = submit_all(b, wakeup_orders(ls, Some(c)), ts);
            &&& all.0 == after_client.0
            &&& all.1 == before.1 + after_client.1
            &&& all.2 == before.2.push(after_client.2)
        }),
    decreases ls.len(),
{
    let w = ls.push(c);
    assert(wakeup_orders(ls, Some(c)) == w);
    if ls.len() == 0 {
        assert(w.drop_first() =~= Seq::<Order>::empty());
        assert(w[0] == c);
        let r = submit_spec(b, c, ts);
        let tail = submit_all(r.0, w.drop_first(), ts);
        assert(tail.0 == r.0);
        assert(tail.1 == Seq::<Trade>::empty());
        assert(tail.2 == Seq::<OrderResponse>::empty());
        assert(submit_all(b, ls, ts).0 == b);
        assert(r.1 + Seq::<Trade>::empty() =~= Seq::<Trade>::empty() + r.1);
        assert(seq![r.2] + Seq::<OrderResponse>::empty() =~= Seq::<OrderResponse>::empty().push(r.2));
    } else {
        let first = submit_spec(b, ls[0], ts);
        assert(w[0] == ls[0]);
        assert(w.drop_first() =~= ls.drop_first().push(c));
        lemma_liquidations_first(first.0, ls.drop_first(), c, ts);
        let before = submit_all(b, ls, ts);
        let rest = submit_all(first.0, ls.drop_first(), ts);
        let after_client = submit_spec(before.0, c, ts);
        assert(first.1 + (rest.1 + after_client.1) =~= (first.1 + rest.1) + after_client.1);
        assert(seq![first.2] + rest.2.push(after_client.2) =~= (seq![first.2] + rest.2).push(after_client.2));
    }
}

} // verus!
