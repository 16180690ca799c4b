//! The central limit order book and its price-time priority matching.
//!
//! Each side of the book is one sequence of resting orders in priority order:
//! best price first and, within a price, earliest arrival first. A price level
//! is the run of consecutive orders at one price, so a level exists exactly
//! when it holds an order.
use vstd::prelude::*;

use crate::fixed::Fixed;
use crate::position::Trade;

verus! {

#[allow(non_camel_case_types)]
#[derive(Clone, Copy, Debug, PartialEq, Eq, Structural)]
pub enum OrderType {
    MARKET,
    LIMIT,
}

#[allow(non_camel_case_types)]
#[derive(Clone, Copy, Debug, PartialEq, Eq, Structural)]
pub enum Side {
    BID,
    ASK,
}

impl Side {
    pub fn as_str(&self) -> (r: &'static str)
        ensures
            *self == Side::BID ==> r@ == "BID"@,
            *self == Side::ASK ==> r@ == "ASK"@,
    {
        match self {
            Side::BID => "BID",
            Side::ASK => "ASK",
        }
    }
}

pub type Amount = Fixed;

pub type Price = Fixed;

/// An order; `amount` is the quantity still to be matched. The price of a
/// MARKET order is ignored.
#[derive(Debug)]
pub struct Order {
    pub id: String,
    pub user_id: String,
    pub order_type: OrderType,
    pub amount: Amount,
    pub price: Price,
    pub side: Side,
    pub leverage: Fixed,
}

/// How a submission ended.
#[derive(Clone, Copy, Debug, PartialEq, Eq, Structural)]
pub enum OrderStatus {
    /// Nothing remains.
    Filled,
    /// A LIMIT order whose remainder now rests in the book.
    Resting,
    /// A MARKET order whose remainder was discarded.
    MarketUnfilledResidual,
}

impl OrderStatus {
    pub fn as_str(&self) -> (r: &'static str)
        ensures
            *self == OrderStatus::Filled ==> r@ == "filled"@,
            *self == OrderStatus::Resting ==> r@ == "resting"@,
            *self == OrderStatus::MarketUnfilledResidual ==> r@ == "market_unfilled_residual"@,
    {
        match self {
            OrderStatus::Filled => "filled",
            OrderStatus::Resting => "resting",
            OrderStatus::MarketUnfilledResidual => "market_unfilled_residual",
        }
    }
}

/// The one reply to a submission.
#[derive(Clone, Copy, Debug, PartialEq, Eq, Structural)]
pub struct OrderResponse {
    pub status: OrderStatus,
    pub filled: Amount,
    pub remaining: Amount,
}

/// Whether price `p` has strictly better priority than price `q` on `side`.
pub open spec fn ahead(side: Side, p: int, q: int) -> bool {
    match side {
        Side::BID => p > q,
        Side::ASK => p < q,
    }
}

/// Whether `taker` may trade against a resting order priced `p`.
pub open spec fn accepts(taker: Order, p: int) -> bool {
    taker.order_type == OrderType::MARKET || match taker.side {
        Side::BID => p <= taker.price.units,
        Side::ASK => p >= taker.price.units,
    }
}

/// `o` with its remaining quantity replaced by `a` units.
pub open spec fn with_amount(o: Order, a: int) -> Order {
    Order {
        id: o.id,
        user_id: o.user_id,
        order_type: o.order_type,
        amount: Fixed { units: a as i128 },
        price: o.price,
        side: o.side,
        leverage: o.leverage,
    }
}

/// The trade of `q` units between an incoming `taker` and a resting `maker`,
/// at the maker's price.
pub open spec fn trade_between(taker: Order, maker: Order, q: int, ts: u64) -> Trade {
    match taker.side {
        Side::BID => Trade {
            long_id: taker.user_id,
            short_id: maker.user_id,
            long_leverage: taker.leverage,
            short_leverage: maker.leverage,
            amount: Fixed { units: q as i128 },
            price: maker.price,
            ts,
        },
        Side::ASK => Trade {
            long_id: maker.user_id,
            short_id: taker.user_id,
            long_leverage: maker.leverage,
            short_leverage: taker.leverage,
            amount: Fixed { units: q as i128 },
            price: maker.price,
            ts,
        },
    }
}

/// Matching `rem` units of `taker` against the opposite side `side`, best
/// order first: the side left over, the trades in match order, and the
/// quantity that found no counterparty.
pub open spec fn sweep(side: Seq<Order>, taker: Order, rem: int, ts: u64) -> (
    Seq<Order>,
    Seq<Trade>,
    int,
)
    decreases side.len(),
{
    if rem <= 0 || side.len() == 0 || !accepts(taker, side[0].price.units as int) {
        (side, Seq::empty(), rem)
    } else {
        let head = side[0];
        if rem < head.amount.units {
            (
                side.update(0, with_amount(head, head.amount.units - rem)),
                seq![trade_between(taker, head, rem, ts)],
                0,
            )
        } else {
            let r = sweep(side.drop_first(), taker, rem - head.amount.units, ts);
            (r.0, seq![trade_between(taker, head, head.amount.units as int, ts)] + r.1, r.2)
        }
    }
}

/// Where an order joins its own side: behind every order whose price is at
/// least as good.
pub open spec fn place_index(side: Seq<Order>, o: Order) -> nat
    decreases side.len(),
{
    if side.len() == 0 || ahead(o.side, o.price.units as int, side[0].price.units as int) {
        0
    } else {
        1 + place_index(side.drop_first(), o)
    }
}

pub open spec fn place(side: Seq<Order>, o: Order) -> Seq<Order> {
    side.insert(place_index(side, o) as int, o)
}

/// A side of the book: resting LIMIT orders of that side with positive
/// quantities, in priority order.
pub open spec fn side_wf(s: Seq<Order>, sd: Side) -> bool {
    &&& forall|i: int|
        0 <= i < s.len() ==> {
            &&& (#[trigger] s[i]).side == sd
            &&& s[i].order_type == OrderType::LIMIT
            &&& s[i].amount.units > 0
        }
    &&& forall|i: int, j: int|
        0 <= i < j < s.len() ==> !ahead(sd, #[trigger] s[j].price.units as int, #[trigger] s[i].price.units as int)
}

/// Facts of one sweep: the quantity left is between zero and the quantity
/// offered, the side left over is a suffix of the side whose first order may
/// have been reduced, and an unfilled remainder means the best order left
/// is out of the taker's reach.
pub proof fn lemma_sweep_shape(side: Seq<Order>, taker: Order, rem: int, ts: u64)
    requires
        side_wf(side, side_of_opposite(taker.side)),
    ensures
        ({
            let r = sweep(side, taker, rem, ts);
            let d = side.len() - r.0.len();
            &&& rem > 0 ==> 0 <= r.2 <= rem
            &&& rem <= 0 ==> r.2 == rem
            &&& 0 <= d <= side.len()
            &&& side_wf(r.0, side_of_opposite(taker.side))
            &&& forall|i: int| 0 < i < r.0.len() ==> r.0[i] == side[i + d]
            &&& r.0.len() > 0 ==> r.0[0].price == side[d].price
            &&& r.2 > 0 ==> (r.0.len() == 0 || !accepts(taker, r.0[0].price.units as int))
        }),
    decreases side.len(),
{
    if rem <= 0 || side.len() == 0 || !accepts(taker, side[0].price.units as int) {
    } else {
        let head = side[0];
        if rem < head.amount.units {
            let s2 = side.update(0, with_amount(head, head.amount.units - rem));
            assert(side_wf(s2, side_of_opposite(taker.side))) by {
                assert forall|i: int, j: int| 0 <= i < j < s2.len() implies !ahead(
                    side_of_opposite(taker.side),
                    #[trigger] s2[j].price.units as int,
                    #[trigger] s2[i].price.units as int,
                ) by {
                    assert(s2[j].price == side[j].price);
                    assert(s2[i].price == side[i].price);
                }
            }
        } else {
            let t = side.drop_first();
            assert(side_wf(t, side_of_opposite(taker.side))) by {
                assert forall|i: int, j: int| 0 <= i < j < t.len() implies !ahead(
                    side_of_opposite(taker.side),
                    #[trigger] t[j].price.units as int,
                    #[trigger] t[i].price.units as int,
                ) by {
                    assert(t[j] == side[j + 1]);
                    assert(t[i] == side[i + 1]);
                }
            }
            lemma_sweep_shape(t, taker, rem - head.amount.units, ts);
        }
    }
}

pub open spec fn side_of_opposite(s: Side) -> Side {
    match s {
        Side::BID => Side::ASK,
        Side::ASK => Side::BID,
    }
}

fn accepts_price(taker: &Order, p: Price) -> (r: bool)
    ensures
        r == accepts(*taker, p.units as int),
{
    match taker.order_type {
        OrderType::MARKET => true,
        OrderType::LIMIT => match taker.side {
            Side::BID => p.units <= taker.price.units,
            Side::ASK => p.units >= taker.price.units,
        },
    }
}

fn make_trade(taker: &Order, maker: &Order, q: i128, ts: u64) -> (t: Trade)
    ensures
        t == trade_between(*taker, *maker, q as int, ts),
{
    match taker.side {
        Side::BID => Trade {
            long_id: taker.user_id.clone(),
            short_id: maker.user_id.clone(),
            long_leverage: taker.leverage,
            short_leverage: maker.leverage,
            amount: Fixed { units: q },
            price: maker.price,
            ts,
        },
        Side::ASK => Trade {
            long_id: maker.user_id.clone(),
            short_id: taker.user_id.clone(),
            long_leverage: maker.leverage,
            short_leverage: taker.leverage,
            amount: Fixed { units: q },
            price: maker.price,
            ts,
        },
    }
}

/// Matches `taker` against the opposite side `side` and returns the quantity
/// left unmatched with the trades in match order.
fn sweep_side(side: &mut Vec<Order>, taker: &Order, ts: u64) -> (r: (i128, Vec<Trade>))
    requires
        forall|i: int| 0 <= i < old(side)@.len() ==> (#[trigger] old(side)@[i]).amount.units > 0,
        taker.amount.units > 0,
    ensures
        sweep(old(side)@, *taker, taker.amount.units as int, ts) == (final(side)@, r.1@, r.0 as int),
{
    let mut rem: i128 = taker.amount.units;
    let mut trades: Vec<Trade> = Vec::new();
    let ghost goal = sweep(side@, *taker, rem as int, ts);
    while rem > 0 && side.len() > 0 && accepts_price(taker, side[0].price)
        invariant
            forall|i: int| 0 <= i < side@.len() ==> (#[trigger] side@[i]).amount.units > 0,
            rem >= 0,
            goal.0 == sweep(side@, *taker, rem as int, ts).0,
            goal.1 == trades@ + sweep(side@, *taker, rem as int, ts).1,
            goal.2 == sweep(side@, *taker, rem as int, ts).2,
        decreases side@.len() + if rem > 0 {
            1int
        } else {
            0int
        },
    {
        let ghost before = side@;
        let ghost rem0 = rem as int;
        let ghost done = trades@;
        let head_amount = side[0].amount.units;
        if rem < head_amount {
            let t = make_trade(taker, &side[0], rem, ts);
            trades.push(t);
            let mut head = side.remove(0);
            head.amount = Fixed { units: head_amount - rem };
            side.insert(0, head);
            assert(side@ =~= before.update(0, with_amount(before[0], head_amount - rem)));
            rem = 0;
            assert(trades@ + sweep(side@, *taker, rem as int, ts).1 =~= done + sweep(
                before,
                *taker,
                rem0,
                ts,
            ).1);
        } else {
            let head = side.remove(0);
            let t = make_trade(taker, &head, head_amount, ts);
            trades.push(t);
            rem = rem - head_amount;
            assert(side@ =~= before.drop_first());
            assert(trades@ + sweep(side@, *taker, rem as int, ts).1 =~= done + sweep(
                before,
                *taker,
                rem0,
                ts,
            ).1);
        }
    }
    (rem, trades)
}


/// The head of `own` is strictly behind the head of `opp`: the book is not
/// crossed between the two sides.
pub open spec fn separated(own: Seq<Order>, opp: Seq<Order>, sd: Side) -> bool {
    own.len() > 0 && opp.len() > 0 ==> ahead(
        side_of_opposite(sd),
        own[0].price.units as int,
        opp[0].price.units as int,
    )
}

/// The reply to a submission of `o` of which `rem` units found no
/// counterparty.
pub open spec fn response_for(o: Order, rem: int) -> OrderResponse {
    OrderResponse {
        status: if rem == 0 {
            OrderStatus::Filled
        } else if o.order_type == OrderType::LIMIT {
            OrderStatus::Resting
        } else {
            OrderStatus::MarketUnfilledResidual
        },
        filled: Fixed { units: (o.amount.units - rem) as i128 },
        remaining: Fixed { units: rem as i128 },
    }
}

/// The own side after the remainder `rem` of `o` is handled: a LIMIT
/// remainder rests, anything else is dropped.
pub open spec fn rest_after(own: Seq<Order>, o: Order, rem: int) -> Seq<Order> {
    if rem > 0 && o.order_type == OrderType::LIMIT {
        place(own, with_amount(o, rem))
    } else {
        own
    }
}

pub proof fn lemma_place_index_char(side: Seq<Order>, o: Order)
    ensures
        place_index(side, o) <= side.len(),
        forall|j: int|
            0 <= j < place_index(side, o) ==> !ahead(
                o.side,
                o.price.units as int,
                #[trigger] side[j].price.units as int,
            ),
        place_index(side, o) < side.len() ==> ahead(
            o.side,
            o.price.units as int,
            side[place_index(side, o) as int].price.units as int,
        ),
    decreases side.len(),
{
    if side.len() > 0 && !ahead(o.side, o.price.units as int, side[0].price.units as int) {
        let t = side.drop_first();
        lemma_place_index_char(t, o);
        assert forall|j: int| 0 <= j < place_index(side, o) implies !ahead(
            o.side,
            o.price.units as int,
            #[trigger] side[j].price.units as int,
        ) by {
            if j > 0 {
                assert(side[j] == t[j - 1]);
            }
        }
    }
}

/// Placing a resting order of the side's own kind keeps the side in
/// priority order.
pub proof fn lemma_place_wf(side: Seq<Order>, o: Order, sd: Side)
    requires
        side_wf(side, sd),
        o.side == sd,
        o.order_type == OrderType::LIMIT,
        o.amount.units > 0,
    ensures
        side_wf(place(side, o), sd),
        place(side, o).len() > 0,
        place(side, o)[0] == if place_index(side, o) == 0 {
            o
        } else {
            side[0]
        },
{
    lemma_place_index_char(side, o);
    let k = place_index(side, o) as int;
    let s = place(side, o);
    assert forall|i: int| 0 <= i < s.len() implies {
        &&& (#[trigger] s[i]).side == sd
        &&& s[i].order_type == OrderType::LIMIT
        &&& s[i].amount.units > 0
    } by {
        if i < k {
            assert(s[i] == side[i]);
        } else if i > k {
            assert(s[i] == side[i - 1]);
        }
    }
    assert forall|i: int, j: int| 0 <= i < j < s.len() implies !ahead(
        sd,
        #[trigger] s[j].price.units as int,
        #[trigger] s[i].price.units as int,
    ) by {
        if j < k {
            assert(s[i] == side[i] && s[j] == side[j]);
        } else if j == k {
            assert(s[i] == side[i]);
        } else if i > k {
            assert(s[i] == side[i - 1] && s[j] == side[j - 1]);
        } else if i == k {
            assert(s[j] == side[j - 1]);
            if j - 1 > k {
                assert(!ahead(sd, side[j - 1].price.units as int, side[k].price.units as int));
            }
        } else {
            assert(s[i] == side[i] && s[j] == side[j - 1]);
        }
    }
}

fn ahead_of(sd: Side, p: Price, q: Price) -> (r: bool)
    ensures
        r == ahead(sd, p.units as int, q.units as int),
{
    match sd {
        Side::BID => p.units > q.units,
        Side::ASK => p.units < q.units,
    }
}

/// Puts `o` into its own side behind every order priced at least as well.
fn rest_order(side: &mut Vec<Order>, o: Order)
    ensures
        final(side)@ == place(old(side)@, o),
{
    let mut i: usize = 0;
    proof {
        assert(side@.skip(0) =~= side@);
    }
    while i < side.len() && !ahead_of(o.side, o.price, side[i].price)
        invariant
            0 <= i <= side@.len(),
            place_index(side@, o) == i + place_index(side@.skip(i as int), o),
        decreases side@.len() - i,
    {
        proof {
            assert(side@.skip(i as int).drop_first() =~= side@.skip(i + 1));
        }
        i = i + 1;
    }
    side.insert(i, o);
}

/// Matching one order against the opposite side and resting its LIMIT
/// remainder keeps both sides in priority order and the book uncrossed.
pub proof fn lemma_match_side(own: Seq<Order>, opp: Seq<Order>, o: Order, ts: u64)
    requires
        side_wf(own, o.side),
        side_wf(opp, side_of_opposite(o.side)),
        separated(own, opp, o.side),
        o.amount.units > 0,
    ensures
        ({
            let s = sweep(opp, o, o.amount.units as int, ts);
            &&& 0 <= s.2 <= o.amount.units
            &&& side_wf(rest_after(own, o, s.2), o.side)
            &&& side_wf(s.0, side_of_opposite(o.side))
            &&& separated(rest_after(own, o, s.2), s.0, o.side)
        }),
{
    let s = sweep(opp, o, o.amount.units as int, ts);
    lemma_sweep_shape(opp, o, o.amount.units as int, ts);
    let d = opp.len() - s.0.len();
    if s.2 > 0 && o.order_type == OrderType::LIMIT {
        lemma_place_wf(own, with_amount(o, s.2), o.side);
    }
    let own2 = rest_after(own, o, s.2);
    if own2.len() > 0 && s.0.len() > 0 && d > 0 {
        assert(!ahead(side_of_opposite(o.side), opp[d].price.units as int, opp[0].price.units as int));
    }
}

/// Matches `order` against the opposite side `opp` and rests a LIMIT
/// remainder in its own side `own`.
fn match_order(own: &mut Vec<Order>, opp: &mut Vec<Order>, order: Order, ts: u64) -> (r: (
    OrderResponse,
    Vec<Trade>,
))
    requires
        side_wf(old(own)@, order.side),
        side_wf(old(opp)@, side_of_opposite(order.side)),
        separated(old(own)@, old(opp)@, order.side),
        order.amount.units > 0,
    ensures
        ({
            let s = sweep(old(opp)@, order, order.amount.units as int, ts);
            &&& final(opp)@ == s.0
            &&& r.1@ == s.1
            &&& final(own)@ == rest_after(old(own)@, order, s.2)
            &&& r.0 == response_for(order, s.2)
        }),
        side_wf(final(own)@, order.side),
        side_wf(final(opp)@, side_of_opposite(order.side)),
        separated(final(own)@, final(opp)@, order.side),
{
    let ghost own0 = own@;
    let ghost opp0 = opp@;
    proof {
        lemma_match_side(own0, opp0, order, ts);
    }
    let (rem, trades) = sweep_side(opp, &order, ts);
    proof {
        lemma_sweep_shape(opp0, order, order.amount.units as int, ts);
    }
    let filled = Fixed { units: order.amount.units - rem };
    let remaining = Fixed { units: rem };
    let status = if rem == 0 {
        OrderStatus::Filled
    } else {
        match order.order_type {
            OrderType::LIMIT => OrderStatus::Resting,
            OrderType::MARKET => OrderStatus::MarketUnfilledResidual,
        }
    };
    if rem > 0 && order.order_type == OrderType::LIMIT {
        let mut o = order;
        o.amount = Fixed { units: rem };
        assert(o == with_amount(order, rem as int));
        rest_order(own, o);
    }
    (OrderResponse { status, filled, remaining }, trades)
}

/// The two sides of a book as sequences of resting orders, best first.
pub struct BookView {
    pub bids: Seq<Order>,
    pub asks: Seq<Order>,
}

/// Both sides in priority order and the book not crossed: the best bid is
/// below the best ask whenever both sides hold orders.
pub open spec fn book_wf(b: BookView) -> bool {
    &&& side_wf(b.bids, Side::BID)
    &&& side_wf(b.asks, Side::ASK)
    &&& separated(b.bids, b.asks, Side::BID)
}

/// Submitting `o` at time `ts`: the book afterwards, the trades in match
/// order and the reply.
pub open spec fn submit_spec(b: BookView, o: Order, ts: u64) -> (BookView, Seq<Trade>, OrderResponse) {
    match o.side {
        Side::BID => {
            let s = sweep(b.asks, o, o.amount.units as int, ts);
            (
                BookView { bids: rest_after(b.bids, o, s.2), asks: s.0 },
                s.1,
                response_for(o, s.2),
            )
        },
        Side::ASK => {
            let s = sweep(b.bids, o, o.amount.units as int, ts);
            (
                BookView { bids: s.0, asks: rest_after(b.asks, o, s.2) },
                s.1,
                response_for(o, s.2),
            )
        },
    }
}

/// The best price of a side, if it holds an order.
pub open spec fn best_of(s: Seq<Order>) -> Option<Price> {
    if s.len() > 0 {
        Some(s[0].price)
    } else {
        None
    }
}

/// Submitting `os` one after another, in order: the book afterwards, all
/// trades in the order they were made, and the replies in submission order.
pub open spec fn submit_all(b: BookView, os: Seq<Order>, ts: u64) -> (
    BookView,
    Seq<Trade>,
    Seq<OrderResponse>,
)
    decreases os.len(),
{
    if os.len() == 0 {
        (b, Seq::empty(), Seq::empty())
    } else {
        let first = submit_spec(b, os[0], ts);
        let rest = submit_all(first.0, os.drop_first(), ts);
        (rest.0, first.1 + rest.1, seq![first.2] + rest.2)
    }
}

/// What the book serves at one wakeup: every waiting liquidation order, in
/// arrival order, then at most one client order.
pub open spec fn wakeup_orders(liquidations: Seq<Order>, client: Option<Order>) -> Seq<Order> {
    match client {
        Some(o) => liquidations.push(o),
        None => liquidations,
    }
}

pub struct OrderBook {
    bids: Vec<Order>,
    asks: Vec<Order>,
    best_bid: Option<Price>,
    best_ask: Option<Price>,
}

impl View for OrderBook {
    type V = BookView;

    closed spec fn view(&self) -> BookView {
        BookView { bids: self.bids@, asks: self.asks@ }
    }
}

impl OrderBook {
    /// The sides are well formed; the cached best prices may be stale.
    pub closed spec fn sides_wf(&self) -> bool {
        book_wf(self@)
    }

    pub closed spec fn wf(&self) -> bool {
        &&& book_wf(self@)
        &&& self.best_bid == best_of(self.bids@)
        &&& self.best_ask == best_of(self.asks@)
    }

    /// A valid book has both sides in priority order and is not crossed,
    /// so the laws stated over `book_wf` apply to it.
    pub proof fn lemma_wf_book(&self)
        requires
            self.wf(),
        ensures
            book_wf(self@),
    {
    }

    pub fn new() -> (r: OrderBook)
        ensures
            r.wf(),
            r@.bids.len() == 0,
            r@.asks.len() == 0,
    {
        OrderBook { bids: Vec::new(), asks: Vec::new(), best_bid: None, best_ask: None }
    }

    /// Submits an order at time `now`: matches it at price-time priority, rests
    /// a LIMIT remainder, and returns the reply with the trades in match order.
    pub fn insert_order(&mut self, order: Order, now: u64) -> (r: (OrderResponse, Vec<Trade>))
        requires
            old(self).wf(),
            order.amount.units > 0,
        ensures
            final(self).wf(),
            book_wf(final(self)@),
            (final(self)@, r.1@, r.0) == submit_spec(old(self)@, order, now),
    {
        let r = match order.side {
            Side::BID => self.handle_buy(order, now),
            Side::ASK => self.handle_sell(order, now),
        };
        self.update_best_prices();
        r
    }

    /// Serves one wakeup: submits every waiting liquidation order, in
    /// arrival order, and then the client order, if any. All trades of the
    /// liquidations come before any trade of the client order; the replies
    /// come in the same order, the client's last.
    pub fn serve_wakeup(&mut self, liquidations: Vec<Order>, client: Option<Order>, now: u64) -> (r: (
        Vec<OrderResponse>,
        Vec<Trade>,
    ))
        requires
            old(self).wf(),
            forall|i: int|
                0 <= i < liquidations@.len() ==> (#[trigger] liquidations@[i]).amount.units > 0,
            client matches Some(o) ==> o.amount.units > 0,
        ensures
            final(self).wf(),
            (final(self)@, r.1@, r.0@) == submit_all(
                old(self)@,
                wakeup_orders(liquidations@, client),
                now,
            ),
    {
        let mut queue = liquidations;
        match client {
            Some(o) => queue.push(o),
            None => {},
        }
        let ghost goal = submit_all(self@, queue@, now);
        let mut replies: Vec<OrderResponse> = Vec::new();
        let mut trades: Vec<Trade> = Vec::new();
        while queue.len() > 0
            invariant
                self.wf(),
                forall|i: int| 0 <= i < queue@.len() ==> (#[trigger] queue@[i]).amount.units > 0,
                goal.0 == submit_all(self@, queue@, now).0,
                goal.1 == trades@ + submit_all(self@, queue@, now).1,
                goal.2 == replies@ + submit_all(self@, queue@, now).2,
            decreases queue@.len(),
        {
            let ghost q0 = queue@;
            let ghost b0 = self@;
            let ghost t0 = trades@;
            let ghost r0 = replies@;
            let o = queue.remove(0);
            assert(queue@ =~= q0.drop_first());
            let (reply, mut made) = self.insert_order(o, now);
            let ghost m = made@;
            trades.append(&mut made);
            replies.push(reply);
            proof {
                let rest = submit_all(self@, queue@, now);
                assert(trades@ + rest.1 =~= t0 + (m + rest.1));
                assert(replies@ + rest.2 =~= r0 + (seq![reply] + rest.2));
            }
        }
        proof {
            assert(trades@ + Seq::<Trade>::empty() =~= trades@);
            assert(replies@ + Seq::<OrderResponse>::empty() =~= replies@);
        }
        (replies, trades)
    }

    /// Matches a BID against the asks, lowest price first; leaves the cached
    /// best prices to `update_best_prices`.
    pub fn handle_buy(&mut self, order: Order, now: u64) -> (r: (OrderResponse, Vec<Trade>))
        requires
            old(self).wf(),
            order.side == Side::BID,
            order.amount.units > 0,
        ensures
            final(self).sides_wf(),
            (final(self)@, r.1@, r.0) == submit_spec(old(self)@, order, now),
    {
        match_order(&mut self.bids, &mut self.asks, order, now)
    }

    /// Matches an ASK against the bids, highest price first; leaves the cached
    /// best prices to `update_best_prices`.
    pub fn handle_sell(&mut self, order: Order, now: u64) -> (r: (OrderResponse, Vec<Trade>))
        requires
            old(self).wf(),
            order.side == Side::ASK,
            order.amount.units > 0,
        ensures
            final(self).sides_wf(),
            (final(self)@, r.1@, r.0) == submit_spec(old(self)@, order, now),
    {
        proof {
            let b = self@;
            if b.bids.len() > 0 && b.asks.len() > 0 {
                assert(ahead(Side::ASK, b.bids[0].price.units as int, b.asks[0].price.units as int));
            }
        }
        let r = match_order(&mut self.asks, &mut self.bids, order, now);
        proof {
            let b = self@;
            if b.bids.len() > 0 && b.asks.len() > 0 {
                assert(ahead(Side::BID, b.asks[0].price.units as int, b.bids[0].price.units as int));
            }
        }
        r
    }

    /// Refreshes the cached best bid and best ask.
    pub fn update_best_prices(&mut self)
        requires
            old(self).sides_wf(),
        ensures
            final(self).wf(),
            final(self)@ == old(self)@,
    {
        self.best_bid = if self.bids.len() > 0 {
            Some(self.bids[0].price)
        } else {
            None
        };
        self.best_ask = if self.asks.len() > 0 {
            Some(self.asks[0].price)
        } else {
            None
        };
    }

    pub fn best_bid(&self) -> (r: Option<Price>)
        requires
            self.wf(),
        ensures
            r == best_of(self@.bids),
    {
        self.best_bid
    }

    pub fn best_ask(&self) -> (r: Option<Price>)
        requires
            self.wf(),
        ensures
            r == best_of(self@.asks),
    {
        self.best_ask
    }

    /// The resting bids, best first.
    pub fn bids(&self) -> (r: &Vec<Order>)
        ensures
            r@ == self@.bids,
    {
        &self.bids
    }

    /// The resting asks, best first.
    pub fn asks(&self) -> (r: &Vec<Order>)
        ensures
            r@ == self@.asks,
    {
        &self.asks
    }
}

} // verus!
