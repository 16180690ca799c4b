use perp_engine::fixed::Fixed;
use perp_engine::order::{Order, OrderBook, OrderResponse, OrderStatus, OrderType, Side};
use perp_engine::position::{PositionTracker, Trade};
use perp_engine::types::{next_lane, Lane};

const ONE: i128 = 100_000_000;

fn whole(n: i128) -> Fixed {
    Fixed::from_units(n * ONE)
}

fn order(id: &str, user: &str, order_type: OrderType, side: Side, price: Fixed, amount: Fixed) -> Order {
    Order {
        id: id.to_string(),
        user_id: user.to_string(),
        order_type,
        amount,
        price,
        side,
        leverage: whole(1),
    }
}

fn limit(user: &str, side: Side, price: i128, amount: Fixed) -> Order {
    order(user, user, OrderType::LIMIT, side, whole(price), amount)
}

fn market(user: &str, side: Side, amount: Fixed) -> Order {
    order(user, user, OrderType::MARKET, side, whole(0), amount)
}

fn prices(orders: &Vec<Order>) -> Vec<(String, i128, i128)> {
    orders
        .iter()
        .map(|o| (o.user_id.clone(), o.price.units, o.amount.units))
        .collect()
}

fn assert_uncrossed(book: &OrderBook) {
    if let (Some(b), Some(a)) = (book.best_bid(), book.best_ask()) {
        assert!(b.units < a.units);
    }
    for o in book.bids().iter().chain(book.asks().iter()) {
        assert!(o.amount.units > 0);
    }
}

#[test]
fn simple_cross() {
    let mut book = OrderBook::new();
    let (r1, t1) = book.insert_order(limit("A", Side::ASK, 100, whole(1)), 1);
    assert!(t1.is_empty());
    assert_eq!(r1.status, OrderStatus::Resting);
    let (r2, t2) = book.insert_order(limit("B", Side::BID, 100, whole(1)), 2);
    assert_eq!(t2.len(), 1);
    assert_eq!(t2[0].long_id, "B");
    assert_eq!(t2[0].short_id, "A");
    assert_eq!(t2[0].amount, whole(1));
    assert_eq!(t2[0].price, whole(100));
    assert_eq!(t2[0].ts, 2);
    assert_eq!(
        r2,
        OrderResponse { status: OrderStatus::Filled, filled: whole(1), remaining: whole(0) }
    );
    assert!(book.bids().is_empty());
    assert!(book.asks().is_empty());
    assert_eq!(book.best_bid(), None);
    assert_eq!(book.best_ask(), None);

    let mut tracker = PositionTracker::new();
    assert!(tracker.on_trade(&t2[0]).is_ok());
    let ps = tracker.positions();
    assert_eq!(ps.len(), 2);
    let b = ps.iter().find(|p| p.user_id == "B").unwrap();
    let a = ps.iter().find(|p| p.user_id == "A").unwrap();
    assert_eq!(b.size, whole(1));
    assert_eq!(a.size, whole(-1));
    assert_eq!(a.entry_price, whole(100));
    assert_eq!(b.entry_price, whole(100));
    assert_eq!(a.margin, whole(100));
    assert_eq!(b.margin, whole(100));
}

#[test]
fn walk_the_book() {
    let mut book = OrderBook::new();
    book.insert_order(limit("A", Side::ASK, 100, whole(1)), 1);
    book.insert_order(limit("C", Side::ASK, 101, whole(2)), 2);
    let (r, trades) = book.insert_order(market("B", Side::BID, Fixed::from_units(250_000_000)), 3);
    assert_eq!(trades.len(), 2);
    assert_eq!((trades[0].long_id.as_str(), trades[0].short_id.as_str()), ("B", "A"));
    assert_eq!(trades[0].amount, whole(1));
    assert_eq!(trades[0].price, whole(100));
    assert_eq!((trades[1].long_id.as_str(), trades[1].short_id.as_str()), ("B", "C"));
    assert_eq!(trades[1].amount, Fixed::from_units(150_000_000));
    assert_eq!(trades[1].price, whole(101));
    assert_eq!(r.status, OrderStatus::Filled);
    assert_eq!(r.filled, Fixed::from_units(250_000_000));
    assert_eq!(prices(book.asks()), vec![("C".to_string(), 101 * ONE, 50_000_000)]);

    let mut tracker = PositionTracker::new();
    for t in &trades {
        assert!(tracker.on_trade(t).is_ok());
    }
    let b = tracker.positions().iter().find(|p| p.user_id == "B").unwrap();
    assert_eq!(b.size, Fixed::from_units(250_000_000));
    assert_eq!(b.entry_price, Fixed::from_units(10_060_000_000));
}

#[test]
fn limit_rests() {
    let mut book = OrderBook::new();
    let (r, trades) = book.insert_order(limit("A", Side::BID, 99, whole(1)), 1);
    assert!(trades.is_empty());
    assert_eq!(
        r,
        OrderResponse { status: OrderStatus::Resting, filled: whole(0), remaining: whole(1) }
    );
    let at_99: Vec<&Order> = book.bids().iter().filter(|o| o.price == whole(99)).collect();
    assert_eq!(at_99.len(), 1);
    assert_eq!(book.best_bid(), Some(whole(99)));
    assert_eq!(book.best_ask(), None);
}

#[test]
fn liquidation_priority() {
    let mut book = OrderBook::new();
    book.insert_order(limit("M", Side::ASK, 100, whole(1)), 1);
    let mut liquidations = vec![market("L", Side::BID, whole(1))];
    let mut clients = vec![market("N", Side::BID, whole(1))];
    let mut trades: Vec<Trade> = Vec::new();
    let mut replies: Vec<(String, OrderStatus)> = Vec::new();
    let mut now = 2;
    while let Some(lane) = next_lane(!liquidations.is_empty(), !clients.is_empty()) {
        let o = match lane {
            Lane::Liquidation => liquidations.remove(0),
            Lane::Client => clients.remove(0),
        };
        let user = o.user_id.clone();
        let (r, ts) = book.insert_order(o, now);
        now += 1;
        replies.push((user, r.status));
        trades.extend(ts);
    }
    assert_eq!(trades.len(), 1);
    assert_eq!(trades[0].long_id, "L");
    assert_eq!(
        replies,
        vec![
            ("L".to_string(), OrderStatus::Filled),
            ("N".to_string(), OrderStatus::MarketUnfilledResidual)
        ]
    );
}

#[test]
fn next_lane_prefers_liquidations() {
    assert_eq!(next_lane(true, true), Some(Lane::Liquidation));
    assert_eq!(next_lane(true, false), Some(Lane::Liquidation));
    assert_eq!(next_lane(false, true), Some(Lane::Client));
    assert_eq!(next_lane(false, false), None);
}

#[test]
fn round_trip_leaves_book_unchanged() {
    let mut book = OrderBook::new();
    book.insert_order(limit("X", Side::BID, 90, whole(3)), 1);
    book.insert_order(limit("Y", Side::ASK, 110, whole(2)), 2);
    let bids_before = prices(book.bids());
    let asks_before = prices(book.asks());
    let (r1, t1) = book.insert_order(limit("P", Side::BID, 100, whole(5)), 3);
    assert!(t1.is_empty());
    assert_eq!(r1.status, OrderStatus::Resting);
    let (r2, t2) = book.insert_order(limit("Q", Side::ASK, 100, whole(5)), 4);
    assert_eq!(t2.len(), 1);
    assert_eq!(t2[0].amount, whole(5));
    assert_eq!(t2[0].price, whole(100));
    assert_eq!(t2[0].long_id, "P");
    assert_eq!(t2[0].short_id, "Q");
    assert_eq!(r2.status, OrderStatus::Filled);
    assert_eq!(prices(book.bids()), bids_before);
    assert_eq!(prices(book.asks()), asks_before);
}

#[test]
fn market_against_empty_side() {
    let mut book = OrderBook::new();
    book.insert_order(limit("X", Side::BID, 90, whole(1)), 1);
    let (r, trades) = book.insert_order(market("B", Side::BID, whole(2)), 2);
    assert!(trades.is_empty());
    assert_eq!(
        r,
        OrderResponse {
            status: OrderStatus::MarketUnfilledResidual,
            filled: whole(0),
            remaining: whole(2)
        }
    );
    assert_eq!(prices(book.bids()), vec![("X".to_string(), 90 * ONE, ONE)]);
    assert!(book.asks().is_empty());
}

#[test]
fn limit_at_best_ask_matches() {
    let mut book = OrderBook::new();
    book.insert_order(limit("A", Side::ASK, 100, whole(2)), 1);
    book.insert_order(limit("C", Side::ASK, 105, whole(2)), 2);
    let (r, trades) = book.insert_order(limit("B", Side::BID, 100, whole(1)), 3);
    assert_eq!(trades.len(), 1);
    assert_eq!(trades[0].price, whole(100));
    assert_eq!(trades[0].short_id, "A");
    assert_eq!(r.status, OrderStatus::Filled);
    assert_eq!(
        prices(book.asks()),
        vec![("A".to_string(), 100 * ONE, ONE), ("C".to_string(), 105 * ONE, 2 * ONE)]
    );
}

#[test]
fn fifo_within_levels() {
    let mut book = OrderBook::new();
    book.insert_order(limit("A1", Side::ASK, 101, whole(1)), 1);
    book.insert_order(limit("B1", Side::ASK, 100, whole(1)), 2);
    book.insert_order(limit("A2", Side::ASK, 101, whole(1)), 3);
    book.insert_order(limit("B2", Side::ASK, 100, whole(1)), 4);
    let (r, trades) = book.insert_order(market("T", Side::BID, Fixed::from_units(350_000_000)), 5);
    let makers: Vec<(&str, i128, i128)> = trades
        .iter()
        .map(|t| (t.short_id.as_str(), t.price.units, t.amount.units))
        .collect();
    assert_eq!(
        makers,
        vec![
            ("B1", 100 * ONE, ONE),
            ("B2", 100 * ONE, ONE),
            ("A1", 101 * ONE, ONE),
            ("A2", 101 * ONE, 50_000_000)
        ]
    );
    assert_eq!(r.status, OrderStatus::Filled);
    assert_eq!(prices(book.asks()), vec![("A2".to_string(), 101 * ONE, 50_000_000)]);
}

#[test]
fn sell_side_walks_bids_from_the_top() {
    let mut book = OrderBook::new();
    book.insert_order(limit("B1", Side::BID, 98, whole(1)), 1);
    book.insert_order(limit("B2", Side::BID, 99, whole(1)), 2);
    let (r, trades) = book.insert_order(limit("S", Side::ASK, 98, whole(3)), 3);
    assert_eq!(trades.len(), 2);
    assert_eq!(trades[0].long_id, "B2");
    assert_eq!(trades[0].short_id, "S");
    assert_eq!(trades[0].price, whole(99));
    assert_eq!(trades[1].long_id, "B1");
    assert_eq!(trades[1].price, whole(98));
    assert_eq!(
        r,
        OrderResponse { status: OrderStatus::Resting, filled: whole(2), remaining: whole(1) }
    );
    assert!(book.bids().is_empty());
    assert_eq!(prices(book.asks()), vec![("S".to_string(), 98 * ONE, ONE)]);
    assert_eq!(book.best_ask(), Some(whole(98)));
}

#[test]
fn book_stays_uncrossed_with_nonempty_levels() {
    let mut book = OrderBook::new();
    let steps: Vec<Order> = vec![
        limit("a", Side::BID, 100, whole(2)),
        limit("b", Side::ASK, 103, whole(1)),
        limit("c", Side::BID, 101, whole(1)),
        limit("d", Side::ASK, 100, whole(2)),
        market("e", Side::BID, whole(1)),
        limit("f", Side::ASK, 99, whole(4)),
        limit("g", Side::BID, 102, whole(1)),
        market("h", Side::ASK, whole(1)),
    ];
    let mut filled_total = 0;
    let mut traded_total = 0;
    for (i, o) in steps.into_iter().enumerate() {
        let amount = o.amount.units;
        let (r, trades) = book.insert_order(o, i as u64);
        assert_eq!(r.filled.units + r.remaining.units, amount);
        filled_total += r.filled.units;
        traded_total += trades.iter().map(|t| t.amount.units).sum::<i128>();
        assert_uncrossed(&book);
    }
    assert_eq!(filled_total, traded_total);
}

#[test]
fn equal_price_asks_keep_arrival_order() {
    let mut book = OrderBook::new();
    book.insert_order(limit("first", Side::ASK, 100, whole(1)), 1);
    book.insert_order(limit("second", Side::ASK, 100, whole(1)), 2);
    book.insert_order(limit("better", Side::ASK, 99, whole(1)), 3);
    let users: Vec<String> = book.asks().iter().map(|o| o.user_id.clone()).collect();
    assert_eq!(users, vec!["better", "first", "second"]);
}

#[test]
fn status_names() {
    assert_eq!(OrderStatus::Filled.as_str(), "filled");
    assert_eq!(OrderStatus::Resting.as_str(), "resting");
    assert_eq!(OrderStatus::MarketUnfilledResidual.as_str(), "market_unfilled_residual");
    assert_eq!(Side::BID.as_str(), "BID");
    assert_eq!(Side::ASK.as_str(), "ASK");
}

#[test]
fn wakeup_serves_liquidations_before_the_client() {
    let mut book = OrderBook::new();
    book.insert_order(limit("M1", Side::ASK, 100, whole(1)), 1);
    book.insert_order(limit("M2", Side::ASK, 101, whole(1)), 2);
    let liquidations = vec![market("L1", Side::BID, whole(1)), market("L2", Side::BID, whole(1))];
    let client = Some(market("N", Side::BID, whole(1)));
    let (replies, trades) = book.serve_wakeup(liquidations, client, 3);
    let longs: Vec<&str> = trades.iter().map(|t| t.long_id.as_str()).collect();
    assert_eq!(longs, vec!["L1", "L2"]);
    assert_eq!(trades[0].price, whole(100));
    assert_eq!(trades[1].price, whole(101));
    let statuses: Vec<OrderStatus> = replies.iter().map(|r| r.status).collect();
    assert_eq!(
        statuses,
        vec![OrderStatus::Filled, OrderStatus::Filled, OrderStatus::MarketUnfilledResidual]
    );
    assert!(book.asks().is_empty());
}

#[test]
fn wakeup_with_only_a_client_order() {
    let mut book = OrderBook::new();
    let (replies, trades) = book.serve_wakeup(Vec::new(), Some(limit("A", Side::BID, 99, whole(1))), 1);
    assert!(trades.is_empty());
    assert_eq!(replies.len(), 1);
    assert_eq!(replies[0].status, OrderStatus::Resting);
    let (replies, trades) = book.serve_wakeup(Vec::new(), None, 2);
    assert!(replies.is_empty() && trades.is_empty());
}
