use perp_engine::fixed::Fixed;
use perp_engine::order::{OrderType, Side};
use perp_engine::position::{
    funding_transfer, next_funding_hour, EngineError, Position, PositionTracker, Trade, LIMIT,
};

const ONE: i128 = 100_000_000;

fn whole(n: i128) -> Fixed {
    Fixed::from_units(n * ONE)
}

fn trade(long: &str, short: &str, amount: Fixed, price: Fixed) -> Trade {
    Trade {
        long_id: long.to_string(),
        short_id: short.to_string(),
        long_leverage: whole(1),
        short_leverage: whole(1),
        amount,
        price,
        ts: 0,
    }
}

fn position<'a>(t: &'a PositionTracker, user: &str) -> Option<&'a Position> {
    t.positions().iter().find(|p| p.user_id == user)
}

fn total_size(t: &PositionTracker) -> i128 {
    t.positions().iter().map(|p| p.size.units).sum()
}

#[test]
fn risk_breach_liquidates_once() {
    let mut t = PositionTracker::new();
    assert!(t.on_trade(&trade("A", "Z", whole(1), whole(60_000))).is_ok());
    let a = position(&t, "A").unwrap();
    assert_eq!(a.margin, whole(60_000));
    assert_eq!(a.entry_price, whole(60_000));
    assert!(t.update_mark_price(whole(20_000)).is_ok());
    assert_eq!(t.mark_price(), whole(20_000));
    let orders = t.update_risk();
    assert_eq!(orders.len(), 1);
    let o = &orders[0];
    assert_eq!(o.user_id, "A");
    assert_eq!(o.side, Side::ASK);
    assert_eq!(o.order_type, OrderType::MARKET);
    assert_eq!(o.amount, whole(1));
    assert_eq!(o.leverage, whole(1));
    assert_eq!(o.id.len(), 36);
    let a = position(&t, "A").unwrap();
    assert_eq!(a.unrealized_pnl, whole(-40_000));
    assert!(a.liquidation_in_flight);
    let z = position(&t, "Z").unwrap();
    assert_eq!(z.unrealized_pnl, whole(40_000));
    assert!(!z.liquidation_in_flight);

    let again = t.update_risk();
    assert!(again.is_empty());

    assert!(t.update_mark_price(whole(60_000)).is_ok());
    assert!(t.update_risk().is_empty());
    assert!(!position(&t, "A").unwrap().liquidation_in_flight);
}

#[test]
fn liquidation_trade_removes_position() {
    let mut t = PositionTracker::new();
    assert!(t.on_trade(&trade("A", "Z", whole(1), whole(60_000))).is_ok());
    assert!(t.update_mark_price(whole(20_000)).is_ok());
    let orders = t.update_risk();
    assert_eq!(orders.len(), 1);
    assert!(t.on_trade(&trade("W", "A", whole(1), whole(20_000))).is_ok());
    assert!(position(&t, "A").is_none());
    assert_eq!(total_size(&t), 0);
}

#[test]
fn short_position_liquidates_with_a_bid() {
    let mut t = PositionTracker::new();
    assert!(t.on_trade(&trade("L", "S", whole(2), whole(100))).is_ok());
    assert!(t.update_mark_price(whole(150)).is_ok());
    let orders = t.update_risk();
    assert_eq!(orders.len(), 1);
    assert_eq!(orders[0].user_id, "S");
    assert_eq!(orders[0].side, Side::BID);
    assert_eq!(orders[0].amount, whole(2));
}

#[test]
fn funding_clamp_and_mark() {
    let mut t = PositionTracker::new();
    assert!(t.on_trade(&trade("A", "B", whole(1), whole(61_000))).is_ok());
    assert_eq!(t.last_traded_price(), whole(61_000));
    assert!(t.update_funding_rate(whole(60_000)).is_ok());
    assert_eq!(t.current_funding_rate(), Fixed::from_units(75_000));
    assert!(t.update_mark_price(whole(60_000)).is_ok());
    assert_eq!(t.mark_price(), whole(60_045));
}

#[test]
fn funding_rate_unclamped_inside_the_band() {
    let mut t = PositionTracker::new();
    assert!(t.on_trade(&trade("A", "B", whole(1), whole(60_060))).is_ok());
    assert!(t.update_funding_rate(whole(60_000)).is_ok());
    assert_eq!(t.current_funding_rate(), Fixed::from_units(5_000));
}

#[test]
fn funding_rate_negative_clamp_and_window() {
    let mut t = PositionTracker::new();
    for i in 0..61 {
        assert!(t.update_funding_rate(whole(60_000 + i)).is_ok());
        let r = t.current_funding_rate().units;
        assert!(-75_000 <= r && r <= 75_000);
    }
    assert_eq!(t.current_funding_rate(), Fixed::from_units(-75_000));
    assert_eq!(t.funding_rate_window().len(), 60);
}

#[test]
fn on_index_price_marks_and_liquidates() {
    let mut t = PositionTracker::new();
    assert!(t.on_trade(&trade("A", "Z", whole(1), whole(60_000))).is_ok());
    let orders = t.on_index_price(whole(20_000)).unwrap();
    assert_eq!(t.current_funding_rate(), Fixed::from_units(75_000));
    assert_eq!(t.mark_price(), whole(20_015));
    assert_eq!(position(&t, "A").unwrap().unrealized_pnl, whole(-39_985));
    assert_eq!(orders.len(), 1);
    assert_eq!(orders[0].user_id, "A");
}

#[test]
fn pnl_after_mark_update() {
    let mut t = PositionTracker::new();
    assert!(t.on_trade(&trade("A", "B", Fixed::from_units(150_000_000), whole(100))).is_ok());
    assert!(t.on_trade(&trade("C", "A", Fixed::from_units(50_000_000), whole(110))).is_ok());
    assert!(t.update_mark_price(whole(120)).is_ok());
    t.update_risk();
    let mark = t.mark_price().units;
    for p in t.positions() {
        let expected = p.size.units * (mark - p.entry_price.units) / ONE;
        assert_eq!(p.unrealized_pnl.units, expected);
    }
}

#[test]
fn sizes_sum_to_zero() {
    let mut t = PositionTracker::new();
    let trades = vec![
        trade("A", "B", whole(1), whole(100)),
        trade("B", "C", whole(3), whole(101)),
        trade("C", "A", whole(2), whole(99)),
        trade("A", "A", whole(1), whole(98)),
        trade("D", "B", Fixed::from_units(25_000_000), whole(100)),
    ];
    for tr in &trades {
        assert!(t.on_trade(tr).is_ok());
        assert_eq!(total_size(&t), 0);
        for p in t.positions() {
            assert!(p.size.units != 0);
        }
    }
}

#[test]
fn symmetric_trade_opens_opposite_positions() {
    let mut t = PositionTracker::new();
    assert!(t.on_trade(&trade("L", "S", whole(3), whole(200))).is_ok());
    let l = position(&t, "L").unwrap();
    let s = position(&t, "S").unwrap();
    assert_eq!(l.size, whole(3));
    assert_eq!(s.size, whole(-3));
    assert_eq!(l.size.units + s.size.units, 0);
}

#[test]
fn adding_and_reducing_exposure_moves_margin() {
    let mut t = PositionTracker::new();
    let mut tr = trade("A", "B", whole(1), whole(100));
    tr.long_leverage = whole(2);
    assert!(t.on_trade(&tr).is_ok());
    assert_eq!(position(&t, "A").unwrap().margin, whole(50));
    assert!(t.on_trade(&trade("A", "C", whole(1), whole(120))).is_ok());
    let a = position(&t, "A").unwrap();
    assert_eq!(a.size, whole(2));
    assert_eq!(a.entry_price, whole(110));
    assert_eq!(a.margin, whole(170));
    assert!(t.on_trade(&trade("D", "A", whole(1), whole(130))).is_ok());
    let a = position(&t, "A").unwrap();
    assert_eq!(a.size, whole(1));
    assert_eq!(a.entry_price, whole(90));
    assert_eq!(a.margin, whole(40));
}

#[test]
fn invalid_trades_change_nothing() {
    let mut t = PositionTracker::new();
    assert_eq!(
        t.on_trade(&trade("A", "B", whole(0), whole(100))),
        Err(EngineError::InvalidTrade)
    );
    let mut low = trade("A", "B", whole(1), whole(100));
    low.short_leverage = Fixed::from_units(50_000_000);
    assert_eq!(t.on_trade(&low), Err(EngineError::InvalidTrade));
    let huge = trade("A", "B", Fixed::from_units(LIMIT), Fixed::from_units(LIMIT));
    assert_eq!(t.on_trade(&huge), Err(EngineError::OutOfRange));
    assert!(t.positions().is_empty());
    assert_eq!(t.last_traded_price(), whole(0));
}

#[test]
fn index_price_must_be_positive() {
    let mut t = PositionTracker::new();
    assert_eq!(t.update_funding_rate(whole(0)), Err(EngineError::InvalidIndexPrice));
    assert_eq!(t.update_mark_price(whole(-5)), Err(EngineError::InvalidIndexPrice));
    assert!(t.on_index_price(whole(0)).is_err());
    assert!(t.funding_rate_window().is_empty());
}

#[test]
fn liquidation_ids_are_fresh() {
    let mut t = PositionTracker::new();
    assert!(t.on_trade(&trade("A", "Z", whole(1), whole(60_000))).is_ok());
    assert!(t.on_trade(&trade("Y", "B", whole(1), whole(60_000))).is_ok());
    assert!(t.update_mark_price(whole(20_000)).is_ok());
    let orders = t.update_risk();
    assert_eq!(orders.len(), 2);
    assert_eq!(orders[0].id.len(), 36);
    assert_ne!(orders[0].id, orders[1].id);
}

#[test]
fn liquidate_on_demand_once() {
    let mut t = PositionTracker::new();
    assert!(t.on_trade(&trade("A", "B", whole(2), whole(100))).is_ok());
    assert!(t.liquidate(&"nobody".to_string()).is_none());
    let o = t.liquidate(&"B".to_string()).unwrap();
    assert_eq!(o.user_id, "B");
    assert_eq!(o.side, Side::BID);
    assert_eq!(o.amount, whole(2));
    assert_eq!(o.order_type, OrderType::MARKET);
    assert!(position(&t, "B").unwrap().liquidation_in_flight);
    assert!(t.liquidate(&"B".to_string()).is_none());
}

#[test]
fn funding_payments_follow_the_rate() {
    let mut t = PositionTracker::new();
    assert!(t.on_trade(&trade("A", "B", whole(2), whole(61_000))).is_ok());
    assert!(t.update_funding_rate(whole(60_000)).is_ok());
    assert!(t.update_mark_price(whole(60_000)).is_ok());
    let pays = t.funding_payments();
    assert_eq!(pays.len(), 2);
    let a = pays.iter().find(|(u, _)| u == "A").unwrap();
    let b = pays.iter().find(|(u, _)| u == "B").unwrap();
    // 2 * 60045 * 0.00075
    assert_eq!(a.1, Fixed::from_units(9_006_750_000));
    assert_eq!(b.1, Fixed::from_units(-9_006_750_000));
}

#[test]
fn funding_hours() {
    assert_eq!(next_funding_hour(0), 8);
    assert_eq!(next_funding_hour(7), 8);
    assert_eq!(next_funding_hour(8), 16);
    assert_eq!(next_funding_hour(15), 16);
    assert_eq!(next_funding_hour(16), 24);
    assert_eq!(next_funding_hour(23), 24);
}

#[test]
fn reversal_opens_a_new_position_at_the_trade_price() {
    let mut t = PositionTracker::new();
    assert!(t.on_trade(&trade("A", "B", whole(1), whole(100))).is_ok());
    assert!(t.on_trade(&trade("C", "A", whole(3), whole(110))).is_ok());
    let a = position(&t, "A").unwrap();
    assert_eq!(a.size, whole(-2));
    assert_eq!(a.entry_price, whole(110));
    assert_eq!(a.margin, whole(220));
    assert_eq!(a.unrealized_pnl, whole(0));
    assert!(!a.liquidation_in_flight);
    assert_eq!(total_size(&t), 0);
}

#[test]
fn fresh_accounts_beside_existing_positions() {
    let mut t = PositionTracker::new();
    assert!(t.on_trade(&trade("X", "Y", whole(4), whole(90))).is_ok());
    assert!(t.on_trade(&trade("A", "B", Fixed::from_units(70_000_000), whole(95))).is_ok());
    let a = position(&t, "A").unwrap().size;
    let b = position(&t, "B").unwrap().size;
    assert_eq!(a, Fixed::from_units(70_000_000));
    assert_eq!(a.units + b.units, 0);
    assert_eq!(position(&t, "X").unwrap().size, whole(4));
    assert_eq!(position(&t, "Y").unwrap().size, whole(-4));
}

#[test]
fn funding_transfers_go_through_the_exchange() {
    let u = "alice".to_string();
    let pay = funding_transfer(&u, whole(3)).unwrap();
    assert_eq!((pay.from.as_str(), pay.to.as_str(), pay.amount), ("alice", "exchange", whole(3)));
    let get = funding_transfer(&u, whole(-2)).unwrap();
    assert_eq!((get.from.as_str(), get.to.as_str(), get.amount), ("exchange", "alice", whole(2)));
    assert!(funding_transfer(&u, whole(0)).is_none());
}
