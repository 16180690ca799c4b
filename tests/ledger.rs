use perp_engine::fixed::Fixed;
use perp_engine::oracle::{Oracle, EMA, PRICE_FLOOR};
use perp_engine::order::{OrderType, Side};
use perp_engine::position::LIMIT;
use perp_engine::types::{initial_margin, new_order, parse_order_type, parse_side, RequestError};
use perp_engine::wallet::WalletManager;

const ONE: i128 = 100_000_000;

fn whole(n: i128) -> Fixed {
    Fixed::from_units(n * ONE)
}

#[test]
fn exchange_account_is_seeded() {
    let w = WalletManager::new();
    assert_eq!(w.get_balance(&"exchange".to_string()), Some(whole(10_000_000)));
    assert_eq!(w.get_balance(&"alice".to_string()), None);
}

#[test]
fn debit_provisions_unknown_accounts() {
    let mut w = WalletManager::new();
    assert!(w.debit("alice".to_string(), whole(500)));
    assert_eq!(w.get_balance(&"alice".to_string()), Some(whole(999_500)));
    assert!(!w.debit("bob".to_string(), whole(2_000_000)));
    assert_eq!(w.get_balance(&"bob".to_string()), Some(whole(1_000_000)));
    assert_eq!(w.get_balance(&"exchange".to_string()), Some(whole(10_000_000)));
}

#[test]
fn debit_needs_enough_balance() {
    let mut w = WalletManager::new();
    assert!(w.debit("exchange".to_string(), whole(10_000_000)));
    assert_eq!(w.get_balance(&"exchange".to_string()), Some(whole(0)));
    assert!(!w.debit("exchange".to_string(), Fixed::from_units(1)));
    assert_eq!(w.get_balance(&"exchange".to_string()), Some(whole(0)));
}

#[test]
fn credit_only_known_accounts() {
    let mut w = WalletManager::new();
    w.credit("carol".to_string(), whole(10));
    assert_eq!(w.get_balance(&"carol".to_string()), None);
    w.credit("exchange".to_string(), whole(10));
    assert_eq!(w.get_balance(&"exchange".to_string()), Some(whole(10_000_010)));
}

#[test]
fn ema_step() {
    let r = EMA(whole(100), whole(50), Fixed::from_units(10_000_000));
    assert_eq!(r, whole(55));
    let same = EMA(whole(70), whole(70), Fixed::from_units(6_451_612));
    assert_eq!(same, whole(70));
    let tiny = EMA(Fixed::from_units(1), Fixed::from_units(1), Fixed::from_units(6_451_612));
    assert_eq!(tiny, Fixed::from_units(1));
    let steady = Fixed::from_units(60_000 * ONE + 1);
    assert_eq!(EMA(steady, steady, Fixed::from_units(6_451_612)), steady);
    let down = EMA(whole(40), whole(50), Fixed::from_units(6_451_612));
    assert!(whole(40).units <= down.units && down.units <= whole(50).units);
    assert_eq!(down.units, 50 * ONE - 6_451_612 * 10);
}

#[test]
fn oracle_moves_and_floors() {
    let mut o = Oracle::new();
    let p = o.next_price(Fixed::from_units(1_000_000), 7);
    assert_eq!(p.timestamp, 7);
    assert_eq!(p.price_usd, whole(60_600));
    let alpha: i128 = 6_451_612;
    let expected_ema = 60_000 * ONE + alpha * 600;
    assert_eq!(p.moving_average.units, expected_ema);
    let crash = o.next_price(Fixed::from_units(-ONE), 8);
    assert_eq!(crash.price_usd.units, PRICE_FLOOR);
    assert!(crash.price_usd.units > 0);
    let below = o.next_price(Fixed::from_units(-3 * ONE), 9);
    assert_eq!(below.price_usd.units, PRICE_FLOOR);
    let soar = o.next_price(Fixed::from_units(i128::MAX), 10);
    assert_eq!(soar.price_usd.units, LIMIT);
}

#[test]
fn fixed_arithmetic() {
    assert_eq!(whole(3).checked_mul(Fixed::from_units(150_000_000)), Some(Fixed::from_units(450_000_000)));
    assert_eq!(whole(1).checked_div(whole(3)), Some(Fixed::from_units(33_333_333)));
    assert_eq!(whole(-1).checked_div(whole(3)), Some(Fixed::from_units(-33_333_333)));
    assert_eq!(whole(1).checked_div(whole(0)), None);
    assert_eq!(Fixed::from_units(i128::MAX).checked_mul(whole(2)), None);
    assert_eq!(Fixed::from_units(i128::MAX).checked_add(Fixed::from_units(1)), None);
    assert_eq!(whole(5).checked_sub(whole(7)), Some(whole(-2)));
    assert_eq!(Fixed::from_int(-4), whole(-4));
    assert_eq!(whole(9).clamp(whole(0), whole(5)), whole(5));
    assert_eq!(whole(2).min(whole(1)), whole(1));
    assert_eq!(whole(2).max(whole(1)), whole(2));
}

#[test]
fn request_parsing() {
    assert_eq!(parse_order_type(&"limit".to_string()), Ok(OrderType::LIMIT));
    assert_eq!(parse_order_type(&"market".to_string()), Ok(OrderType::MARKET));
    assert_eq!(parse_order_type(&"stop".to_string()), Err(RequestError::InvalidOrderType));
    assert_eq!(parse_side(&"buy".to_string()), Ok(Side::BID));
    assert_eq!(parse_side(&"sell".to_string()), Ok(Side::ASK));
    assert_eq!(parse_side(&"hold".to_string()), Err(RequestError::InvalidSide));
}

#[test]
fn request_errors() {
    let id = || "id".to_string();
    let u = || "user".to_string();
    let lim = "limit".to_string();
    let mkt = "market".to_string();
    let buy = "buy".to_string();
    assert_eq!(
        new_order(id(), u(), &"x".to_string(), &buy, whole(1), whole(1), 1).err(),
        Some(RequestError::InvalidOrderType)
    );
    assert_eq!(
        new_order(id(), u(), &lim, &"x".to_string(), whole(1), whole(1), 1).err(),
        Some(RequestError::InvalidSide)
    );
    assert_eq!(
        new_order(id(), u(), &lim, &buy, whole(0), whole(1), 1).err(),
        Some(RequestError::InvalidPrice)
    );
    assert_eq!(
        new_order(id(), u(), &lim, &buy, whole(1), whole(0), 1).err(),
        Some(RequestError::InvalidAmount)
    );
    assert_eq!(
        new_order(id(), u(), &lim, &buy, whole(1), whole(1), 0).err(),
        Some(RequestError::InvalidLeverage)
    );
    let o = new_order(id(), u(), &mkt, &"sell".to_string(), whole(0), whole(2), 5).unwrap();
    assert_eq!(o.order_type, OrderType::MARKET);
    assert_eq!(o.side, Side::ASK);
    assert_eq!(o.amount, whole(2));
    assert_eq!(o.leverage, whole(5));
    assert_eq!(o.user_id, "user");
}

#[test]
fn order_value_is_bounded_and_margin_computed() {
    let lim = "limit".to_string();
    let buy = "buy".to_string();
    let big = new_order("i".to_string(), "u".to_string(), &lim, &buy, whole(1_000_000), whole(100_000), 1);
    assert_eq!(big.err(), Some(RequestError::InvalidNotional));
    let o = new_order("i".to_string(), "u".to_string(), &lim, &buy, whole(60_000), Fixed::from_units(50_000_000), 4)
        .unwrap();
    assert_eq!(initial_margin(&o), Some(whole(7_500)));
}
