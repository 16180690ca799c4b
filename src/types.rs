//! The reply body, the choice between the book's two queues, and the checks
//! on client requests.
use vstd::prelude::*;

use crate::fixed::{lemma_mul_bound, mul_units, Fixed, SCALE};
use crate::order::{Order, OrderType, Side};
use crate::position::{leg_margin, LIMIT};

verus! {

/// The body of every HTTP reply.
pub struct Response {
    pub message: String,
    pub error: String,
}

/// The two queues into the order book.
#[derive(Clone, Copy, Debug, PartialEq, Eq, Structural)]
pub enum Lane {
    Liquidation,
    Client,
}

/// Which queue the book reads next: liquidations come first whenever one is
/// waiting, and a client order is read only when none is.
pub fn next_lane(liquidation_ready: bool, client_ready: bool) -> (r: Option<Lane>)
    ensures
        liquidation_ready ==> r == Some(Lane::Liquidation),
        !liquidation_ready && client_ready ==> r == Some(Lane::Client),
        !liquidation_ready && !client_ready ==> r is None,
{
    if liquidation_ready {
        Some(Lane::Liquidation)
    } else if client_ready {
        Some(Lane::Client)
    } else {
        None
    }
}

/// Why a client request is malformed.
#[derive(Clone, Copy, Debug, PartialEq, Eq, Structural)]
pub enum RequestError {
    /// The order type is neither `limit` nor `market`.
    InvalidOrderType,
    /// The side is neither `buy` nor `sell`.
    InvalidSide,
    /// A LIMIT price that is not positive or is out of range.
    InvalidPrice,
    /// An amount that is not positive or is out of range.
    InvalidAmount,
    /// A leverage of zero.
    InvalidLeverage,
    /// A LIMIT order whose value `price * amount` is out of range.
    InvalidNotional,
}

pub open spec fn order_type_of(s: Seq<char>) -> Option<OrderType> {
    if s == "limit"@ {
        Some(OrderType::LIMIT)
    } else if s == "market"@ {
        Some(OrderType::MARKET)
    } else {
        None
    }
}

pub open spec fn side_of(s: Seq<char>) -> Option<Side> {
    if s == "buy"@ {
        Some(Side::BID)
    } else if s == "sell"@ {
        Some(Side::ASK)
    } else {
        None
    }
}

/// Reads `limit` or `market`.
pub fn parse_order_type(type_: &String) -> (r: Result<OrderType, RequestError>)
    ensures
        r == match order_type_of(type_@) {
            Some(t) => Ok::<OrderType, RequestError>(t),
            None => Err(RequestError::InvalidOrderType),
        },
{
    proof {
        reveal_strlit("limit");
        reveal_strlit("market");
    }
    if *type_ == "limit".to_string() {
        Ok(OrderType::LIMIT)
    } else if *type_ == "market".to_string() {
        Ok(OrderType::MARKET)
    } else {
        Err(RequestError::InvalidOrderType)
    }
}

/// Reads `buy` (a BID) or `sell` (an ASK).
pub fn parse_side(side: &String) -> (r: Result<Side, RequestError>)
    ensures
        r == match side_of(side@) {
            Some(s) => Ok::<Side, RequestError>(s),
            None => Err(RequestError::InvalidSide),
        },
{
    proof {
        reveal_strlit("buy");
        reveal_strlit("sell");
    }
    if *side == "buy".to_string() {
        Ok(Side::BID)
    } else if *side == "sell".to_string() {
        Ok(Side::ASK)
    } else {
        Err(RequestError::InvalidSide)
    }
}

/// The first check a request fails, in the order type, side, price, amount,
/// leverage, value; `None` for a well-formed request. Bounding the value of
/// every LIMIT order bounds the value of every trade, which is at most the
/// value of its resting order.
pub open spec fn request_error(
    type_: Seq<char>,
    side: Seq<char>,
    price: Fixed,
    amount: Fixed,
    leverage: u32,
) -> Option<RequestError> {
    if order_type_of(type_) is None {
        Some(RequestError::InvalidOrderType)
    } else if side_of(side) is None {
        Some(RequestError::InvalidSide)
    } else if order_type_of(type_) == Some(OrderType::LIMIT) && !(0 < price.units <= LIMIT) {
        Some(RequestError::InvalidPrice)
    } else if !(0 < amount.units <= LIMIT) {
        Some(RequestError::InvalidAmount)
    } else if leverage == 0 {
        Some(RequestError::InvalidLeverage)
    } else if order_type_of(type_) == Some(OrderType::LIMIT) && mul_units(
        price.units as int,
        amount.units as int,
    ) > LIMIT {
        Some(RequestError::InvalidNotional)
    } else {
        None
    }
}

/// Builds the order of a client request, or says why the request is
/// malformed. The leverage is a whole number.
pub fn new_order(
    id: String,
    user_id: String,
    type_: &String,
    side: &String,
    price: Fixed,
    amount: Fixed,
    leverage: u32,
) -> (r: Result<Order, RequestError>)
    ensures
        match request_error(type_@, side@, price, amount, leverage) {
            Some(e) => r == Err::<Order, RequestError>(e),
            None => r matches Ok(o) && {
                &&& o.id == id
                &&& o.user_id == user_id
                &&& Some(o.order_type) == order_type_of(type_@)
                &&& Some(o.side) == side_of(side@)
                &&& o.price == price
                &&& o.amount == amount
                &&& o.leverage.units == leverage * 100_000_000
            },
        },
{
    let order_type = match parse_order_type(type_) {
        Ok(t) => t,
        Err(e) => return Err(e),
    };
    let side = match parse_side(side) {
        Ok(s) => s,
        Err(e) => return Err(e),
    };
    if order_type == OrderType::LIMIT && !(0 < price.units && price.units <= LIMIT) {
        return Err(RequestError::InvalidPrice);
    }
    if !(0 < amount.units && amount.units <= LIMIT) {
        return Err(RequestError::InvalidAmount);
    }
    if leverage == 0 {
        return Err(RequestError::InvalidLeverage);
    }
    if order_type == OrderType::LIMIT {
        proof {
            lemma_mul_bound(price.units as int, amount.units as int, LIMIT as int, LIMIT as int);
        }
        let notional: i128 = price.units * amount.units / SCALE;
        if notional > LIMIT {
            return Err(RequestError::InvalidNotional);
        }
    }
    let leverage = Fixed::from_int(leverage as i64);
    Ok(Order { id, user_id, order_type, amount, price, side, leverage })
}

/// The margin an order locks when it enters: `price * amount / leverage`,
/// at the order's own price (for a MARKET order, the price the client
/// quoted); `None` when a step leaves the `i128` range.
pub fn initial_margin(order: &Order) -> (r: Option<Fixed>)
    ensures
        r == leg_margin(order.price, order.amount, order.leverage),
{
    match order.price.checked_mul(order.amount) {
        Some(n) => n.checked_div(order.leverage),
        None => None,
    }
}

} // verus!
