//! The message schema shared by the engine and its clients: commands that
//! enter the engine and events that leave it.

use vstd::prelude::*;

verus! {

pub type OrderId = u64;

pub type UserId = u64;

pub type TradeId = u64;

pub type Price = u64;

pub type Quantity = u64;

/// Which side of the book an order is on.
#[derive(Clone, Copy, Debug, PartialEq, Eq, Hash, Structural)]
pub enum Side {
    Buy,
    Sell,
}

impl Side {
    pub open spec fn spec_opposite(self) -> Side {
        match self {
            Side::Buy => Side::Sell,
            Side::Sell => Side::Buy,
        }
    }

    /// The side an order of this side trades against.
    #[verifier::when_used_as_spec(spec_opposite)]
    pub fn opposite(self) -> (other: Side)
        ensures
            other == self.spec_opposite(),
    {
        match self {
            Side::Buy => Side::Sell,
            Side::Sell => Side::Buy,
        }
    }
}

#[derive(Clone, Copy, Debug, PartialEq, Eq, Hash, Structural)]
pub enum OrderType {
    Limit,
    Market,
}

#[derive(Clone, Copy, Debug, PartialEq, Eq, Hash, Structural)]
pub enum OrderStatus {
    Pending,
    PartiallyFilled,
    Filled,
    Cancelled,
    Rejected,
}

impl OrderStatus {
    /// A terminal status admits no further transition.
    pub open spec fn spec_is_terminal(self) -> bool {
        self is Filled || self is Cancelled || self is Rejected
    }

    #[verifier::when_used_as_spec(spec_is_terminal)]
    pub fn is_terminal(self) -> (terminal: bool)
        ensures
            terminal == self.spec_is_terminal(),
    {
        match self {
            OrderStatus::Filled | OrderStatus::Cancelled | OrderStatus::Rejected => true,
            OrderStatus::Pending | OrderStatus::PartiallyFilled => false,
        }
    }

    /// The status of an order of `quantity` units of which `remaining` are
    /// still open, while it has not been cancelled or rejected.
    pub open spec fn spec_after_fill(quantity: Quantity, remaining: Quantity) -> OrderStatus {
        if remaining == 0 {
            OrderStatus::Filled
        } else if remaining < quantity {
            OrderStatus::PartiallyFilled
        } else {
            OrderStatus::Pending
        }
    }

    #[verifier::when_used_as_spec(spec_after_fill)]
    pub fn after_fill(quantity: Quantity, remaining: Quantity) -> (status: OrderStatus)
        ensures
            status == Self::spec_after_fill(quantity, remaining),
    {
        if remaining == 0 {
            OrderStatus::Filled
        } else if remaining < quantity {
            OrderStatus::PartiallyFilled
        } else {
            OrderStatus::Pending
        }
    }
}

/// Why an order was refused. The names are stable on the wire.
#[derive(Clone, Copy, Debug, PartialEq, Eq, Hash, Structural)]
pub enum RejectReason {
    InvalidPrice,
    InvalidOrder,
    InvalidQuantity,
    InsufficientBalance,
    SymbolNotFound,
    MarketClosed,
    InternalError,
}

impl RejectReason {
    /// The wire name of the reason.
    pub open spec fn name(self) -> Seq<char> {
        match self {
            RejectReason::InvalidPrice => "InvalidPrice"@,
            RejectReason::InvalidOrder => "InvalidOrder"@,
            RejectReason::InvalidQuantity => "InvalidQuantity"@,
            RejectReason::InsufficientBalance => "InsufficientBalance"@,
            RejectReason::SymbolNotFound => "SymbolNotFound"@,
            RejectReason::MarketClosed => "MarketClosed"@,
            RejectReason::InternalError => "InternalError"@,
        }
    }

    pub fn to_string(&self) -> (text: String)
        ensures
            text@ == self.name(),
    {
        match self {
            RejectReason::InvalidPrice => "InvalidPrice".to_owned(),
            RejectReason::InvalidOrder => "InvalidOrder".to_owned(),
            RejectReason::InvalidQuantity => "InvalidQuantity".to_owned(),
            RejectReason::InsufficientBalance => "InsufficientBalance".to_owned(),
            RejectReason::SymbolNotFound => "SymbolNotFound".to_owned(),
            RejectReason::MarketClosed => "MarketClosed".to_owned(),
            RejectReason::InternalError => "InternalError".to_owned(),
        }
    }
}

/// Why an order left the book without being filled.
#[derive(Clone, Copy, Debug, PartialEq, Eq, Hash, Structural)]
pub enum CancelReason {
    UserRequested,
    SystemCancelled,
    Expired,
    Liquidation,
}

impl CancelReason {
    /// The wire name of the reason.
    pub open spec fn name(self) -> Seq<char> {
        match self {
            CancelReason::UserRequested => "UserRequested"@,
            CancelReason::SystemCancelled => "SystemCancelled"@,
            CancelReason::Expired => "Expired"@,
            CancelReason::Liquidation => "Liquidation"@,
        }
    }

    pub fn to_string(&self) -> (text: String)
        ensures
            text@ == self.name(),
    {
        match self {
            CancelReason::UserRequested => "UserRequested".to_owned(),
            CancelReason::SystemCancelled => "SystemCancelled".to_owned(),
            CancelReason::Expired => "Expired".to_owned(),
            CancelReason::Liquidation => "Liquidation".to_owned(),
        }
    }
}

/// A client's request to trade. `price` is required for a limit order and
/// ignored for a market order.
#[derive(Clone, Debug, PartialEq, Eq)]
pub struct Order {
    pub order_id: OrderId,
    pub user_id: UserId,
    pub symbol: String,
    pub side: Side,
    pub order_type: OrderType,
    pub quantity: Quantity,
    pub price: Option<Price>,
}

impl Order {
    pub fn new(
        order_id: OrderId,
        user_id: UserId,
        symbol: String,
        side: Side,
        order_type: OrderType,
        quantity: Quantity,
        price: Option<Price>,
    ) -> (order: Order)
        ensures
            order == (Order { order_id, user_id, symbol, side, order_type, quantity, price }),
    {
        Order { order_id, user_id, symbol, side, order_type, quantity, price }
    }
}

#[derive(Clone, Debug, PartialEq, Eq)]
pub struct CancelOrder {
    pub order_id: OrderId,
    pub user_id: UserId,
    pub symbol: String,
}

impl CancelOrder {
    pub fn new(order_id: OrderId, user_id: UserId, symbol: String) -> (cancel: CancelOrder)
        ensures
            cancel == (CancelOrder { order_id, user_id, symbol }),
    {
        CancelOrder { order_id, user_id, symbol }
    }
}

/// What the engine consumes, one at a time and in arrival order.
#[derive(Clone, Debug, PartialEq, Eq)]
pub enum OrderCommand {
    PlaceOrder(Order),
    CancelOrder(CancelOrder),
    GetDepth { symbol: String, limit: usize },
}

/// One match between a resting (maker) and an incoming (taker) order.
#[derive(Clone, Debug, PartialEq, Eq)]
pub struct Trade {
    pub trade_id: TradeId,
    pub maker_order_id: OrderId,
    pub maker_user_id: UserId,
    pub taker_order_id: OrderId,
    pub taker_user_id: UserId,
    pub symbol: String,
    pub quantity: Quantity,
    pub price: Price,
    pub timestamp: i64,
}

/// One participant's view of a trade.
#[derive(Clone, Debug, PartialEq, Eq)]
pub struct Fill {
    pub order_id: OrderId,
    pub user_id: UserId,
    pub symbol: String,
    pub side: Side,
    pub filled_quantity: Quantity,
    pub filled_price: Price,
    pub remaining_quantity: Quantity,
}

#[derive(Clone, Debug, PartialEq, Eq)]
pub struct OrderAck {
    pub order_id: OrderId,
    pub user_id: UserId,
    pub symbol: String,
}

#[derive(Clone, Debug, PartialEq, Eq)]
pub struct OrderReject {
    pub order_id: OrderId,
    pub user_id: UserId,
    pub reason: RejectReason,
    pub message: String,
    pub symbol: String,
}

#[derive(Clone, Debug, PartialEq, Eq)]
pub struct OrderCancelled {
    pub order_id: OrderId,
    pub user_id: UserId,
    pub symbol: String,
    pub reason: CancelReason,
}

/// The aggregate open quantity at one price.
#[derive(Clone, Copy, Debug, PartialEq, Eq, Structural)]
pub struct PriceLevel {
    pub price: Price,
    pub quantity: Quantity,
}

/// A snapshot of the top of the book: bids from the highest price down,
/// asks from the lowest price up.
#[derive(Clone, Debug, PartialEq, Eq)]
pub struct BookUpdate {
    pub symbol: String,
    pub bids: Vec<PriceLevel>,
    pub asks: Vec<PriceLevel>,
    pub last_price: Option<Price>,
}

/// What the engine emits.
#[derive(Clone, Debug, PartialEq, Eq)]
pub enum Event {
    Trade(Trade),
    Fill(Fill),
    OrderAck(OrderAck),
    OrderReject(OrderReject),
    OrderCancelled(OrderCancelled),
    BookUpdate(BookUpdate),
}

} // verus!
