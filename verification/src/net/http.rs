//! What the request front-end takes in and answers.

use vstd::prelude::*;
use crate::protocol::{OrderId, OrderType, Price, Quantity, RejectReason, Side, UserId};

verus! {

/// A client's request to place an order; the engine gives it its id.
#[derive(Debug, Clone, PartialEq, Eq)]
pub struct OrderRequest {
    pub user_id: UserId,
    pub symbol: String,
    pub side: Side,
    pub order_type: OrderType,
    pub quantity: Quantity,
    pub price: Option<Price>,
}

#[derive(Debug, Clone, PartialEq, Eq)]
pub struct CancelOrderRequest {
    pub user_id: UserId,
    pub symbol: String,
    pub order_id: OrderId,
}

/// How many levels of depth are asked for.
#[derive(Debug, Clone, Copy, PartialEq, Eq, Structural)]
pub struct DepthQuery {
    pub limit: usize,
}

#[derive(Debug, Clone, PartialEq, Eq)]
pub struct DepthResponse {
    pub bids: Vec<(Price, Quantity)>,
    pub asks: Vec<(Price, Quantity)>,
}

#[derive(Debug, Clone, PartialEq, Eq)]
pub enum OrderResponse {
    Ack { order_id: OrderId, user_id: UserId, symbol: String },
    Reject { order_id: OrderId, reason: RejectReason, symbol: String, message: String },
}

#[derive(Debug, Clone, PartialEq, Eq)]
pub enum CancelOrderResponse {
    Ack { order_id: OrderId, user_id: UserId, symbol: String },
    Reject { order_id: OrderId, reason: RejectReason, message: String },
}

#[derive(Debug, Clone, PartialEq, Eq)]
pub enum CommandResponse {
    PlaceOrder(OrderResponse),
    CancelOrder(CancelOrderResponse),
    Depth(DepthResponse),
}

/// The status of an answer.
#[derive(Debug, Clone, Copy, PartialEq, Eq, Structural)]
pub struct StatusCode {
    pub code: u16,
}

/// The status of an answer that grants what was asked.
pub const STATUS_OK: u16 = 200;

/// The status of an answer that refuses what was asked.
pub const STATUS_BAD_REQUEST: u16 = 400;

impl StatusCode {
    pub fn as_u16(&self) -> (code: u16)
        ensures
            code == self.code,
    {
        self.code
    }
}

/// An answer as it goes out: a status and the response it carries.
#[derive(Debug, Clone, PartialEq, Eq)]
pub struct HttpResponse<T> {
    pub status: StatusCode,
    pub body: T,
}

impl<T> HttpResponse<T> {
    pub fn status(&self) -> (status: StatusCode)
        ensures
            status == self.status,
    {
        self.status
    }

    pub fn body(&self) -> (body: &T)
        ensures
            *body == self.body,
    {
        &self.body
    }
}

impl OrderResponse {
    /// 200 for an acknowledgement, 400 for a reject.
    pub open spec fn status(self) -> u16 {
        match self {
            OrderResponse::Ack { .. } => STATUS_OK,
            OrderResponse::Reject { .. } => STATUS_BAD_REQUEST,
        }
    }

    pub fn into_http_response(self) -> (response: HttpResponse<OrderResponse>)
        ensures
            response.status.code == self.status(),
            response.body == self,
    {
        let code = match &self {
            OrderResponse::Ack { .. } => STATUS_OK,
            OrderResponse::Reject { .. } => STATUS_BAD_REQUEST,
        };
        HttpResponse { status: StatusCode { code }, body: self }
    }
}

impl CancelOrderResponse {
    /// 200 for an acknowledgement, 400 for a reject.
    pub open spec fn status(self) -> u16 {
        match self {
            CancelOrderResponse::Ack { .. } => STATUS_OK,
            CancelOrderResponse::Reject { .. } => STATUS_BAD_REQUEST,
        }
    }

    pub fn into_http_response(self) -> (response: HttpResponse<CancelOrderResponse>)
        ensures
            response.status.code == self.status(),
            response.body == self,
    {
        let code = match &self {
            CancelOrderResponse::Ack { .. } => STATUS_OK,
            CancelOrderResponse::Reject { .. } => STATUS_BAD_REQUEST,
        };
        HttpResponse { status: StatusCode { code }, body: self }
    }
}

impl CommandResponse {
    /// The status of the response it wraps; 200 for depth.
    pub open spec fn status(self) -> u16 {
        match self {
            CommandResponse::PlaceOrder(r) => r.status(),
            CommandResponse::CancelOrder(r) => r.status(),
            CommandResponse::Depth(_) => STATUS_OK,
        }
    }

    pub fn into_http_response(self) -> (response: HttpResponse<CommandResponse>)
        ensures
            response.status.code == self.status(),
            response.body == self,
    {
        let code = match &self {
            CommandResponse::PlaceOrder(r) => match r {
                OrderResponse::Ack { .. } => STATUS_OK,
                OrderResponse::Reject { .. } => STATUS_BAD_REQUEST,
            },
            CommandResponse::CancelOrder(r) => match r {
                CancelOrderResponse::Ack { .. } => STATUS_OK,
                CancelOrderResponse::Reject { .. } => STATUS_BAD_REQUEST,
            },
            CommandResponse::Depth(_) => STATUS_OK,
        };
        HttpResponse { status: StatusCode { code }, body: self }
    }
}

} // verus!
