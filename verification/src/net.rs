//! What the network front-ends share with the core: the requests and
//! answers of the request front-end, the subscription messages of stream
//! clients and the conventions of the message bus.

pub mod channels;
pub mod http;
pub mod subscriptions;
pub mod types;
