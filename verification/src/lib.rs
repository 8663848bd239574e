//! The decision core of a DNS-filtering proxy.

pub mod answer_laws;
pub mod blocklist;
pub mod bytes;
pub mod connection;
pub mod dns_proxy;
pub mod doq;
pub mod flight;
pub mod message;
pub mod names;
pub mod packet;
pub mod pipeline;
pub mod proxy;
pub mod reply_laws;
pub mod token;
pub mod tun;
