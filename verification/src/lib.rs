//! Packet-mutation strategies: rules that decide, packet by packet, whether to
//! pass, drop, duplicate, fragment or rewrite IPv4/TCP traffic.
//!
//! A [`Strategy`] holds rules for outbound and for inbound packets. Each rule
//! pairs a trigger, which watches one header field, with a tree of actions.
//! [`parse_strategy`] reads a strategy from its text, [`Strategy::to_string`]
//! writes it back, and [`Strategy::apply`] runs it on a [`Packet`].
//!
//! Every function states what it computes over a mathematical model of its
//! arguments, and the laws that tie the functions together are proved next to
//! them: that what is written reads back, that rules do not chain, that a
//! trigger keeps to its budget, that checksums come out right.

pub mod actions;
pub mod errors;
pub mod packet;
pub mod parser;
pub mod strategy;
pub mod text;
pub mod triggers;
pub mod wire;

pub use errors::Error;
pub use packet::Packet;
pub use parser::parse_strategy;
pub use strategy::{Direction, Forest, Strategy};
