//! A multi-room messaging backbone: bounded-capacity rooms with an owner and
//! a mutable member list, an in-memory keyed store of rooms, a single-writer
//! sender registry that serializes outbound delivery per participant, and the
//! dispatch logic that turns one inbound message into zero or more deliveries.

pub mod domain;
pub mod registry;
pub mod dispatch;
pub mod sender;
