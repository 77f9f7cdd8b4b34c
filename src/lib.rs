//! A small RESP server library: the wire codec, the command parser, the
//! keyspace with lazy expiration, the request evaluator and an RDB snapshot
//! decoder.
pub mod decimal;
pub mod resp;
pub mod clock;
pub mod command;
pub mod errors;
pub mod store;
pub mod handler;
pub mod rdb;
pub mod args;
pub mod roundtrip;
