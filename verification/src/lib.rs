//! Ring: a shared-memory bus between processes on one machine.
//!
//! This crate holds the mechanics of the bus as verified functions on plain values: the byte
//! layout of frames, rings and the control segment, the control-plane records, the broker's
//! registry and rules, and the decisions that a connector takes.
pub mod avro;
pub mod bench;
pub mod broker;
pub mod bus;
pub mod bytes;
pub mod calls;
pub mod channel;
pub mod client;
pub mod control;
pub mod frame;
pub mod http;
pub mod json;
pub mod lock;
pub mod outline;
pub mod pow2;
pub mod proto;
pub mod registry;
pub mod ring;
pub mod rpc;
pub mod shm;
pub mod text;
pub mod unfold;
pub mod util;
