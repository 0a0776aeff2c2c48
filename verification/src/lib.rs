//! A telemetry broker: clients send length-prefixed frames over TCP, and the broker passes each
//! frame on to a set of downstream workers through a bounded broadcast channel.
//!
//! The library holds what the broker decides, with its contracts and laws; sockets, timers and
//! tasks belong to the program around it.
//!
//! - [`wire`] says what the bytes of a connection mean.
//! - [`frame`] holds the codec that puts frames on the wire and takes them off it.
//! - [`server`] decides who is let in and what becomes of what a client sends.
//! - [`downstream`] decides what a worker does with what it receives.
//! - [`shutdown`] decides in which order the broker is torn down.
//! - [`config`] and [`time`] hold the configuration, [`text`] writes numbers out.
//! - [`buffer`] and [`channel`] state what is taken on trust about the byte containers, the
//!   broadcast channel and the cancellation token in use.

pub mod buffer;
pub mod channel;
pub mod config;
pub mod downstream;
pub mod frame;
pub mod server;
pub mod shutdown;
pub mod text;
pub mod time;
pub mod wire;
