//! A Beanstalk work-queue broker: the codec of its line protocol, and the
//! engine that keeps jobs, tubes and client sessions.
//!
//! Instants are milliseconds from an origin that the host chooses; the host
//! also runs the sockets and the timers, and hands events in.
pub mod numbers;
pub mod protocol;
pub mod parser;
pub mod decoder;
pub mod encoder;
pub mod codec;
pub mod wire_format;
pub mod documents;
pub mod tube;
pub mod job;
pub mod server;
pub mod session;
pub mod laws;
