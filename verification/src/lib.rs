//! A verified core for a TFTP server on one socket: the wire codec for the
//! five frame shapes, the per-transfer state machines and the datagram
//! dispatcher.

pub mod dispatcher;
pub mod packet;
pub mod transfer;
