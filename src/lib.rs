//! The server side of the server list ping: the wire codec (VarInts, texts, packet
//! framing) and the state machine that takes one connection through handshake, status
//! and ping, or hands it over for login.

pub mod error;
pub mod fixed;
pub mod fsm;
pub mod json;
pub mod packet;
pub mod text;
pub mod varint;
