//! Networking core for real-time simulations: channel reliability engines,
//! fragmentation, acknowledgments, tick synchronisation and input history.

pub mod ack;
pub mod channel;
pub mod connection;
pub mod fragment;
pub mod input;
pub mod io;
pub mod message;
pub mod packet;
pub mod protocol;
pub mod sender;
pub mod sequence;
pub mod sync;
