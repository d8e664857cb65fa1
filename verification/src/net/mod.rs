//! The private network that clients share: addresses, passcodes, the
//! frames that carry datagrams, and the table of who holds what.

pub mod code;

pub mod packet;
pub mod network;
