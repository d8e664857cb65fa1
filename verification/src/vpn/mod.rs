//! Virtual networks joined by codes: the packets they carry, the codes,
//! the addresses handed out inside, and the table that routes packets.

pub mod packet;
pub mod vpn;
pub mod router;
