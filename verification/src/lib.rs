//! Loss-recovery accounting for a QUIC transport: a per-space ledger of
//! sent-but-unresolved packets, and the Proportional Rate Reduction (PRR)
//! accountant that bounds how many bytes may be sent while a connection
//! recovers from congestion.

pub mod packet_number;
pub mod prr;
pub mod sent_packets;

pub use packet_number::{PacketNumber, PacketNumberRange, PacketNumberSpace, Timestamp};
pub use prr::Prr;
pub use sent_packets::{SentPacketInfo, SentPackets};
