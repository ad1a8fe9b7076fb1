//! Decoder for the status reply of the legacy server-list ping.
pub mod decimal;
pub mod laws;
pub mod packet;

pub use packet::{parse_server_list_packet, DecodeError, MinecraftServer};
