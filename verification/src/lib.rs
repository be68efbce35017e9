pub mod arith;
pub mod bitfield;
pub mod coordinator;
pub mod peer;
pub mod protocol;
pub mod torrent;
pub mod tracker;
