//! Local network discovery: subnet arithmetic, ICMP and ARP message
//! construction, interface lookup over the host's address tables, and the
//! decision logic of a network scan.

pub mod models;
mod sys;
pub mod network;
pub mod text;
pub mod discover;
