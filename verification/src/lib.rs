//! An in-memory key/value store served over bounded request and response
//! rings: the bucket-sharded table, the ring protocol, the server's
//! dispatch rules and the client's command grammar.

pub mod hashtable;
pub mod shm_ipc;
pub mod server;
pub mod client;
