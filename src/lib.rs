//! A party protocol: one Host, many Users, a rendezvous directory between them,
//! and the current order handed from Host to Users.
pub mod bytes;
pub mod codec;
pub mod ids;
pub mod launch;
pub mod laws;
pub mod local_ip;
pub mod rendezvous;
pub mod session;
pub mod wire;
