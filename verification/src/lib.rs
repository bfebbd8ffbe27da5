// A real-time text chat core: envelopes and their wire codec, the
// broadcast hub that fans messages out to every subscriber, the presence
// registry, and the per-connection session state machine. The sockets and
// task plumbing around these live outside the library.

pub mod codec;
pub mod hub;
pub mod message;
pub mod registry;
pub mod session;
