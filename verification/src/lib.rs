//! A reliable, ordered ARQ transport control block that runs over an
//! unreliable datagram carrier. The control block performs no I/O: it turns
//! application bytes into segments, tracks acknowledgements and reassembles
//! inbound segments, driven by a clock supplied by the caller.

pub mod constants;
pub mod sealed;
pub mod segment;
pub mod codec;
pub mod kcp;
pub mod recv;
pub mod rtt;
pub mod input;
pub mod flush;
pub mod laws;
