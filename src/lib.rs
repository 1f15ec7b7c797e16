//! A client for the Mumble control protocol: the handshake that rebuilds the
//! server's channel tree, the messages the client sends, and lookups on the
//! resulting snapshot.
pub mod handshake;
pub mod model;
pub mod outbound;
pub mod util;
