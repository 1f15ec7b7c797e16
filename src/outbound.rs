//! The messages this client sends, built from plain values.
use crate::model::{SessionIdentity, Version};
use vstd::prelude::*;

verus! {

/// The protocol version this client speaks: 1.2.5, as
/// `1 << 16 | 2 << 8 | 5`.
pub const PROTOCOL_VERSION: u32 = 66053;

/// The seconds between two pings; comfortably under the server's idle timeout.
pub const PING_INTERVAL_SECS: u64 = 28;

/// The first message of the handshake.
#[derive(Debug, Clone)]
pub struct Authenticate {
    pub username: String,
    /// Whether the client can decode Opus audio.
    pub opus: bool,
}

/// A text message to a channel, sent in the name of this client.
#[derive(Debug, Clone)]
pub struct TextMessage {
    pub actor: u32,
    pub session: Vec<u32>,
    pub channel_id: Vec<u32>,
    pub message: String,
}

/// The authentication for `username`, announcing Opus support.
pub fn authenticate(username: &String) -> (r: Authenticate)
    ensures
        r.username@ == username@,
        r.opus,
{
    Authenticate { username: username.clone(), opus: true }
}

/// The version record this client sends: the protocol version, the release
/// `mumble_rs` followed by `crate_version`, and the host's operating system.
pub fn client_version(crate_version: &str, os: String, os_version: String) -> (r: Version)
    ensures
        r.version == PROTOCOL_VERSION,
        r.release@ == "mumble_rs"@ + crate_version@,
        r.os == os,
        r.os_version == os_version,
{
    let mut release = String::from_str("mumble_rs");
    release.append(crate_version);
    Version { version: PROTOCOL_VERSION, release, os, os_version }
}

/// `message` addressed to `channel_id`, stamped with this client's actor and
/// session ids as the handshake captured them. HTML may be used in `message`.
pub fn text_message(message: String, channel_id: u32, identity: &SessionIdentity) -> (r: TextMessage)
    ensures
        r.actor == identity.actor(),
        r.session@ == seq![identity.session()],
        r.channel_id@ == seq![channel_id],
        r.message == message,
{
    let mut session: Vec<u32> = Vec::new();
    session.push(identity.session_id());
    let mut channels: Vec<u32> = Vec::new();
    channels.push(channel_id);
    TextMessage { actor: identity.actor_id(), session, channel_id: channels, message }
}

} // verus!
