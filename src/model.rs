use std::collections::HashMap;
use vstd::prelude::*;

verus! {

/// A version record: the protocol version, the software's name and version,
/// and the operating system it runs on.
#[derive(Debug, Clone)]
pub struct Version {
    pub version: u32,
    pub release: String,
    pub os: String,
    pub os_version: String,
}

/// What the server reports of a channel: its id, parent and name.
#[derive(Debug, Clone)]
pub struct ChannelState {
    pub channel_id: u32,
    pub parent: Option<u32>,
    pub name: String,
}

/// What the server reports of a connected user.
#[derive(Debug, Clone)]
pub struct UserState {
    pub session: u32,
    pub actor: u32,
    pub name: String,
    pub channel_id: u32,
}

/// A channel, with the users known to be in it in the order the server
/// reported them.
#[derive(Debug, Clone)]
pub struct Channel {
    pub users: Vec<UserState>,
    pub info: ChannelState,
}

/// The model of a channel: its description and its members.
pub struct ChannelView {
    pub info: ChannelState,
    pub users: Seq<UserState>,
}

impl View for Channel {
    type V = ChannelView;

    open spec fn view(&self) -> ChannelView {
        ChannelView { info: self.info, users: self.users@ }
    }
}

/// The channel tree of a map from channel id to channel.
pub open spec fn channels_of(m: Map<u32, Channel>) -> Map<u32, ChannelView> {
    m.map_values(|c: Channel| c@)
}

/// This client's own actor and session ids, as the server reported them
/// during the handshake. Only a finished handshake makes one.
#[derive(Debug, Clone, Copy)]
pub struct SessionIdentity {
    actor: u32,
    session: u32,
}

impl SessionIdentity {
    /// The actor id.
    pub closed spec fn actor(&self) -> u32 {
        self.actor
    }

    /// The session id.
    pub closed spec fn session(&self) -> u32 {
        self.session
    }

    pub(crate) fn new(actor: u32, session: u32) -> (r: SessionIdentity)
        ensures
            r.actor() == actor,
            r.session() == session,
    {
        SessionIdentity { actor, session }
    }

    /// The actor id.
    pub fn actor_id(&self) -> (r: u32)
        ensures
            r == self.actor(),
    {
        self.actor
    }

    /// The session id.
    pub fn session_id(&self) -> (r: u32)
        ensures
            r == self.session(),
    {
        self.session
    }
}

/// Everything the client learnt about itself and the server during the
/// handshake.
#[derive(Debug, Clone)]
pub struct ClientInfo {
    pub channel_info: HashMap<u32, Channel>,
    pub server_info: Option<Version>,
    pub username: String,
    pub identity: SessionIdentity,
}

impl ClientInfo {
    /// The channel tree, keyed by channel id.
    pub open spec fn channels(&self) -> Map<u32, ChannelView> {
        channels_of(self.channel_info@)
    }
}

} // verus!
